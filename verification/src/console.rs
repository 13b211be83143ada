//! The provisioning console: the default install location, the word wrapping
//! of its fixed-width labels, the provisioning log and status line, and the
//! placement of its window, which starts hidden.

use vstd::prelude::*;
use vstd::string::StringExecFns;
use crate::text::{
    char_width, chars_of, is_whitespace, is_ws, trim, trimmed, lemma_utf8_len, lemma_utf8_len_concat, push_char,
    string_from_chars, trim_start, utf8_len, utf8_len_of,
};

verus! {

/// The default install directory for a vendor's app sub-directory.
pub open spec fn default_dir_text(vendor: Seq<char>, subdir: Seq<char>) -> Seq<char> {
    "C:\\Program Files\\"@ + vendor + "\\"@ + subdir
}

/// The default per-machine install directory: `C:\Program Files\<vendor>\<subdir>`.
pub fn default_dir(vendor: &str, install_subdir: &str) -> (r: String)
    ensures
        r@ == default_dir_text(vendor@, install_subdir@),
{
    let mut r = "C:\\Program Files\\".to_owned();
    r.append(vendor);
    r.append("\\");
    r.append(install_subdir);
    r
}

/// The length of the leading run of non-whitespace characters of `s`.
pub open spec fn word_len(s: Seq<char>) -> nat
    decreases s.len(),
{
    if s.len() == 0 || is_ws(s[0]) {
        0
    } else {
        1 + word_len(s.drop_first())
    }
}

pub proof fn lemma_trim_start_shape(s: Seq<char>)
    ensures
        trim_start(s).len() <= s.len(),
        trim_start(s).len() > 0 ==> !is_ws(trim_start(s)[0]),
    decreases s.len(),
{
    if s.len() > 0 && is_ws(s[0]) {
        lemma_trim_start_shape(s.drop_first());
    }
}

pub proof fn lemma_word_len_shape(s: Seq<char>)
    ensures
        word_len(s) <= s.len(),
        s.len() > 0 && !is_ws(s[0]) ==> word_len(s) >= 1,
    decreases s.len(),
{
    if s.len() > 0 && !is_ws(s[0]) {
        lemma_word_len_shape(s.drop_first());
    }
}

/// The words of `s`, as `str::split_whitespace` yields them: the maximal runs
/// of non-whitespace characters, in order.
pub open spec fn words(s: Seq<char>) -> Seq<Seq<char>>
    decreases s.len(),
{
    let t = trim_start(s);
    if t.len() == 0 {
        Seq::empty()
    } else {
        proof {
            lemma_trim_start_shape(s);
            lemma_word_len_shape(t);
        }
        let k = word_len(t) as int;
        seq![t.take(k)] + words(t.skip(k))
    }
}

/// Greedy wrapping of `ws` at `w` bytes: the text so far and the current
/// line's length. A word that would reach past `w` starts a new line; words
/// on one line are joined by a space.
pub open spec fn wrap_words(ws: Seq<Seq<char>>, w: nat) -> (Seq<char>, nat)
    decreases ws.len(),
{
    if ws.len() == 0 {
        (Seq::empty(), 0)
    } else {
        let (out, line) = wrap_words(ws.drop_last(), w);
        let word = ws.last();
        let wl = utf8_len(word);
        let (out1, line1) = if line + wl + 1 > w {
            (out.push('\n'), 0)
        } else {
            (out, line)
        };
        let (out2, line2) = if line1 > 0 {
            (out1.push(' '), line1 + 1)
        } else {
            (out1, line1)
        };
        (out2 + word, line2 + wl)
    }
}

/// `s` wrapped at `w` bytes: unchanged when it fits, else its words greedily
/// re-flowed.
pub open spec fn wrap_text(s: Seq<char>, w: nat) -> Seq<char> {
    if utf8_len(s) <= w {
        s
    } else {
        wrap_words(words(s), w).0
    }
}

proof fn lemma_word_len_scan(s: Seq<char>, a: int, b: int)
    requires
        0 <= a <= b <= s.len(),
        forall|j: int| a <= j < b ==> !is_ws(s[j]),
        b == s.len() || is_ws(s[b]),
    ensures
        word_len(s.subrange(a, s.len() as int)) == b - a,
    decreases b - a,
{
    if a < b {
        lemma_word_len_scan(s, a + 1, b);
        assert(s.subrange(a, s.len() as int).drop_first() == s.subrange(a + 1, s.len() as int));
    }
}

proof fn lemma_utf8_len_sub(s: Seq<char>, a: int, b: int)
    requires
        0 <= a <= b <= s.len(),
    ensures
        utf8_len(s.subrange(a, b)) <= utf8_len(s),
{
    lemma_utf8_len_concat(s.subrange(0, a), s.subrange(a, b));
    lemma_utf8_len_concat(s.subrange(0, a) + s.subrange(a, b), s.subrange(b, s.len() as int));
    assert(s.subrange(0, a) + s.subrange(a, b) + s.subrange(b, s.len() as int) == s);
}

/// The line `t` ends in: its characters after the last `\n`.
pub open spec fn last_line(t: Seq<char>) -> Seq<char>
    decreases t.len(),
{
    if t.len() == 0 {
        t
    } else if t.last() == '\n' {
        Seq::empty()
    } else {
        last_line(t.drop_last()).push(t.last())
    }
}

/// Every line of `t` that holds a space, so more than one word, is at most
/// `w` bytes long. (Checked for every prefix of `t`, so for every line.)
pub open spec fn spaced_lines_fit(t: Seq<char>, w: nat) -> bool
    decreases t.len(),
{
    if t.len() == 0 {
        true
    } else {
        spaced_lines_fit(t.drop_last(), w) && (last_line(t).contains(' ') ==> utf8_len(
            last_line(t),
        ) <= w)
    }
}

proof fn lemma_utf8_len_push(t: Seq<char>, c: char)
    ensures
        utf8_len(t.push(c)) == utf8_len(t) + char_width(c),
{
    let one = seq![c];
    lemma_utf8_len_concat(t, one);
    assert(t + one == t.push(c));
    assert(one[0] == c);
    assert(one.drop_first() =~= Seq::<char>::empty());
    assert(utf8_len(Seq::<char>::empty()) == 0);
    assert(utf8_len(one) == char_width(c) + utf8_len(one.drop_first()));
}

proof fn lemma_utf8_len_zero(t: Seq<char>)
    requires
        utf8_len(t) == 0,
    ensures
        t.len() == 0,
{
    if t.len() > 0 {
        assert(char_width(t[0]) >= 1);
    }
}

proof fn lemma_short_text_fits(t: Seq<char>, w: nat)
    requires
        utf8_len(t) <= w,
    ensures
        spaced_lines_fit(t, w),
        utf8_len(last_line(t)) <= utf8_len(t),
    decreases t.len(),
{
    if t.len() > 0 {
        let d = t.drop_last();
        assert(d.push(t.last()) == t);
        lemma_utf8_len_push(d, t.last());
        lemma_short_text_fits(d, w);
        if t.last() != '\n' {
            lemma_utf8_len_push(last_line(d), t.last());
        }
    }
}

proof fn lemma_append_word(t: Seq<char>, word: Seq<char>, w: nat)
    requires
        forall|i: int| 0 <= i < word.len() ==> !is_ws(#[trigger] word[i]),
        spaced_lines_fit(t, w),
        last_line(t).contains(' ') ==> utf8_len(last_line(t)) + utf8_len(word) <= w,
    ensures
        last_line(t + word) == last_line(t) + word,
        spaced_lines_fit(t + word, w),
    decreases word.len(),
{
    if word.len() == 0 {
        assert(t + word == t);
        assert(last_line(t) + word == last_line(t));
    } else {
        let wd = word.drop_last();
        let c = word.last();
        assert(!is_ws(word[word.len() - 1]));
        assert(c != '\n' && c != ' ');
        lemma_utf8_len_push(wd, c);
        assert(wd.push(c) == word);
        lemma_append_word(t, wd, w);
        assert((t + wd).push(c) == t + word);
        assert((t + word).drop_last() == t + wd);
        let ll = last_line(t);
        assert(last_line(t + word) == (ll + wd).push(c));
        assert((ll + wd).push(c) == ll + word);
        lemma_utf8_len_concat(ll, word);
        if (ll + word).contains(' ') {
            let k = choose|k: int| 0 <= k < (ll + word).len() && (ll + word)[k] == ' ';
            if k >= ll.len() {
                assert(word[k - ll.len()] == ' ');
                assert(false);
            }
            assert(ll[k] == ' ');
            assert(ll.contains(' '));
        }
    }
}

/// Every word of `s` is non-empty and holds no whitespace.
proof fn lemma_words_have_no_whitespace(s: Seq<char>)
    ensures
        forall|k: int, i: int|
            0 <= k < words(s).len() && 0 <= i < words(s)[k].len() ==> !is_ws(
                #[trigger] words(s)[k][i],
            ),
    decreases s.len(),
{
    let t = trim_start(s);
    if t.len() > 0 {
        lemma_trim_start_shape(s);
        lemma_word_len_shape(t);
        let n = word_len(t) as int;
        lemma_word_len_prefix(t);
        lemma_words_have_no_whitespace(t.skip(n));
        let ws = words(s);
        assert(ws == seq![t.take(n)] + words(t.skip(n)));
        assert forall|k: int, i: int| 0 <= k < ws.len() && 0 <= i < ws[k].len() implies !is_ws(
            #[trigger] ws[k][i],
        ) by {
            if k == 0 {
                assert(ws[0] == t.take(n));
                assert(ws[0][i] == t[i]);
            } else {
                assert(ws[k] == words(t.skip(n))[k - 1]);
            }
        }
    }
}

proof fn lemma_word_len_prefix(t: Seq<char>)
    ensures
        forall|i: int| 0 <= i < word_len(t) ==> !is_ws(#[trigger] t[i]),
    decreases t.len(),
{
    lemma_word_len_shape(t);
    if t.len() > 0 && !is_ws(t[0]) {
        lemma_word_len_prefix(t.drop_first());
        assert forall|i: int| 0 <= i < word_len(t) implies !is_ws(#[trigger] t[i]) by {
            if i > 0 {
                assert(t[i] == t.drop_first()[i - 1]);
            }
        }
    }
}

proof fn lemma_wrap_words_fit(ws: Seq<Seq<char>>, w: nat)
    requires
        forall|k: int, i: int| 0 <= k < ws.len() && 0 <= i < ws[k].len() ==> !is_ws(#[trigger] ws[k][i]),
    ensures
        utf8_len(last_line(wrap_words(ws, w).0)) == wrap_words(ws, w).1,
        spaced_lines_fit(wrap_words(ws, w).0, w),
    decreases ws.len(),
{
    if ws.len() > 0 {
        let prev = ws.drop_last();
        assert forall|k: int, i: int| 0 <= k < prev.len() && 0 <= i < prev[k].len() implies !is_ws(
            #[trigger] prev[k][i],
        ) by {
            assert(prev[k] == ws[k]);
        }
        lemma_wrap_words_fit(prev, w);
        let (out, line) = wrap_words(prev, w);
        let word = ws.last();
        assert forall|i: int| 0 <= i < word.len() implies !is_ws(#[trigger] word[i]) by {
            assert(word == ws[ws.len() - 1]);
        }
        let wl = utf8_len(word);
        let (out1, line1) = if line + wl + 1 > w {
            (out.push('\n'), 0nat)
        } else {
            (out, line)
        };
        if line + wl + 1 > w {
            assert(out.push('\n').drop_last() == out);
            assert(last_line(out1) =~= Seq::<char>::empty());
            assert(!last_line(out1).contains(' '));
        }
        assert(utf8_len(last_line(out1)) == line1);
        assert(spaced_lines_fit(out1, w));
        let (out2, line2) = if line1 > 0 {
            (out1.push(' '), line1 + 1)
        } else {
            (out1, line1)
        };
        if line1 > 0 {
            assert(out1.push(' ').drop_last() == out1);
            lemma_utf8_len_push(last_line(out1), ' ');
            assert(last_line(out2) == last_line(out1).push(' '));
            assert(line + wl + 1 <= w);
            assert(utf8_len(last_line(out2)) == line2);
        } else {
            lemma_utf8_len_zero(last_line(out1));
            assert(!last_line(out1).contains(' '));
        }
        assert(spaced_lines_fit(out2, w));
        assert(last_line(out2).contains(' ') ==> utf8_len(last_line(out2)) + wl <= w);
        lemma_append_word(out2, word, w);
        lemma_utf8_len_concat(last_line(out2), word);
    }
}

/// Wrapping never leaves a line of two or more words longer than `w` bytes:
/// a line past the width holds a single word that is itself too long.
pub proof fn law_wrapped_lines_fit(s: Seq<char>, w: nat)
    ensures
        spaced_lines_fit(wrap_text(s, w), w),
{
    if utf8_len(s) <= w {
        lemma_short_text_fits(s, w);
    } else {
        lemma_words_have_no_whitespace(s);
        lemma_wrap_words_fit(words(s), w);
    }
}

/// Wrap `s` at `w` bytes for the fixed-width console labels.
pub fn wrap(s: &str, w: usize) -> (r: String)
    requires
        utf8_len(s@) <= usize::MAX,
    ensures
        r@ == wrap_text(s@, w as nat),
        spaced_lines_fit(r@, w as nat),
{
    proof {
        lemma_utf8_len(s@);
        law_wrapped_lines_fit(s@, w as nat);
    }
    if s.len() <= w {
        return s.to_owned();
    }
    let v = chars_of(s);
    let n = v.len();
    let mut out = String::new();
    let mut line: usize = 0;
    let mut pos: usize = 0;
    let ghost mut done: Seq<Seq<char>> = Seq::empty();
    assert(v@.subrange(0, n as int) == v@);
    loop
        invariant
            n == v.len(),
            v@ == s@,
            utf8_len(s@) <= usize::MAX,
            pos <= n,
            words(v@) == done + words(v@.subrange(pos as int, n as int)),
            wrap_words(done, w as nat) == (out@, line as nat),
            utf8_len(s@) > w,
        ensures
            words(s@) == done,
            wrap_words(done, w as nat) == (out@, line as nat),
            utf8_len(s@) > w,
        decreases n - pos,
    {
        let mut a = pos;
        while a < n && is_whitespace(v[a])
            invariant
                pos <= a <= n == v.len(),
                trim_start(v@.subrange(pos as int, n as int)) == trim_start(
                    v@.subrange(a as int, n as int),
                ),
            decreases n - a,
        {
            assert(v@.subrange(a as int, n as int).drop_first() == v@.subrange(a + 1, n as int));
            a += 1;
        }
        assert(trim_start(v@.subrange(a as int, n as int)) == v@.subrange(a as int, n as int));
        if a == n {
            assert(words(v@.subrange(pos as int, n as int)) == Seq::<Seq<char>>::empty());
            assert(done + Seq::<Seq<char>>::empty() == done);
            break;
        }
        let mut b = a;
        while b < n && !is_whitespace(v[b])
            invariant
                a <= b <= n == v.len(),
                forall|j: int| a <= j < b ==> !is_ws(v@[j]),
            decreases n - b,
        {
            b += 1;
        }
        proof {
            lemma_word_len_scan(v@, a as int, b as int);
            let t = v@.subrange(a as int, n as int);
            assert(t.take(b - a) == v@.subrange(a as int, b as int));
            assert(t.skip(b - a) == v@.subrange(b as int, n as int));
            lemma_utf8_len_sub(v@, a as int, b as int);
        }
        let ghost word = v@.subrange(a as int, b as int);
        let ghost before = done;
        proof {
            done = done.push(word);
            assert(done.drop_last() == before);
            assert(words(v@) == done + words(v@.subrange(b as int, n as int)));
        }
        let wl = utf8_len_of(&v, a, b);
        if line >= w || wl >= w - line {
            push_char(&mut out, '\n');
            line = 0;
        }
        if line > 0 {
            push_char(&mut out, ' ');
            line = line + 1;
        }
        let piece = string_from_chars(&v, a, b);
        out.append(piece.as_str());
        line = line + wl;
        pos = b;
    }
    out
}

/// The console's phases.
#[derive(Debug, Clone, Copy, PartialEq, Eq, Structural)]
pub enum Phase {
    /// The boot animation.
    Boot,
    /// The location and options step.
    Configure,
    /// The install is running.
    Provision,
    /// The install finished.
    Online,
    /// The install failed.
    Failed,
}

/// The live provisioning log: one line per engine step, each marked done once
/// the next step starts or the install ends.
pub struct ProvisionLog {
    lines: Vec<(String, bool)>,
}

/// Every line but the last is marked done.
pub open spec fn settled(lines: Seq<(Seq<char>, bool)>) -> bool {
    forall|i: int| 0 <= i < lines.len() - 1 ==> #[trigger] lines[i].1
}

/// `lines` with its last line marked done.
pub open spec fn mark_last_done(lines: Seq<(Seq<char>, bool)>) -> Seq<(Seq<char>, bool)> {
    if lines.len() == 0 {
        lines
    } else {
        lines.update(lines.len() - 1, (lines.last().0, true))
    }
}

impl ProvisionLog {
    /// The log's lines: label and whether the step is done.
    pub closed spec fn view_lines(&self) -> Seq<(Seq<char>, bool)> {
        self.lines@.map_values(|l: (String, bool)| (l.0@, l.1))
    }

    /// An empty log.
    pub fn new() -> (log: ProvisionLog)
        ensures
            log.view_lines() == Seq::<(Seq<char>, bool)>::empty(),
    {
        let log = ProvisionLog { lines: Vec::new() };
        assert(log.view_lines() =~= Seq::<(Seq<char>, bool)>::empty());
        log
    }

    /// The lines, for drawing.
    pub fn lines(&self) -> (r: &Vec<(String, bool)>)
        ensures
            r@.map_values(|l: (String, bool)| (l.0@, l.1)) == self.view_lines(),
    {
        &self.lines
    }

    fn mark_last(&mut self)
        ensures
            final(self).view_lines() == mark_last_done(old(self).view_lines()),
    {
        let ghost before = self.lines@;
        match self.lines.pop() {
            Some((label, _)) => {
                self.lines.push((label, true));
                assert(self.lines@ == before.update(before.len() - 1, (before.last().0, true)));
                assert(self.view_lines() =~= mark_last_done(
                    before.map_values(|l: (String, bool)| (l.0@, l.1)),
                ));
            },
            None => {},
        }
    }

    /// A new engine step began: the previous one is done, the new one runs.
    pub fn push_step(&mut self, label: String)
        ensures
            final(self).view_lines() == mark_last_done(old(self).view_lines()).push((label@, false)),
            settled(old(self).view_lines()) ==> settled(final(self).view_lines()),
    {
        self.mark_last();
        let ghost mid = self.lines@;
        self.lines.push((label, false));
        assert(self.view_lines() =~= mid.map_values(|l: (String, bool)| (l.0@, l.1)).push(
            (label@, false),
        ));
    }

    /// The last `n` lines (all of them when there are fewer), oldest first:
    /// what the log panel has room for.
    pub fn recent(&self, n: usize) -> (r: Vec<(String, bool)>)
        ensures
            r@.map_values(|l: (String, bool)| (l.0@, l.1)) == self.view_lines().skip(
                self.view_lines().len() - (if n < self.view_lines().len() {
                    n as int
                } else {
                    self.view_lines().len() as int
                }),
            ),
    {
        let len = self.lines.len();
        let start: usize = if n < len {
            len - n
        } else {
            0
        };
        let mut r: Vec<(String, bool)> = Vec::new();
        let mut i: usize = start;
        while i < len
            invariant
                start <= i <= len,
                len == self.lines.len(),
                r@.map_values(|l: (String, bool)| (l.0@, l.1)) == self.view_lines().subrange(
                    start as int,
                    i as int,
                ),
            decreases len - i,
        {
            let label = self.lines[i].0.clone();
            let done = self.lines[i].1;
            let ghost before = r@;
            r.push((label, done));
            assert(r@.map_values(|l: (String, bool)| (l.0@, l.1)) =~= before.map_values(
                |l: (String, bool)| (l.0@, l.1),
            ).push((self.lines@[i as int].0@, done)));
            assert(self.view_lines().subrange(start as int, i + 1) =~= self.view_lines().subrange(
                start as int,
                i as int,
            ).push(self.view_lines()[i as int]));
            i += 1;
        }
        assert(self.view_lines().subrange(start as int, len as int) =~= self.view_lines().skip(
            start as int,
        ));
        r
    }

    /// The install ended: every line is done.
    pub fn finish(&mut self)
        ensures
            final(self).view_lines() == mark_last_done(old(self).view_lines()),
            settled(old(self).view_lines()) ==> forall|i: int|
                0 <= i < final(self).view_lines().len() ==> #[trigger] final(self).view_lines()[i].1,
    {
        self.mark_last();
    }
}

/// The install ended with `result`: the log is settled, and the console moves
/// to `Online`, or to `Failed` with the engine's error.
pub fn install_finished(log: &mut ProvisionLog, result: Result<(), String>) -> (r: (
    Phase,
    Option<String>,
))
    ensures
        final(log).view_lines() == mark_last_done(old(log).view_lines()),
        result is Ok ==> r.0 == Phase::Online && r.1 is None,
        result matches Err(e) ==> r.0 == Phase::Failed && r.1 == Some(e),
{
    log.finish();
    match result {
        Ok(()) => (Phase::Online, None),
        Err(e) => (Phase::Failed, Some(e)),
    }
}

/// Whether the chosen location allows INITIATE: it is not blank.
pub fn can_initiate(dir: &str) -> (b: bool)
    ensures
        b == (trim(dir@).len() > 0),
{
    let t = trimmed(dir);
    !t.as_str().is_empty()
}

/// `s` without its trailing `\` characters.
pub open spec fn trim_trailing_backslashes(s: Seq<char>) -> Seq<char>
    decreases s.len(),
{
    if s.len() > 0 && s.last() == '\\' {
        trim_trailing_backslashes(s.drop_last())
    } else {
        s
    }
}

/// The install location for a folder picked with BROWSE: the app's
/// sub-directory inside it.
pub fn browsed_install_dir(picked: &str, install_subdir: &str) -> (r: String)
    ensures
        r@ == trim_trailing_backslashes(picked@) + "\\"@ + install_subdir@,
{
    let v = chars_of(picked);
    let mut b = v.len();
    assert(v@.subrange(0, v@.len() as int) == v@);
    while b > 0 && v[b - 1] == '\\'
        invariant
            b <= v.len(),
            trim_trailing_backslashes(v@) == trim_trailing_backslashes(v@.subrange(0, b as int)),
        decreases b,
    {
        assert(v@.subrange(0, b as int).drop_last() == v@.subrange(0, b - 1));
        b -= 1;
    }
    let mut r = string_from_chars(&v, 0, b);
    r.append("\\");
    r.append(install_subdir);
    r
}


/// The status line under the provisioning gauge.
pub open spec fn status_label_of(phase: Phase) -> Seq<char> {
    match phase {
        Phase::Online => "NODE ONLINE"@,
        Phase::Failed => "FAULT"@,
        _ => "PROVISIONING"@,
    }
}

/// The status line under the provisioning gauge: `NODE ONLINE` once the
/// install finished, `FAULT` once it failed, `PROVISIONING` otherwise.
pub fn status_label(phase: Phase) -> (r: &'static str)
    ensures
        r@ == status_label_of(phase),
{
    match phase {
        Phase::Online => "NODE ONLINE",
        Phase::Failed => "FAULT",
        _ => "PROVISIONING",
    }
}

/// Frames the hidden window waits for its monitor's size before it is
/// revealed where the system put it.
pub const MAX_PLACEMENT_FRAMES: u32 = 30;

/// What a frame does with the window, which starts hidden.
#[derive(Debug, Clone, Copy, PartialEq, Eq, Structural)]
pub enum PlacementAction {
    /// Keep waiting for the monitor's size; the window stays hidden.
    Wait,
    /// Move the window to the centre of its monitor, then reveal it.
    CentreAndReveal,
    /// The monitor's size never came: reveal the window where it is.
    Reveal,
    /// The window was placed on an earlier frame: nothing to do.
    Settled,
}

/// One frame of placement from `(placed, waited)` when the monitor's size is
/// or is not known: the new `(placed, waited)` and the frame's action.
pub open spec fn placement_step(placed: bool, waited: nat, monitor_known: bool) -> (
    bool,
    nat,
    PlacementAction,
) {
    if placed {
        (true, waited, PlacementAction::Settled)
    } else if monitor_known {
        (true, waited + 1, PlacementAction::CentreAndReveal)
    } else if waited + 1 >= MAX_PLACEMENT_FRAMES {
        (true, waited + 1, PlacementAction::Reveal)
    } else {
        (false, waited + 1, PlacementAction::Wait)
    }
}

/// The frames of `reports` (whether each frame knew the monitor's size) run
/// in turn from `(placed, waited)`: the final `(placed, waited)` and every
/// frame's action.
pub open spec fn placement_run(placed: bool, waited: nat, reports: Seq<bool>) -> (
    bool,
    nat,
    Seq<PlacementAction>,
)
    decreases reports.len(),
{
    if reports.len() == 0 {
        (placed, waited, Seq::empty())
    } else {
        let before = placement_run(placed, waited, reports.drop_last());
        let step = placement_step(before.0, before.1, reports.last());
        (step.0, step.1, before.2.push(step.2))
    }
}

/// How many of `actions` reveal the window.
pub open spec fn reveal_count(actions: Seq<PlacementAction>) -> nat
    decreases actions.len(),
{
    if actions.len() == 0 {
        0
    } else {
        reveal_count(actions.drop_last()) + (match actions.last() {
            PlacementAction::CentreAndReveal | PlacementAction::Reveal => 1nat,
            _ => 0nat,
        })
    }
}

/// The placement of the console's window: whether it has been placed and
/// revealed, and how many frames have run while it was hidden.
pub struct WindowPlacement {
    placed: bool,
    waited: u32,
}

impl WindowPlacement {
    /// A hidden window keeps waiting only below the frame limit.
    #[verifier::type_invariant]
    spec fn bounded(self) -> bool {
        !self.placed ==> self.waited < MAX_PLACEMENT_FRAMES
    }

    /// Whether the window has been placed and revealed.
    pub closed spec fn is_placed(&self) -> bool {
        self.placed
    }

    /// The frames run while the window was hidden.
    pub closed spec fn waited(&self) -> nat {
        self.waited as nat
    }

    /// A hidden window that has waited no frames.
    pub fn new() -> (w: WindowPlacement)
        ensures
            !w.is_placed(),
            w.waited() == 0,
    {
        WindowPlacement { placed: false, waited: 0 }
    }

    /// A frame begins; `monitor_known` tells whether the viewport reported a
    /// real monitor size. The window is centred and revealed on the first
    /// frame that knows it, revealed anyway once the frame limit is reached,
    /// and left alone after that.
    pub fn on_frame(&mut self, monitor_known: bool) -> (a: PlacementAction)
        ensures
            (final(self).is_placed(), final(self).waited(), a) == placement_step(
                old(self).is_placed(),
                old(self).waited(),
                monitor_known,
            ),
    {
        proof {
            use_type_invariant(&*self);
        }
        if self.placed {
            return PlacementAction::Settled;
        }
        let waited = self.waited + 1;
        if monitor_known {
            *self = WindowPlacement { placed: true, waited };
            PlacementAction::CentreAndReveal
        } else if waited >= MAX_PLACEMENT_FRAMES {
            *self = WindowPlacement { placed: true, waited };
            PlacementAction::Reveal
        } else {
            *self = WindowPlacement { placed: false, waited };
            PlacementAction::Wait
        }
    }
}

proof fn lemma_placement_run(waited: nat, reports: Seq<bool>)
    requires
        waited < MAX_PLACEMENT_FRAMES,
    ensures
        !placement_run(false, waited, reports).0 ==> placement_run(false, waited, reports).1
            == waited + reports.len() && placement_run(false, waited, reports).1
            < MAX_PLACEMENT_FRAMES,
        reveal_count(placement_run(false, waited, reports).2) == (if placement_run(
            false,
            waited,
            reports,
        ).0 {
            1nat
        } else {
            0nat
        }),
        placement_run(false, waited, reports).2.len() == reports.len(),
    decreases reports.len(),
{
    if reports.len() > 0 {
        lemma_placement_run(waited, reports.drop_last());
        let before = placement_run(false, waited, reports.drop_last());
        let after = placement_run(false, waited, reports);
        assert(after.2.drop_last() == before.2);
    }
}

/// However the monitor's size is reported, a window that starts hidden is
/// revealed by the time `MAX_PLACEMENT_FRAMES` frames have run: it can never
/// be left invisible.
pub proof fn law_window_is_revealed_within_the_frame_limit(reports: Seq<bool>)
    requires
        reports.len() >= MAX_PLACEMENT_FRAMES,
    ensures
        placement_run(false, 0, reports).0,
{
    lemma_placement_run(0, reports);
}

/// A window that starts hidden is revealed at most once, and exactly once as
/// soon as it is placed; every frame after that leaves it alone.
pub proof fn law_window_is_revealed_once(reports: Seq<bool>)
    ensures
        reveal_count(placement_run(false, 0, reports).2) == (if placement_run(false, 0, reports).0 {
            1nat
        } else {
            0nat
        }),
        reveal_count(placement_run(false, 0, reports).2) <= 1,
{
    lemma_placement_run(0, reports);
}

} // verus!
