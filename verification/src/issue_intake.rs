//! The manual "Report an issue" intake: the dialog state, the prefilled
//! Issue-Form request it builds, and the launch decisions around it.
//!
//! Privacy rules kept here: nothing is built until the user asks, the body is
//! previewable, diagnostics are off unless the user ticks them, and no
//! persistent identifier enters the title, the body or the request.

use vstd::prelude::*;
use vstd::string::StringExecFns;
use crate::text::{chars_of, string_from_chars, trim, trim_bounds, trim_end, trim_start, trimmed};

verus! {

/// The GitHub `owner/repo` the prefilled Issue-Form deep link targets.
pub const ISSUE_REPO: &'static str = "46b-ETYKiAL/Itasha.Corp_F0RG3-W1R3";

/// The support email alias the `mailto:` fallback addresses.
pub const MAILTO_ALIAS: &'static str = "46b.AbandonSomething@proton.me";

/// The kind of issue the user is filing.
#[derive(Debug, Clone, Copy, PartialEq, Eq, Structural)]
pub enum IssueKind {
    /// A bug report (`bug.yml`, label `bug`).
    Bug,
    /// A feature request (`feature.yml`, label `enhancement`).
    Feature,
    /// A question or anything else (`other.yml`, label `question`).
    Other,
}

impl Default for IssueKind {
    fn default() -> (k: IssueKind)
        ensures
            k == IssueKind::Bug,
    {
        IssueKind::Bug
    }
}

/// The Issue-Form template file of each kind.
pub open spec fn template_of(k: IssueKind) -> Seq<char> {
    match k {
        IssueKind::Bug => "bug.yml"@,
        IssueKind::Feature => "feature.yml"@,
        IssueKind::Other => "other.yml"@,
    }
}

/// The server-side label of each kind.
pub open spec fn label_of(k: IssueKind) -> Seq<char> {
    match k {
        IssueKind::Bug => "bug"@,
        IssueKind::Feature => "enhancement"@,
        IssueKind::Other => "question"@,
    }
}

/// The selector text of each kind.
pub open spec fn display_of(k: IssueKind) -> Seq<char> {
    match k {
        IssueKind::Bug => "Bug"@,
        IssueKind::Feature => "Feature request"@,
        IssueKind::Other => "Question / other"@,
    }
}

/// The issue title prefix of each kind.
pub open spec fn title_prefix_of(k: IssueKind) -> Seq<char> {
    match k {
        IssueKind::Bug => "bug: "@,
        IssueKind::Feature => "feat: "@,
        IssueKind::Other => "other: "@,
    }
}

impl IssueKind {
    /// All kinds, in display order.
    pub const ALL: [IssueKind; 3] = [IssueKind::Bug, IssueKind::Feature, IssueKind::Other];

    /// The Issue-Form template filename this kind targets.
    pub fn template(self) -> (r: &'static str)
        ensures
            r@ == template_of(self),
    {
        match self {
            IssueKind::Bug => "bug.yml",
            IssueKind::Feature => "feature.yml",
            IssueKind::Other => "other.yml",
        }
    }

    /// The server-side label this kind applies.
    pub fn label(self) -> (r: &'static str)
        ensures
            r@ == label_of(self),
    {
        match self {
            IssueKind::Bug => "bug",
            IssueKind::Feature => "enhancement",
            IssueKind::Other => "question",
        }
    }

    /// A human label for the dialog selector.
    pub fn display(self) -> (r: &'static str)
        ensures
            r@ == display_of(self),
    {
        match self {
            IssueKind::Bug => "Bug",
            IssueKind::Feature => "Feature request",
            IssueKind::Other => "Question / other",
        }
    }

    /// The default issue title prefix for this kind.
    pub fn title_prefix(self) -> (r: &'static str)
        ensures
            r@ == title_prefix_of(self),
    {
        match self {
            IssueKind::Bug => "bug: ",
            IssueKind::Feature => "feat: ",
            IssueKind::Other => "other: ",
        }
    }
}

/// The path the intake took, for the outcome log.
#[derive(Debug, Clone, PartialEq, Eq)]
pub enum IntakeOutcome {
    /// The prefilled Issue-Form URL was opened in the browser.
    OpenedDeepLink,
    /// The body was surfaced for a manual copy.
    CopiedToClipboard,
    /// The `mailto:` fallback opened a mail client.
    OpenedMailto,
    /// The action could not be completed, with a non-identifying reason.
    Failed(String),
}

/// The stable log detail of each outcome; a failure's reason is not part of it.
pub open spec fn intake_detail_of(o: IntakeOutcome) -> Seq<char> {
    match o {
        IntakeOutcome::OpenedDeepLink => "deep-link"@,
        IntakeOutcome::CopiedToClipboard => "clipboard"@,
        IntakeOutcome::OpenedMailto => "mailto"@,
        IntakeOutcome::Failed(_) => "failed"@,
    }
}

impl IntakeOutcome {
    /// The stable, non-identifying log detail for this outcome.
    pub fn log_detail(&self) -> (r: &'static str)
        ensures
            r@ == intake_detail_of(*self),
    {
        match self {
            IntakeOutcome::OpenedDeepLink => "deep-link",
            IntakeOutcome::CopiedToClipboard => "clipboard",
            IntakeOutcome::OpenedMailto => "mailto",
            IntakeOutcome::Failed(_) => "failed",
        }
    }
}

/// What the host does after the deep-link decision.
#[derive(Debug, Clone, PartialEq, Eq)]
pub enum IntakeAction {
    /// The browser was launched with the URL; report the outcome.
    Opened(IntakeOutcome),
    /// Surface this text for the user to copy manually.
    CopyToClipboard(String),
}

/// The non-identifying diagnostics the user may opt in to: the app version,
/// the OS and the architecture, as the host reads them.
#[derive(Debug, Clone)]
pub struct Diagnostics {
    pub app_version: String,
    pub os: String,
    pub arch: String,
}

/// The diagnostics block appended to an opted-in issue body.
pub open spec fn diagnostics_text(d: Diagnostics) -> Seq<char> {
    "\n\n---\nApp version: "@ + d.app_version@ + "\nOS: "@ + d.os@ + "\nArch: "@ + d.arch@
}

/// Build the diagnostics block: app version, OS and target architecture.
pub fn diagnostics_block(d: &Diagnostics) -> (r: String)
    ensures
        r@ == diagnostics_text(*d),
{
    let mut r = "\n\n---\nApp version: ".to_owned();
    r.append(d.app_version.as_str());
    r.append("\nOS: ");
    r.append(d.os.as_str());
    r.append("\nArch: ");
    r.append(d.arch.as_str());
    r
}

/// The issue body: the description, then the diagnostics block only when the
/// user opted in.
pub open spec fn body_text(description: Seq<char>, include_diagnostics: bool, d: Diagnostics) -> Seq<
    char,
> {
    if include_diagnostics {
        description + diagnostics_text(d)
    } else {
        description
    }
}

/// Build the prefilled issue body from the user's description plus the
/// opt-in diagnostics block.
pub fn build_body(description: &str, include_diagnostics: bool, diagnostics: &Diagnostics) -> (r:
    String)
    ensures
        r@ == body_text(description@, include_diagnostics, *diagnostics),
{
    let mut body = description.to_owned();
    if include_diagnostics {
        let block = diagnostics_block(diagnostics);
        body.append(block.as_str());
    }
    body
}

/// A prefilled GitHub Issue-Form request.
#[derive(Debug, Clone, PartialEq, Eq)]
pub struct IssueFormRequest {
    pub repo: String,
    pub title: String,
    pub body: String,
    pub template: Option<String>,
    pub labels: Vec<String>,
}

/// Whether `r` is the request for `repo`, `kind`, title tail `tail` and `body`.
pub open spec fn is_request_for(
    r: IssueFormRequest,
    repo: Seq<char>,
    kind: IssueKind,
    tail: Seq<char>,
    body: Seq<char>,
) -> bool {
    &&& r.repo@ == repo
    &&& r.title@ == title_prefix_of(kind) + trim(tail)
    &&& r.body@ == body
    &&& r.template matches Some(t) && t@ == template_of(kind)
    &&& r.labels@.len() == 1
    &&& r.labels@[0]@ == label_of(kind)
}

/// Build the Issue-Form request for the dialog's current state.
pub fn build_request(repo: &str, kind: IssueKind, title_tail: &str, body: &str) -> (r:
    IssueFormRequest)
    ensures
        is_request_for(r, repo@, kind, title_tail@, body@),
{
    let mut title = kind.title_prefix().to_owned();
    let t = trimmed(title_tail);
    title.append(t.as_str());
    let mut labels: Vec<String> = Vec::new();
    labels.push(kind.label().to_owned());
    IssueFormRequest {
        repo: repo.to_owned(),
        title,
        body: body.to_owned(),
        template: Some(kind.template().to_owned()),
        labels,
    }
}

/// The length of the first line of `s`: the characters before its first `\n`.
pub open spec fn line_len(s: Seq<char>) -> nat
    decreases s.len(),
{
    if s.len() == 0 || s[0] == '\n' {
        0
    } else {
        1 + line_len(s.drop_first())
    }
}

/// The first line of `s` (split at `\n`) that is not blank, trimmed; empty
/// when every line is blank.
pub open spec fn first_nonblank_line(s: Seq<char>) -> Seq<char>
    decreases s.len(),
{
    let k = line_len(s);
    let t = trim(s.subrange(0, k as int));
    if t.len() > 0 {
        t
    } else if k >= s.len() {
        Seq::empty()
    } else {
        first_nonblank_line(s.subrange(k + 1int, s.len() as int))
    }
}

/// The longest title tail, in characters.
pub const TITLE_TAIL_MAX: usize = 80;

/// The title tail of a description: its first non-blank line, cut to
/// [`TITLE_TAIL_MAX`] characters.
pub open spec fn title_tail_text(s: Seq<char>) -> Seq<char> {
    let l = first_nonblank_line(s);
    if l.len() > TITLE_TAIL_MAX {
        l.take(TITLE_TAIL_MAX as int)
    } else {
        l
    }
}

proof fn lemma_line_len(s: Seq<char>, pos: int, k: int)
    requires
        0 <= pos <= k <= s.len(),
        forall|j: int| pos <= j < k ==> s[j] != '\n',
        k == s.len() || s[k] == '\n',
    ensures
        line_len(s.subrange(pos, s.len() as int)) == k - pos,
        s.subrange(pos, s.len() as int).subrange(0, k - pos) == s.subrange(pos, k),
    decreases k - pos,
{
    let sub = s.subrange(pos, s.len() as int);
    if pos < k {
        lemma_line_len(s, pos + 1, k);
        assert(sub.drop_first() == s.subrange(pos + 1, s.len() as int));
    }
    assert(sub.subrange(0, k - pos) == s.subrange(pos, k));
}

/// Derive the one-line issue title tail from a free-form description: its
/// first non-empty line, trimmed and capped at [`TITLE_TAIL_MAX`] characters.
pub fn title_tail_from(description: &str) -> (r: String)
    ensures
        r@ == title_tail_text(description@),
        r@.len() == (if first_nonblank_line(description@).len() > TITLE_TAIL_MAX {
            TITLE_TAIL_MAX as int
        } else {
            first_nonblank_line(description@).len() as int
        }),
        r@ == first_nonblank_line(description@).take(r@.len() as int),
{
    proof {
        law_title_tail_is_the_start_of_the_first_line(description@);
    }
    let v = chars_of(description);
    let n = v.len();
    let mut pos: usize = 0;
    assert(v@.subrange(0, n as int) == v@);
    loop
        invariant
            n == v.len(),
            v@ == description@,
            pos <= n,
            first_nonblank_line(v@) == first_nonblank_line(v@.subrange(pos as int, n as int)),
        decreases n - pos,
    {
        let mut k = pos;
        while k < n && v[k] != '\n'
            invariant
                pos <= k <= n == v.len(),
                forall|j: int| pos <= j < k ==> v@[j] != '\n',
            decreases n - k,
        {
            k += 1;
        }
        proof {
            lemma_line_len(v@, pos as int, k as int);
        }
        let (a, b) = trim_bounds(&v, pos, k);
        let ghost sub = v@.subrange(pos as int, n as int);
        assert(line_len(sub) == k - pos);
        assert(trim(sub.subrange(0, line_len(sub) as int)) == v@.subrange(a as int, b as int));
        if a < b {
            assert(first_nonblank_line(sub) == v@.subrange(a as int, b as int));
            if b - a > TITLE_TAIL_MAX {
                assert(v@.subrange(a as int, (a + TITLE_TAIL_MAX) as int) == v@.subrange(
                    a as int,
                    b as int,
                ).take(TITLE_TAIL_MAX as int));
                return string_from_chars(&v, a, a + TITLE_TAIL_MAX);
            }
            return string_from_chars(&v, a, b);
        }
        if k == n {
            return String::new();
        }
        assert(sub.subrange(k - pos + 1, sub.len() as int) == v@.subrange(k + 1, n as int));
        pos = k + 1;
    }
}

/// The dialog state owned by the app. The default state is inert: closed,
/// diagnostics off, empty description.
#[derive(Debug, Clone)]
pub struct IssueIntakeState {
    /// Whether the modal is shown.
    pub open: bool,
    /// The selected issue kind.
    pub kind: IssueKind,
    /// The user's free-form description.
    pub description: String,
    /// Whether to include the diagnostics block; off unless the user opts in.
    pub include_diagnostics: bool,
    /// The last outcome, for a status line.
    pub last_outcome: Option<IntakeOutcome>,
}

/// The state of a freshly opened dialog.
pub open spec fn is_fresh(st: IssueIntakeState) -> bool {
    &&& st.open
    &&& st.kind == IssueKind::Bug
    &&& st.description@ == Seq::<char>::empty()
    &&& !st.include_diagnostics
    &&& st.last_outcome is None
}

impl Default for IssueIntakeState {
    fn default() -> (st: IssueIntakeState)
        ensures
            !st.open,
            st.kind == IssueKind::Bug,
            st.description@ == Seq::<char>::empty(),
            !st.include_diagnostics,
            st.last_outcome is None,
    {
        IssueIntakeState {
            open: false,
            kind: IssueKind::Bug,
            description: String::new(),
            include_diagnostics: false,
            last_outcome: None,
        }
    }
}

/// The description a failed install seeds the dialog with.
pub open spec fn failure_description(error: Seq<char>) -> Seq<char> {
    "Install failed.\n\nError: "@ + error + "\n\nWhat I was doing:\n"@
}

impl IssueIntakeState {
    /// Open the dialog fresh: clear the description and outcome and reset
    /// diagnostics to off, so reopening never re-enables them.
    pub fn open_fresh(&mut self)
        ensures
            is_fresh(*final(self)),
    {
        self.open = true;
        self.kind = IssueKind::Bug;
        self.description = String::new();
        self.include_diagnostics = false;
        self.last_outcome = None;
    }

    /// Seed the dialog from a failed install: a bug report whose description
    /// carries the installer's error text. Diagnostics stay off.
    pub fn open_from_failure(&mut self, error: &str)
        ensures
            final(self).open,
            final(self).kind == IssueKind::Bug,
            final(self).description@ == failure_description(error@),
            !final(self).include_diagnostics,
            final(self).last_outcome is None,
    {
        self.open_fresh();
        self.kind = IssueKind::Bug;
        let mut d = "Install failed.\n\nError: ".to_owned();
        d.append(error);
        d.append("\n\nWhat I was doing:\n");
        self.description = d;
    }

    /// The exact body text that will be sent, given the current state.
    pub fn preview_body(&self, diagnostics: &Diagnostics) -> (r: String)
        ensures
            r@ == body_text(self.description@, self.include_diagnostics, *diagnostics),
    {
        build_body(self.description.as_str(), self.include_diagnostics, diagnostics)
    }

    /// The Issue-Form request for the current state against `repo`; its body
    /// is exactly the preview body.
    pub fn request(&self, repo: &str, diagnostics: &Diagnostics) -> (r: IssueFormRequest)
        ensures
            is_request_for(
                r,
                repo@,
                self.kind,
                title_tail_text(self.description@),
                body_text(self.description@, self.include_diagnostics, *diagnostics),
            ),
    {
        let body = self.preview_body(diagnostics);
        let tail = title_tail_from(self.description.as_str());
        build_request(repo, self.kind, tail.as_str(), body.as_str())
    }
}

/// The first step of the deep-link path: open the browser or surface the body.
#[derive(Debug, Clone, Copy, PartialEq, Eq, Structural)]
pub enum LinkPlan {
    /// The URL fits the length ceiling: launch the browser with it.
    Launch,
    /// The URL is over the ceiling: surface the body for a manual copy.
    Copy,
}

/// Decide the deep-link path from the URL's length and the ceiling above
/// which GitHub answers 414.
pub fn plan_link(url_len: usize, ceiling: usize) -> (p: LinkPlan)
    ensures
        p == (if url_len <= ceiling {
            LinkPlan::Launch
        } else {
            LinkPlan::Copy
        }),
{
    if url_len <= ceiling {
        LinkPlan::Launch
    } else {
        LinkPlan::Copy
    }
}

/// The action once the browser launch was tried: a failed launch falls back
/// to the surfaced body so the report is never lost.
pub fn action_after_launch(launched: bool, clipboard_body: String) -> (a: IntakeAction)
    ensures
        launched ==> a == IntakeAction::Opened(IntakeOutcome::OpenedDeepLink),
        !launched ==> a == IntakeAction::CopyToClipboard(clipboard_body),
{
    if launched {
        IntakeAction::Opened(IntakeOutcome::OpenedDeepLink)
    } else {
        IntakeAction::CopyToClipboard(clipboard_body)
    }
}

/// The outcome of the `mailto:` fallback, from the mail client launch.
pub fn mailto_outcome(launch: Result<(), String>) -> (o: IntakeOutcome)
    ensures
        launch is Ok ==> o == IntakeOutcome::OpenedMailto,
        launch matches Err(e) ==> o matches IntakeOutcome::Failed(m) && m@
            == "could not open mail client: "@ + e@,
{
    match launch {
        Ok(()) => IntakeOutcome::OpenedMailto,
        Err(e) => {
            let mut m = "could not open mail client: ".to_owned();
            m.append(e.as_str());
            IntakeOutcome::Failed(m)
        },
    }
}

/// The outcome log line: the stable detail only, never the body, the URL or
/// the failure reason.
pub fn intake_log_line(outcome: &IntakeOutcome) -> (r: String)
    ensures
        r@ == "f0rg3::issue_intake detail="@ + intake_detail_of(*outcome),
{
    let mut r = "f0rg3::issue_intake detail=".to_owned();
    r.append(outcome.log_detail());
    r
}

proof fn lemma_trim_keeps_no_newline(x: Seq<char>)
    requires
        forall|j: int| 0 <= j < x.len() ==> x[j] != '\n',
    ensures
        forall|j: int| 0 <= j < trim(x).len() ==> trim(x)[j] != '\n',
{
    lemma_trim_start_no_newline(x);
    lemma_trim_end_no_newline(trim_start(x));
}

proof fn lemma_trim_start_no_newline(x: Seq<char>)
    requires
        forall|j: int| 0 <= j < x.len() ==> x[j] != '\n',
    ensures
        forall|j: int| 0 <= j < trim_start(x).len() ==> trim_start(x)[j] != '\n',
    decreases x.len(),
{
    if x.len() > 0 && crate::text::is_ws(x[0]) {
        assert forall|j: int| 0 <= j < x.drop_first().len() implies x.drop_first()[j] != '\n' by {
            assert(x.drop_first()[j] == x[j + 1]);
        }
        lemma_trim_start_no_newline(x.drop_first());
        assert(trim_start(x) == trim_start(x.drop_first()));
    } else {
        assert(trim_start(x) == x);
    }
}

proof fn lemma_trim_end_no_newline(x: Seq<char>)
    requires
        forall|j: int| 0 <= j < x.len() ==> x[j] != '\n',
    ensures
        forall|j: int| 0 <= j < trim_end(x).len() ==> trim_end(x)[j] != '\n',
    decreases x.len(),
{
    if x.len() > 0 && crate::text::is_ws(x.last()) {
        assert forall|j: int| 0 <= j < x.drop_last().len() implies x.drop_last()[j] != '\n' by {
            assert(x.drop_last()[j] == x[j]);
        }
        lemma_trim_end_no_newline(x.drop_last());
        assert(trim_end(x) == trim_end(x.drop_last()));
    } else {
        assert(trim_end(x) == x);
    }
}

proof fn lemma_line_len_no_newline(s: Seq<char>)
    ensures
        line_len(s) <= s.len(),
        forall|j: int| 0 <= j < line_len(s) ==> s[j] != '\n',
    decreases s.len(),
{
    if s.len() > 0 && s[0] != '\n' {
        lemma_line_len_no_newline(s.drop_first());
        assert forall|j: int| 0 <= j < line_len(s) implies s[j] != '\n' by {
            if j > 0 {
                assert(s[j] == s.drop_first()[j - 1]);
            }
        }
    }
}

proof fn lemma_first_nonblank_line_one_line(s: Seq<char>)
    ensures
        forall|j: int|
            0 <= j < first_nonblank_line(s).len() ==> first_nonblank_line(s)[j] != '\n',
    decreases s.len(),
{
    let k = line_len(s);
    lemma_line_len_no_newline(s);
    let seg = s.subrange(0, k as int);
    assert forall|j: int| 0 <= j < seg.len() implies seg[j] != '\n' by {
        assert(seg[j] == s[j]);
    }
    lemma_trim_keeps_no_newline(seg);
    if trim(seg).len() > 0 {
        assert(first_nonblank_line(s) == trim(seg));
    } else if k < s.len() {
        lemma_first_nonblank_line_one_line(s.subrange(k + 1int, s.len() as int));
        assert(first_nonblank_line(s) == first_nonblank_line(s.subrange(k + 1int, s.len() as int)));
    } else {
        assert(first_nonblank_line(s) == Seq::<char>::empty());
    }
}

/// The title tail is one line of at most [`TITLE_TAIL_MAX`] characters, so
/// the issue title never carries the rest of the description.
pub proof fn law_title_tail_is_one_short_line(description: Seq<char>)
    ensures
        title_tail_text(description).len() <= TITLE_TAIL_MAX,
        forall|j: int|
            0 <= j < title_tail_text(description).len() ==> title_tail_text(description)[j]
                != '\n',
{
    lemma_first_nonblank_line_one_line(description);
}

/// The title tail is the start of the description's first non-blank line:
/// the whole line when it is short, else exactly its first
/// [`TITLE_TAIL_MAX`] characters.
pub proof fn law_title_tail_is_the_start_of_the_first_line(description: Seq<char>)
    ensures
        title_tail_text(description).len() == (if first_nonblank_line(description).len()
            > TITLE_TAIL_MAX {
            TITLE_TAIL_MAX as int
        } else {
            first_nonblank_line(description).len() as int
        }),
        title_tail_text(description) == first_nonblank_line(description).take(
            title_tail_text(description).len() as int,
        ),
{
    let l = first_nonblank_line(description);
    if l.len() <= TITLE_TAIL_MAX {
        assert(l.take(l.len() as int) == l);
    }
}

/// Diagnostics reach the body only when the user opted in: without the
/// toggle the body is exactly the description, whatever the diagnostics.
pub proof fn law_body_is_description_unless_opted_in(
    description: Seq<char>,
    d1: Diagnostics,
    d2: Diagnostics,
)
    ensures
        body_text(description, false, d1) == description,
        body_text(description, false, d1) == body_text(description, false, d2),
        body_text(description, true, d1).take(description.len() as int) == description,
{
    assert((description + diagnostics_text(d1)).take(description.len() as int) == description);
}

/// The outcome log never carries a failure's reason: every failure logs the
/// same detail.
pub proof fn law_intake_failure_detail_hides_reason(a: String, b: String)
    ensures
        intake_detail_of(IntakeOutcome::Failed(a)) == intake_detail_of(IntakeOutcome::Failed(b)),
{
}

} // verus!
