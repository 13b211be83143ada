//! Opt-in crash reporting: the outcomes a report can reach, the transport a
//! consented send uses, the editable preview a user sends, and the
//! crash-consent dialog's queue of spooled reports.
//!
//! Nothing here transmits: the library decides, the host performs the spool
//! and network work and hands the results back.

use vstd::prelude::*;
use vstd::string::StringExecFns;
use crate::text::{
    chars_of, find_chars, find_from, lemma_find_first, lemma_find_from, lemma_find_shift,
    occurs_at, parse_u16, parse_u16_text, string_from_chars, trim, trimmed, decimal_string,
    decimal_text,
};

verus! {

/// The env var that injects the self-hosted clearnet ingest endpoint.
pub const REPORT_ENDPOINT_ENV: &'static str = "F0RG3_REPORT_ENDPOINT";

/// The env var that injects the opt-in Tor v3 `.onion` ingest address.
pub const REPORT_ONION_ENV: &'static str = "F0RG3_REPORT_ONION";

/// The env var that overrides the onion virtual port.
pub const REPORT_ONION_PORT_ENV: &'static str = "F0RG3_REPORT_ONION_PORT";

/// The default onion virtual port.
pub const DEFAULT_ONION_PORT: u16 = 443;

/// The structured result of attempting a report.
#[derive(Debug, Clone, PartialEq, Eq)]
pub enum ReportOutcome {
    /// Captured and written to the local spool; nothing sent.
    Spooled,
    /// A consented report was transmitted and accepted.
    Sent,
    /// Consent was present but no endpoint is configured; the report stays spooled.
    RefusedNoEndpoint,
    /// The transport failed; the report is retained.
    Failed(String),
}

/// The stable log detail of each outcome; a failure's reason is not part of it.
pub open spec fn report_detail_of(o: ReportOutcome) -> Seq<char> {
    match o {
        ReportOutcome::Spooled => "spooled"@,
        ReportOutcome::Sent => "sent"@,
        ReportOutcome::RefusedNoEndpoint => "refused-no-endpoint"@,
        ReportOutcome::Failed(_) => "failed"@,
    }
}

impl ReportOutcome {
    /// The stable, non-identifying log-detail string for this outcome.
    pub fn log_detail(&self) -> (r: &'static str)
        ensures
            r@ == report_detail_of(*self),
    {
        match self {
            ReportOutcome::Spooled => "spooled",
            ReportOutcome::Sent => "sent",
            ReportOutcome::RefusedNoEndpoint => "refused-no-endpoint",
            ReportOutcome::Failed(_) => "failed",
        }
    }
}

/// The outcome log line: the stable detail only, never the failure reason.
pub fn report_log_line(outcome: &ReportOutcome) -> (r: String)
    ensures
        r@ == "f0rg3::report detail="@ + report_detail_of(*outcome),
{
    let mut r = "f0rg3::report detail=".to_owned();
    r.append(outcome.log_detail());
    r
}

/// The text of a crash report built from a panic's static message and site.
pub open spec fn crash_text(message: Seq<char>, location: Seq<char>) -> Seq<char> {
    "panic: "@ + message + " (at "@ + location + ")"@
}

/// The crash report text for a panic's static message and its `file:line` site.
pub fn crash_title(static_msg: &str, location: &str) -> (r: String)
    ensures
        r@ == crash_text(static_msg@, location@),
{
    let mut r = "panic: ".to_owned();
    r.append(static_msg);
    r.append(" (at ");
    r.append(location);
    r.append(")");
    r
}

/// The site of a panic as `file:line:column`, or `<unknown>` when the
/// panic carries no location.
pub open spec fn panic_site_text(site: Option<(Seq<char>, u32, u32)>) -> Seq<char> {
    match site {
        Some((file, line, column)) => file + ":"@ + decimal_text(line as nat) + ":"@ + decimal_text(
            column as nat,
        ),
        None => "<unknown>"@,
    }
}

/// The site a crash report names for a panic: its `file:line:column`, or
/// `<unknown>`.
pub fn panic_site(site: Option<(&str, u32, u32)>) -> (r: String)
    ensures
        r@ == panic_site_text(
            match site {
                Some((f, l, c)) => Some((f@, l, c)),
                None => None,
            },
        ),
{
    match site {
        Some((file, line, column)) => {
            let mut r = file.to_owned();
            r.append(":");
            let l = decimal_string(line as u64);
            r.append(l.as_str());
            r.append(":");
            let c = decimal_string(column as u64);
            r.append(c.as_str());
            r
        },
        None => "<unknown>".to_owned(),
    }
}

/// How far a panic capture got.
#[derive(Debug, Clone, PartialEq, Eq)]
pub enum CaptureStage {
    /// No per-user data dir resolved: nowhere to spool.
    NoDataDir,
    /// The spool under the data dir could not be opened.
    SpoolOpenFailed(String),
    /// The report could not be written to the spool.
    EnqueueFailed(String),
    /// The report was written to the spool.
    Enqueued,
}

/// The outcome of a panic capture: spooled, or a structured failure; never a
/// send.
pub fn capture_outcome(stage: CaptureStage) -> (o: ReportOutcome)
    ensures
        stage is NoDataDir ==> (o matches ReportOutcome::Failed(m) && m@ == "no-data-dir"@),
        stage matches CaptureStage::SpoolOpenFailed(e) ==> (o matches ReportOutcome::Failed(m)
            && m@ == "spool-open: "@ + e@),
        stage matches CaptureStage::EnqueueFailed(e) ==> (o matches ReportOutcome::Failed(m)
            && m@ == "spool: "@ + e@),
        stage is Enqueued ==> o == ReportOutcome::Spooled,
{
    match stage {
        CaptureStage::NoDataDir => ReportOutcome::Failed("no-data-dir".to_owned()),
        CaptureStage::SpoolOpenFailed(e) => {
            let mut m = "spool-open: ".to_owned();
            m.append(e.as_str());
            ReportOutcome::Failed(m)
        },
        CaptureStage::EnqueueFailed(e) => {
            let mut m = "spool: ".to_owned();
            m.append(e.as_str());
            ReportOutcome::Failed(m)
        },
        CaptureStage::Enqueued => ReportOutcome::Spooled,
    }
}

/// The view of an optional string.
pub open spec fn opt_view(o: Option<&str>) -> Option<Seq<char>> {
    match o {
        Some(s) => Some(s@),
        None => None,
    }
}

/// A configured setting: the trimmed value, with a blank value counted as
/// unset.
pub open spec fn setting(o: Option<Seq<char>>) -> Option<Seq<char>> {
    match o {
        Some(s) => if trim(s).len() > 0 {
            Some(trim(s))
        } else {
            None
        },
        None => None,
    }
}

/// Normalize a raw setting: trim it, and treat a blank value as unset.
pub fn normalize_setting(raw: Option<&str>) -> (r: Option<String>)
    ensures
        r matches Some(v) ==> setting(opt_view(raw)) == Some(v@),
        r is None ==> setting(opt_view(raw)) is None,
{
    match raw {
        Some(s) => {
            let t = trimmed(s);
            if t.as_str().is_empty() {
                None
            } else {
                Some(t)
            }
        },
        None => None,
    }
}

/// The onion port override: unset, blank or unparseable gives `None`, so the
/// default port applies.
pub fn parse_port_setting(raw: Option<&str>) -> (r: Option<u16>)
    ensures
        r == (match setting(opt_view(raw)) {
            Some(t) => parse_u16_text(t),
            None => None,
        }),
{
    match normalize_setting(raw) {
        Some(t) => parse_u16(t.as_str()),
        None => None,
    }
}

/// A base32 character as Tor v3 onion addresses spell them (lower case).
pub open spec fn is_base32_char(c: char) -> bool {
    ('a' <= c <= 'z') || ('2' <= c <= '7')
}

/// The length of a v3 onion address's base32 part.
pub const ONION_V3_LEN: usize = 56;

/// The structural shape of a Tor v3 onion address: 56 base32 characters
/// followed by `.onion`.
pub open spec fn is_onion_v3(s: Seq<char>) -> bool {
    &&& s.len() == ONION_V3_LEN + 6
    &&& forall|i: int| 0 <= i < ONION_V3_LEN ==> is_base32_char(#[trigger] s[i])
    &&& s.subrange(ONION_V3_LEN as int, s.len() as int) == seq!['.', 'o', 'n', 'i', 'o', 'n']
}

/// Whether `s` has the structural shape of a Tor v3 onion address.
pub fn is_valid_onion(s: &str) -> (b: bool)
    ensures
        b == is_onion_v3(s@),
{
    let v = chars_of(s);
    if v.len() != ONION_V3_LEN + 6 {
        return false;
    }
    let mut i: usize = 0;
    while i < ONION_V3_LEN
        invariant
            i <= ONION_V3_LEN,
            v.len() == ONION_V3_LEN + 6,
            v@ == s@,
            forall|j: int| 0 <= j < i ==> is_base32_char(#[trigger] v@[j]),
        decreases ONION_V3_LEN - i,
    {
        let c = v[i];
        if !(('a' <= c && c <= 'z') || ('2' <= c && c <= '7')) {
            assert(!is_base32_char(s@[i as int]));
            return false;
        }
        i += 1;
    }
    let suffix_ok = v[56] == '.' && v[57] == 'o' && v[58] == 'n' && v[59] == 'i' && v[60] == 'o'
        && v[61] == 'n';
    proof {
        let tail = v@.subrange(ONION_V3_LEN as int, v@.len() as int);
        if suffix_ok {
            assert(tail == seq!['.', 'o', 'n', 'i', 'o', 'n']);
        } else {
            assert(tail[0] != '.' || tail[1] != 'o' || tail[2] != 'n' || tail[3] != 'i' || tail[4]
                != 'o' || tail[5] != 'n');
        }
    }
    suffix_ok
}

/// The transport a consented send uses.
#[derive(Debug, Clone, PartialEq, Eq)]
pub enum TransportChoice {
    /// The opt-in Tor v3 onion transport, with the address and virtual port.
    TorOnion { onion: String, port: u16 },
    /// The clearnet ingest endpoint (the default).
    Clearnet { endpoint: String },
    /// Nothing is configured: a consented send refuses and stays spooled.
    NoTransport,
}

/// Whether `r` is the transport for these settings: a configured onion takes
/// priority; a malformed one refuses rather than falling back to clearnet;
/// otherwise a configured clearnet endpoint; otherwise none.
pub open spec fn is_transport_for(
    r: TransportChoice,
    onion: Option<Seq<char>>,
    onion_port: Option<u16>,
    clearnet: Option<Seq<char>>,
) -> bool {
    match setting(onion) {
        Some(o) => if is_onion_v3(o) {
            r matches TransportChoice::TorOnion { onion: a, port: p } && a@ == o && p == (match onion_port {
                Some(p) => p,
                None => DEFAULT_ONION_PORT,
            })
        } else {
            r is NoTransport
        },
        None => match setting(clearnet) {
            Some(e) => r matches TransportChoice::Clearnet { endpoint } && endpoint@ == e,
            None => r is NoTransport,
        },
    }
}

/// Resolve the transport from the configured onion address, onion port
/// override and clearnet endpoint.
pub fn select_transport(
    onion: Option<&str>,
    onion_port: Option<u16>,
    clearnet_endpoint: Option<&str>,
) -> (r: TransportChoice)
    ensures
        is_transport_for(r, opt_view(onion), onion_port, opt_view(clearnet_endpoint)),
{
    match normalize_setting(onion) {
        Some(o) => {
            let port = match onion_port {
                Some(p) => p,
                None => DEFAULT_ONION_PORT,
            };
            if is_valid_onion(o.as_str()) {
                TransportChoice::TorOnion { onion: o, port }
            } else {
                TransportChoice::NoTransport
            }
        },
        None => match normalize_setting(clearnet_endpoint) {
            Some(endpoint) => TransportChoice::Clearnet { endpoint },
            None => TransportChoice::NoTransport,
        },
    }
}

/// What a transport reported for one send.
#[derive(Debug, Clone, PartialEq, Eq)]
pub enum SendResult {
    /// The endpoint accepted the report.
    Sent,
    /// The endpoint or the transport refused it, with a reason.
    Failed(String),
}

/// The outcome decided before any transport is built: no transport refuses,
/// and the onion transport without a data dir to root its state in fails
/// instead of falling back to clearnet. `None` means the send goes ahead.
pub fn dispatch_precheck(choice: &TransportChoice, has_data_dir: bool) -> (r: Option<
    ReportOutcome,
>)
    ensures
        choice is NoTransport ==> r == Some(ReportOutcome::RefusedNoEndpoint),
        choice is TorOnion ==> (if has_data_dir {
            r is None
        } else {
            r matches Some(ReportOutcome::Failed(m)) && m@ == "no-data-dir"@
        }),
        choice is Clearnet ==> r is None,
{
    match choice {
        TransportChoice::NoTransport => Some(ReportOutcome::RefusedNoEndpoint),
        TransportChoice::TorOnion { .. } => if has_data_dir {
            None
        } else {
            Some(ReportOutcome::Failed("no-data-dir".to_owned()))
        },
        TransportChoice::Clearnet { .. } => None,
    }
}

/// The outcome of a send the transport attempted: accepted, or failed with
/// the transport's reason (also when the transport could not be built).
pub fn send_outcome(result: Result<SendResult, String>) -> (o: ReportOutcome)
    ensures
        result == Ok::<SendResult, String>(SendResult::Sent) ==> o == ReportOutcome::Sent,
        result matches Ok(SendResult::Failed(m)) ==> o == ReportOutcome::Failed(m),
        result matches Err(e) ==> o == ReportOutcome::Failed(e),
{
    match result {
        Ok(SendResult::Sent) => ReportOutcome::Sent,
        Ok(SendResult::Failed(m)) => ReportOutcome::Failed(m),
        Err(e) => ReportOutcome::Failed(e),
    }
}

/// A sent report leaves the spool; any other outcome keeps it for a retry.
pub fn discard_after_send(outcome: &ReportOutcome) -> (b: bool)
    ensures
        b == (*outcome is Sent),
{
    match outcome {
        ReportOutcome::Sent => true,
        _ => false,
    }
}

/// What separates the title of a preview from its body.
pub open spec fn preview_separator() -> Seq<char> {
    "\n\n"@
}

/// What starts the metadata footer of a preview.
pub open spec fn metadata_marker() -> Seq<char> {
    "\n\n--- metadata ---\n"@
}

/// The body span of a (possibly edited) preview text `title\n\nbody[\n\n---
/// metadata ---\n...]`: what follows the first blank-line separator (the
/// whole text when there is none), up to the metadata footer if present.
pub open spec fn edited_body_text(t: Seq<char>) -> Seq<char> {
    let rest = match find_from(t, preview_separator(), 0) {
        Some(i) => t.subrange(i + preview_separator().len(), t.len() as int),
        None => t,
    };
    match find_from(rest, metadata_marker(), 0) {
        Some(j) => rest.subrange(0, j),
        None => rest,
    }
}

/// Extract the body span of a user-edited preview text, so the user's edits
/// and redactions to the body are what gets sent.
pub fn edited_body_from_preview_text(edited_text: &str) -> (r: String)
    ensures
        r@ == edited_body_text(edited_text@),
{
    let v = chars_of(edited_text);
    let sep = chars_of("\n\n");
    let mark = chars_of("\n\n--- metadata ---\n");
    let n = v.len();
    proof {
        lemma_find_from(v@, sep@, 0);
    }
    let start = match find_chars(&v, &sep, 0) {
        Some(i) => i + sep.len(),
        None => 0,
    };
    proof {
        assert(v@.subrange(0, n as int) == v@);
        lemma_find_shift(v@, mark@, start as int);
        lemma_find_from(v@, mark@, start as int);
    }
    match find_chars(&v, &mark, start) {
        Some(k) => string_from_chars(&v, start, k),
        None => string_from_chars(&v, start, n),
    }
}

/// The body taken from an edited preview never carries the metadata footer's
/// marker: edits to the metadata can never leak into the sent body.
pub proof fn law_edited_body_has_no_metadata(t: Seq<char>)
    ensures
        forall|i: int| !occurs_at(edited_body_text(t), metadata_marker(), i),
{
    let rest = match find_from(t, preview_separator(), 0) {
        Some(i) => t.subrange(i + preview_separator().len(), t.len() as int),
        None => t,
    };
    let body = edited_body_text(t);
    reveal_strlit("\n\n--- metadata ---\n");
    let l = metadata_marker().len() as int;
    assert(l > 0);
    lemma_find_from(rest, metadata_marker(), 0);
    assert forall|i: int| !occurs_at(body, metadata_marker(), i) by {
        if occurs_at(body, metadata_marker(), i) {
            assert(body.subrange(i, i + l) == rest.subrange(i, i + l));
            assert(occurs_at(rest, metadata_marker(), i));
        }
    }
}

/// Occurrences starting early enough to end inside a prefix are occurrences
/// in the prefix.
proof fn lemma_occurs_prefix(a: Seq<char>, b: Seq<char>, pat: Seq<char>, i: int)
    requires
        0 <= i,
        i + pat.len() <= a.len(),
    ensures
        occurs_at(a + b, pat, i) == occurs_at(a, pat, i),
{
    assert((a + b).subrange(i, i + pat.len()) == a.subrange(i, i + pat.len()));
}

/// The preview's body round-trips: from the rendered text
/// `title\n\nbody\n\n--- metadata ---\n...`, the body comes back unchanged,
/// when the title is one line and the body does not itself spell the footer.
pub proof fn law_preview_body_round_trip(title: Seq<char>, body: Seq<char>, metadata: Seq<char>)
    requires
        forall|i: int| 0 <= i < title.len() ==> title[i] != '\n',
        forall|i: int| 0 <= i < body.len() ==> !occurs_at(body + metadata_marker(), metadata_marker(), i),
    ensures
        edited_body_text(title + preview_separator() + body + metadata_marker() + metadata) == body,
{
    reveal_strlit("\n\n");
    let sep = preview_separator();
    let mark = metadata_marker();
    let tail = body + mark + metadata;
    let text = title + sep + body + mark + metadata;
    assert(text == title + (sep + tail));
    assert(sep.len() == 2);
    assert(text.subrange(title.len() as int, title.len() + 2int) == sep);
    assert forall|j: int| 0 <= j < title.len() implies !occurs_at(text, sep, j) by {
        if occurs_at(text, sep, j) {
            assert(text.subrange(j, j + 2)[0] == sep[0]);
        }
    }
    lemma_find_first(text, sep, 0, title.len() as int);
    let rest = text.subrange(title.len() + 2int, text.len() as int);
    assert(rest == tail);
    assert(tail == (body + mark) + metadata);
    lemma_occurs_prefix(body + mark, metadata, mark, body.len() as int);
    assert((body + mark).subrange(body.len() as int, (body.len() + mark.len()) as int) == mark);
    assert forall|j: int| 0 <= j < body.len() implies !occurs_at(tail, mark, j) by {
        lemma_occurs_prefix(body + mark, metadata, mark, j);
    }
    lemma_find_first(tail, mark, 0, body.len() as int);
    assert(tail.subrange(0, body.len() as int) == body);
}

/// The paths of the listed spool entries that loaded as crash reports, in
/// listing order.
pub open spec fn crash_paths(listed: Seq<(String, bool)>) -> Seq<Seq<char>>
    decreases listed.len(),
{
    if listed.len() == 0 {
        Seq::empty()
    } else {
        let rest = crash_paths(listed.drop_last());
        if listed.last().1 {
            rest.push(listed.last().0@)
        } else {
            rest
        }
    }
}

/// The crash-consent dialog's state: the data dir whose spool it drains, the
/// spooled crash reports still to present (oldest first), the report being
/// presented with its path, and the editable preview text. `R` is the host's
/// report type.
pub struct CrashConsentState<R> {
    data_dir: Option<String>,
    queue: Vec<String>,
    current: Option<(String, R)>,
    edited_text: String,
}

impl<R> CrashConsentState<R> {
    /// The data dir the dialog's spool I/O is rooted at, if bound.
    pub closed spec fn bound_dir(&self) -> Option<Seq<char>> {
        match self.data_dir {
            Some(d) => Some(d@),
            None => None,
        }
    }

    /// The paths still queued, oldest first.
    pub closed spec fn queued(&self) -> Seq<Seq<char>> {
        self.queue@.map_values(|p: String| p@)
    }

    /// The presented report and its path, if any.
    pub closed spec fn presented(&self) -> Option<(Seq<char>, R)> {
        match self.current {
            Some((p, r)) => Some((p@, r)),
            None => None,
        }
    }

    /// The editable preview text.
    pub closed spec fn edited(&self) -> Seq<char> {
        self.edited_text@
    }

    /// An inert dialog: no data dir bound, nothing queued or presented.
    pub fn new() -> (st: Self)
        ensures
            st.bound_dir() is None,
            st.queued() == Seq::<Seq<char>>::empty(),
            st.presented() is None,
            st.edited() == Seq::<char>::empty(),
    {
        let st = CrashConsentState {
            data_dir: None,
            queue: Vec::new(),
            current: None,
            edited_text: String::new(),
        };
        assert(st.queued() =~= Seq::<Seq<char>>::empty());
        st
    }

    /// Bind (or unbind) the data dir whose spool this dialog drains.
    pub fn set_data_dir(&mut self, dir: Option<String>)
        ensures
            final(self).bound_dir() == (match dir {
                Some(d) => Some(d@),
                None => None::<Seq<char>>,
            }),
            final(self).queued() == old(self).queued(),
            final(self).presented() == old(self).presented(),
            final(self).edited() == old(self).edited(),
    {
        self.data_dir = dir;
    }

    /// The bound data dir, if any.
    pub fn data_dir(&self) -> (r: Option<&String>)
        ensures
            r matches Some(d) ==> self.bound_dir() == Some(d@),
            r is None ==> self.bound_dir() is None,
    {
        self.data_dir.as_ref()
    }

    /// Whether the dialog has a report to present.
    pub fn has_pending(&self) -> (b: bool)
        ensures
            b == (self.presented() is Some),
    {
        self.current.is_some()
    }

    /// The editable preview text.
    pub fn edited_text(&self) -> (r: &String)
        ensures
            r@ == self.edited(),
    {
        &self.edited_text
    }

    /// The editable preview text, for the dialog's text field to change.
    pub fn edited_text_mut(&mut self) -> (r: &mut String)
        ensures
            (*r)@ == old(self).edited(),
            final(self).edited() == (*final(r))@,
            final(self).bound_dir() == old(self).bound_dir(),
            final(self).queued() == old(self).queued(),
            final(self).presented() == old(self).presented(),
    {
        &mut self.edited_text
    }

    /// How many reports are pending: those queued plus the presented one.
    pub fn pending_count(&self) -> (n: usize)
        ensures
            n == (if self.queued().len() + (if self.presented() is Some {
                1int
            } else {
                0
            }) > usize::MAX {
                usize::MAX as int
            } else {
                self.queued().len() + (if self.presented() is Some {
                    1int
                } else {
                    0
                })
            }),
    {
        let q = self.queue.len();
        if self.current.is_some() {
            if q < usize::MAX {
                q + 1
            } else {
                usize::MAX
            }
        } else {
            q
        }
    }

    /// Start draining the spool: queue the listed entries that loaded as
    /// crash reports (a manual issue or an unreadable file is skipped), and
    /// present nothing yet.
    pub fn begin_load(&mut self, listed: Vec<(String, bool)>)
        ensures
            final(self).queued() == crash_paths(listed@),
            final(self).presented() is None,
            final(self).bound_dir() == old(self).bound_dir(),
            final(self).edited() == old(self).edited(),
    {
        let mut queue: Vec<String> = Vec::new();
        let mut i: usize = 0;
        while i < listed.len()
            invariant
                i <= listed.len(),
                queue@.map_values(|p: String| p@) == crash_paths(listed@.take(i as int)),
            decreases listed.len() - i,
        {
            assert(listed@.take(i + 1).drop_last() == listed@.take(i as int));
            if listed[i].1 {
                let p = listed[i].0.clone();
                queue.push(p);
                assert(queue@.map_values(|p: String| p@) == crash_paths(listed@.take(i as int)).push(
                    listed@[i as int].0@,
                ));
            }
            i += 1;
        }
        assert(listed@.take(listed.len() as int) == listed@);
        self.queue = queue;
        self.current = None;
    }

    /// Move on from the presented report: present nothing, clear the preview,
    /// and hand out the oldest queued path for the host to load.
    pub fn advance_begin(&mut self) -> (next: Option<String>)
        ensures
            final(self).presented() is None,
            final(self).edited() == Seq::<char>::empty(),
            final(self).bound_dir() == old(self).bound_dir(),
            old(self).queued().len() == 0 ==> next is None && final(self).queued() == old(
                self,
            ).queued(),
            old(self).queued().len() > 0 ==> (next matches Some(p) && p@ == old(self).queued()[0]
                && final(self).queued() == old(self).queued().drop_first()),
    {
        self.current = None;
        self.edited_text = String::new();
        if self.queue.len() == 0 {
            return None;
        }
        let ghost before = self.queue@;
        let p = self.queue.remove(0);
        assert(self.queue@.map_values(|p: String| p@) == before.map_values(|p: String| p@).drop_first());
        Some(p)
    }

    /// Present the report the host loaded from `path`, with its preview text;
    /// a report that failed to load is not presented.
    pub fn advance_finish(&mut self, path: String, loaded: Option<(R, String)>)
        ensures
            final(self).bound_dir() == old(self).bound_dir(),
            final(self).queued() == old(self).queued(),
            loaded is None ==> final(self).presented() == old(self).presented() && final(self).edited()
                == old(self).edited(),
            loaded matches Some((r, text)) ==> final(self).presented() == Some((path@, r))
                && final(self).edited() == text@,
    {
        match loaded {
            Some((r, text)) => {
                self.current = Some((path, r));
                self.edited_text = text;
            },
            None => {},
        }
    }

    /// Take the presented report out of the dialog (the user pressed Send or
    /// Don't-send); the preview text stays for the send to read.
    pub fn take_presented(&mut self) -> (taken: Option<(String, R)>)
        ensures
            final(self).presented() is None,
            old(self).presented() is None ==> taken is None,
            old(self).presented() matches Some((p, r)) ==> (taken matches Some((tp, tr)) && tp@ == p
                && tr == r),
            final(self).bound_dir() == old(self).bound_dir(),
            final(self).queued() == old(self).queued(),
            final(self).edited() == old(self).edited(),
    {
        self.current.take()
    }
}

impl<R> Default for CrashConsentState<R> {
    fn default() -> (st: Self)
        ensures
            st.bound_dir() is None,
            st.queued() == Seq::<Seq<char>>::empty(),
            st.presented() is None,
            st.edited() == Seq::<char>::empty(),
    {
        Self::new()
    }
}

/// A configured onion, valid or not, never sends over clearnet: the user
/// opted into anonymity, so it is honoured or the send refuses.
pub proof fn law_configured_onion_never_downgrades(
    r: TransportChoice,
    onion: Option<Seq<char>>,
    onion_port: Option<u16>,
    clearnet: Option<Seq<char>>,
)
    requires
        is_transport_for(r, onion, onion_port, clearnet),
        setting(onion) is Some,
    ensures
        !(r is Clearnet),
        r is TorOnion <==> is_onion_v3(setting(onion)->0),
{
}

/// With no onion configured, a configured clearnet endpoint is the
/// transport, and with neither configured nothing can transmit.
pub proof fn law_clearnet_is_the_default(
    r: TransportChoice,
    onion: Option<Seq<char>>,
    onion_port: Option<u16>,
    clearnet: Option<Seq<char>>,
)
    requires
        is_transport_for(r, onion, onion_port, clearnet),
        setting(onion) is None,
    ensures
        r is Clearnet <==> setting(clearnet) is Some,
        r is NoTransport <==> setting(clearnet) is None,
{
}

/// A blank (whitespace-only) setting counts as unset.
pub proof fn law_blank_setting_is_unset(s: Seq<char>)
    requires
        trim(s).len() == 0,
    ensures
        setting(Some(s)) == setting(None),
{
}

/// The outcome log never carries a failure's reason: every failure logs the
/// same detail.
pub proof fn law_report_failure_detail_hides_reason(a: String, b: String)
    ensures
        report_detail_of(ReportOutcome::Failed(a)) == report_detail_of(ReportOutcome::Failed(b)),
{
}

} // verus!
