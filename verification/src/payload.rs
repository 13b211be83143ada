//! Reading the embedded payload zip: each entry the archive holds becomes a
//! directory to create or a file's contents to write, in archive order. The
//! host writes them under the install directory.

use std::io::Cursor;
use std::io::Read;
use vstd::prelude::*;
use vstd::string::StringExecFns;
use crate::engine::{has_drive, is_sep};
use zip::read::ZipFile;
use zip::ZipArchive;

verus! {

#[verifier::external_type_specification]
#[verifier::external_body]
#[verifier::reject_recursive_types(R)]
pub struct ExZipArchive<R>(ZipArchive<R>);

#[verifier::external_type_specification]
#[verifier::external_body]
#[verifier::reject_recursive_types(T)]
pub struct ExCursor<T>(Cursor<T>);

/// An opened archive entry. `ZipFile` is bounded by `std::io::Read`, which
/// Verus does not know, so the entry is held opaquely here.
#[verifier::external_body]
pub struct ZipEntry<'a, 'p> {
    file: ZipFile<'a, Cursor<&'p [u8]>>,
}

/// The bytes an opened archive reads its entries from.
pub uninterp spec fn zip_archive_bytes(a: ZipArchive<Cursor<&[u8]>>) -> Seq<u8>;

/// The error text `ZipArchive::new` reports for `payload`; none when the
/// archive opens.
pub uninterp spec fn zip_open_error(payload: Seq<u8>) -> Option<Seq<char>>;

/// The number of entries `ZipArchive::len` reports for the archive `payload`.
pub uninterp spec fn zip_entry_count(payload: Seq<u8>) -> nat;

/// The error text `ZipArchive::by_index` reports for entry `index` of the
/// archive `payload`; none when the entry opens.
pub uninterp spec fn zip_entry_error(payload: Seq<u8>, index: int) -> Option<Seq<char>>;

/// The archive bytes and the entry index an opened entry reads.
pub uninterp spec fn zip_file_source(f: ZipEntry<'_, '_>) -> (Seq<u8>, int);

/// Whether `ZipFile::is_dir` holds of entry `index` of the archive `payload`.
pub uninterp spec fn zip_is_dir(payload: Seq<u8>, index: int) -> bool;

/// What reading entry `index` of the archive `payload` to its end gives: its
/// decompressed bytes, or the read error's text.
pub uninterp spec fn zip_contents(payload: Seq<u8>, index: int) -> Result<Seq<u8>, Seq<char>>;

/// The raw name bytes of entry `index` of the archive `payload`
/// (`ZipFile::name_raw`), which `ZipFile::enclosed_name` reads.
pub uninterp spec fn zip_raw_name(payload: Seq<u8>, index: int) -> Seq<u8>;

/// `ZipArchive::new` over the payload bytes; the error, if any, as its text.
#[verifier::external_body]
fn zip_open<'p>(payload: &'p [u8]) -> (r: Result<ZipArchive<Cursor<&'p [u8]>>, String>)
    ensures
        r is Ok <==> zip_open_error(payload@) is None,
        r matches Err(m) ==> zip_open_error(payload@) == Some(m@),
        r matches Ok(a) ==> zip_archive_bytes(a) == payload@,
{
    match ZipArchive::new(Cursor::new(payload)) {
        Ok(a) => Ok(a),
        Err(e) => Err(format!("{e}")),
    }
}

/// `ZipArchive::len`: the number of entries.
#[verifier::external_body]
fn zip_len(a: &ZipArchive<Cursor<&[u8]>>) -> (n: usize)
    ensures
        n == zip_entry_count(zip_archive_bytes(*a)),
{
    a.len()
}

/// `ZipArchive::by_index`: open entry `i` for reading; the error, if any, as
/// its text.
#[verifier::external_body]
fn zip_by_index<'a, 'p>(a: &'a mut ZipArchive<Cursor<&'p [u8]>>, i: usize) -> (r: Result<
    ZipEntry<'a, 'p>,
    String,
>)
    ensures
        zip_archive_bytes(*final(a)) == zip_archive_bytes(*old(a)),
        r is Err <==> zip_entry_error(zip_archive_bytes(*old(a)), i as int) is Some,
        r matches Err(m) ==> zip_entry_error(zip_archive_bytes(*old(a)), i as int) == Some(m@),
        r matches Ok(f) ==> zip_file_source(f) == (zip_archive_bytes(*old(a)), i as int),
{
    match a.by_index(i) {
        Ok(file) => Ok(ZipEntry { file }),
        Err(e) => Err(format!("{e}")),
    }
}

/// A byte of a plain entry name: an ASCII letter of either case, a digit,
/// a space, one of `_ - . + ( ) [ ] , @ ! # $ % & ' = ~`, or the separator
/// `/`.
pub open spec fn is_plain_byte(c: u8) -> bool {
    ||| 65 <= c <= 90
    ||| 97 <= c <= 122
    ||| 48 <= c <= 57
    ||| c == 32 || c == 95 || c == 45 || c == 46 || c == 43 || c == 40 || c == 41
    ||| c == 91 || c == 93 || c == 44 || c == 64 || c == 33 || c == 35 || c == 36
    ||| c == 37 || c == 38 || c == 39 || c == 61 || c == 126
    ||| c == 47
}

/// The ASCII lower case of byte `c`.
pub open spec fn lower(c: u8) -> u8 {
    if 65 <= c <= 90 {
        (c + 32) as u8
    } else {
        c
    }
}

/// Whether `b` spells the lower-case word `w` from `i`, ignoring case.
pub open spec fn word_at(b: Seq<u8>, i: int, w: Seq<u8>) -> bool {
    &&& 0 <= i && i + w.len() <= b.len()
    &&& forall|j: int| 0 <= j < w.len() ==> lower(b[i + j]) == #[trigger] w[j]
}

/// Whether a component's stem ends at `k` of `b`: only spaces follow, up to
/// a `.`, a `/`, or the end of `b`.
pub open spec fn stem_ends_at(b: Seq<u8>, k: int) -> bool
    decreases b.len() - k,
{
    if k < 0 || k >= b.len() {
        true
    } else if b[k] == 46 || b[k] == 47 {
        true
    } else if b[k] == 32 {
        stem_ends_at(b, k + 1)
    } else {
        false
    }
}

/// Whether the component of `b` starting at `i` has a Windows device name
/// as its stem, in any case: `CON`, `PRN`, `AUX`, `NUL`, `CONIN$`,
/// `CONOUT$`, `CLOCK$`, or `COM`/`LPT` and a digit 1-9.
pub open spec fn device_stem_at(b: Seq<u8>, i: int) -> bool {
    let con = seq![99u8, 111, 110];
    let prn = seq![112u8, 114, 110];
    let aux = seq![97u8, 117, 120];
    let nul = seq![110u8, 117, 108];
    let conin = seq![99u8, 111, 110, 105, 110, 36];
    let conout = seq![99u8, 111, 110, 111, 117, 116, 36];
    let clock = seq![99u8, 108, 111, 99, 107, 36];
    let com = seq![99u8, 111, 109];
    let lpt = seq![108u8, 112, 116];
    ||| word_at(b, i, con) && stem_ends_at(b, i + 3)
    ||| word_at(b, i, prn) && stem_ends_at(b, i + 3)
    ||| word_at(b, i, aux) && stem_ends_at(b, i + 3)
    ||| word_at(b, i, nul) && stem_ends_at(b, i + 3)
    ||| word_at(b, i, conin) && stem_ends_at(b, i + 6)
    ||| word_at(b, i, conout) && stem_ends_at(b, i + 7)
    ||| word_at(b, i, clock) && stem_ends_at(b, i + 6)
    ||| (word_at(b, i, com) || word_at(b, i, lpt)) && i + 4 <= b.len() && 49 <= b[i + 3] <= 57
        && stem_ends_at(b, i + 4)
}

/// Whether one of the 256 bytes of `b` from `i` is a `/`.
pub open spec fn sep_within(b: Seq<u8>, i: int) -> bool {
    exists|j: int| i <= j < i + 256 && #[trigger] b[j] == 47
}

/// A plain entry name, safe on every platform: `/`-separated components
/// of plain bytes, each 1 to 255 bytes long, none ending in `.` or a space
/// and none with a Windows device name as its stem; a directory's name may
/// end in `/`.
pub open spec fn is_plain_name(b: Seq<u8>) -> bool {
    &&& b.len() > 0 && b[0] != 47
    &&& forall|i: int| 0 <= i < b.len() ==> is_plain_byte(#[trigger] b[i])
    &&& forall|i: int|
        0 < i < b.len() && #[trigger] b[i] == 47 ==> b[i - 1] != 47 && b[i - 1] != 46 && b[i - 1]
            != 32
    &&& b.last() != 46 && b.last() != 32
    &&& forall|i: int| 0 <= i && i + 256 <= b.len() ==> #[trigger] sep_within(b, i)
    &&& forall|i: int|
        0 <= i < b.len() && (i == 0 || b[i - 1] == 47) ==> !#[trigger] device_stem_at(b, i)
}

/// `s` spells the plain name `b`: the same characters, each `/` written as a
/// separator (`/` or `\`), without a trailing `/`.
pub open spec fn spells_name(s: Seq<char>, b: Seq<u8>) -> bool {
    &&& s.len() == (if b.last() == 47 {
        b.len() - 1
    } else {
        b.len() as int
    })
    &&& forall|i: int|
        0 <= i < s.len() ==> if b[i] == 47 {
            is_sep(#[trigger] s[i])
        } else {
            s[i] == b[i] as char
        }
}

/// A character of a safe entry name: any character but a control
/// character and the ones Windows refuses in names (`< > : " \ | ? *`);
/// `/` separates components.
pub open spec fn is_name_char(ch: char) -> bool {
    &&& ch as u32 >= 32 && ch as u32 != 127
    &&& ch != '<' && ch != '>' && ch != ':' && ch != '"'
    &&& ch != '\\' && ch != '|' && ch != '?' && ch != '*'
}

/// The UTF-16 code units of `ch`.
pub open spec fn utf16_units(ch: char) -> nat {
    if ch as u32 > 0xFFFF {
        2
    } else {
        1
    }
}

/// The UTF-16 length of the component of `c` that starts at `i`.
pub open spec fn component_units(c: Seq<char>, i: int) -> nat
    decreases c.len() - i,
{
    if i < 0 || i >= c.len() || c[i] == '/' {
        0
    } else {
        utf16_units(c[i]) + component_units(c, i + 1)
    }
}

/// The ASCII lower case of `ch`.
pub open spec fn lower_char(ch: char) -> char {
    if 'A' <= ch <= 'Z' {
        ((ch as u32) + 32) as char
    } else {
        ch
    }
}

/// Whether `c` spells the lower-case word `w` from `i`, ignoring ASCII case.
pub open spec fn text_word_at(c: Seq<char>, i: int, w: Seq<char>) -> bool {
    &&& 0 <= i && i + w.len() <= c.len()
    &&& forall|j: int| 0 <= j < w.len() ==> lower_char(c[i + j]) == #[trigger] w[j]
}

/// Whether a component's stem ends at `k` of `c`: only spaces follow, up to
/// a `.`, a `/`, or the end of `c`.
pub open spec fn text_stem_ends_at(c: Seq<char>, k: int) -> bool
    decreases c.len() - k,
{
    if k < 0 || k >= c.len() {
        true
    } else if c[k] == '.' || c[k] == '/' {
        true
    } else if c[k] == ' ' {
        text_stem_ends_at(c, k + 1)
    } else {
        false
    }
}

/// Whether `x` counts as a port number after `COM` or `LPT`: Windows reads
/// the low byte of the character as a digit 1-9, or takes `¹ ² ³`.
pub open spec fn is_port_digit(x: char) -> bool {
    ||| 49 <= (x as u32) % 256 <= 57
    ||| x == '\u{b9}' || x == '\u{b2}' || x == '\u{b3}'
}

/// Whether the component of `c` starting at `i` has a Windows device name
/// as its stem, ignoring ASCII case: `CON`, `PRN`, `AUX`, `NUL`, `CONIN$`,
/// `CONOUT$`, `CLOCK$`, or `COM`/`LPT` and a port digit.
pub open spec fn text_device_at(c: Seq<char>, i: int) -> bool {
    ||| text_word_at(c, i, seq!['c', 'o', 'n']) && text_stem_ends_at(c, i + 3)
    ||| text_word_at(c, i, seq!['p', 'r', 'n']) && text_stem_ends_at(c, i + 3)
    ||| text_word_at(c, i, seq!['a', 'u', 'x']) && text_stem_ends_at(c, i + 3)
    ||| text_word_at(c, i, seq!['n', 'u', 'l']) && text_stem_ends_at(c, i + 3)
    ||| text_word_at(c, i, seq!['c', 'o', 'n', 'i', 'n', '$']) && text_stem_ends_at(c, i + 6)
    ||| text_word_at(c, i, seq!['c', 'o', 'n', 'o', 'u', 't', '$']) && text_stem_ends_at(c, i + 7)
    ||| text_word_at(c, i, seq!['c', 'l', 'o', 'c', 'k', '$']) && text_stem_ends_at(c, i + 6)
    ||| (text_word_at(c, i, seq!['c', 'o', 'm']) || text_word_at(c, i, seq!['l', 'p', 't'])) && i
        + 4 <= c.len() && is_port_digit(c[i + 3]) && text_stem_ends_at(c, i + 4)
}

/// A safe entry name, in any script: `/`-separated components of name
/// characters, each at most 255 UTF-16 units, none empty, none ending in `.`
/// or a space, and none with a Windows device name as its stem; a
/// directory's name may end in `/`. Such a name is enclosed on every
/// platform.
pub open spec fn is_safe_text(c: Seq<char>) -> bool {
    &&& c.len() > 0 && c[0] != '/'
    &&& forall|i: int| 0 <= i < c.len() ==> is_name_char(#[trigger] c[i])
    &&& forall|i: int|
        0 < i < c.len() && #[trigger] c[i] == '/' ==> c[i - 1] != '/' && c[i - 1] != '.' && c[i
            - 1] != ' '
    &&& c.last() != '.' && c.last() != ' '
    &&& forall|i: int|
        0 <= i < c.len() && (i == 0 || c[i - 1] == '/') ==> #[trigger] component_units(c, i) <= 255
            && !text_device_at(c, i)
}

/// Raw name bytes that decode as UTF-8 to a safe name.
pub open spec fn is_safe_raw_name(b: Seq<u8>) -> bool {
    vstd::utf8::valid_utf8(b) && is_safe_text(vstd::utf8::decode_utf8(b))
}

/// `s` spells the safe name `c`: the same characters, each `/` written as a
/// separator (`/` or `\`), without a trailing `/`.
pub open spec fn spells_text(s: Seq<char>, c: Seq<char>) -> bool {
    &&& s.len() == (if c.last() == '/' {
        c.len() - 1
    } else {
        c.len() as int
    })
    &&& forall|i: int|
        0 <= i < s.len() ==> if c[i] == '/' {
            is_sep(#[trigger] s[i])
        } else {
            s[i] == c[i]
        }
}

/// A relative path that stays inside the directory it is joined onto: it
/// starts with neither a separator nor a drive, and none of its components
/// (split at `\` or `/`) is `..`.
pub open spec fn is_enclosed_path(s: Seq<char>) -> bool {
    &&& !(s.len() > 0 && is_sep(s[0]))
    &&& !has_drive(s)
    &&& forall|i: int|
        0 <= i && i + 2 <= s.len() && #[trigger] s[i] == '.' && s[i + 1] == '.' && (i == 0
            || is_sep(s[i - 1])) ==> !(i + 2 == s.len() || is_sep(s[i + 2]))
}

/// `ZipFile::enclosed_name`: the entry's path when it is safe to extract,
/// as text. It is built from the name's normal components only, joined by
/// the platform's separator: a leading root or drive is dropped, and a `..`
/// that would climb out of the directory, or a component that holds a
/// separator, gives `None`. Which further names are refused depends on the
/// platform (Windows refuses device names, stream colons, trailing dots and
/// spaces, and components over 255 units), so it is stated that every name
/// that comes back stays enclosed, and that a plain or safe name always
/// comes back, spelled as it is.
#[verifier::external_body]
fn zip_file_enclosed_name(f: &ZipEntry<'_, '_>) -> (r: Option<String>)
    ensures
        r matches Some(p) ==> is_enclosed_path(p@),
        r is None ==> !is_plain_name(zip_raw_name(zip_file_source(*f).0, zip_file_source(*f).1)),
        r matches Some(p) ==> (is_plain_name(zip_raw_name(zip_file_source(*f).0, zip_file_source(*f).1))
            ==> spells_name(p@, zip_raw_name(zip_file_source(*f).0, zip_file_source(*f).1))),
        r is None ==> !is_safe_raw_name(zip_raw_name(zip_file_source(*f).0, zip_file_source(*f).1)),
        r matches Some(p) ==> (is_safe_raw_name(zip_raw_name(zip_file_source(*f).0, zip_file_source(*f).1))
            ==> spells_text(
            p@,
            vstd::utf8::decode_utf8(zip_raw_name(zip_file_source(*f).0, zip_file_source(*f).1)),
        )),
{
    match f.file.enclosed_name() {
        Some(p) => Some(p.to_string_lossy().into_owned()),
        None => None,
    }
}

/// `ZipFile::is_dir`.
#[verifier::external_body]
fn zip_file_is_dir(f: &ZipEntry<'_, '_>) -> (b: bool)
    ensures
        b == zip_is_dir(zip_file_source(*f).0, zip_file_source(*f).1),
{
    f.file.is_dir()
}

/// `Read::read_to_end` on an entry: its decompressed bytes, or the read
/// error's text.
#[verifier::external_body]
fn zip_file_read(f: ZipEntry<'_, '_>) -> (r: Result<Vec<u8>, String>)
    ensures
        r matches Ok(v) ==> (zip_contents(zip_file_source(f).0, zip_file_source(f).1) matches Ok(
            c,
        ) && c == v@),
        r matches Err(m) ==> (zip_contents(zip_file_source(f).0, zip_file_source(f).1) matches Err(
            c,
        ) && c == m@),
{
    let mut file = f.file;
    let mut buf = Vec::new();
    match file.read_to_end(&mut buf) {
        Ok(_) => Ok(buf),
        Err(e) => Err(format!("{e}")),
    }
}

/// What an extracted entry is.
#[derive(Debug, PartialEq, Eq)]
pub enum EntryKind {
    /// A directory to create.
    Dir,
    /// A file to write: its contents, or the text of the error reading them.
    File(Result<Vec<u8>, String>),
}

/// An entry to extract: its index in the archive, its safe relative path,
/// and what it is.
#[derive(Debug, PartialEq, Eq)]
pub struct PayloadEntry {
    pub index: usize,
    pub path: String,
    pub kind: EntryKind,
}

/// The entries read from an opened payload, in archive order; the indices of
/// the entries skipped for an unsafe name, in order; and the error that
/// stopped the reading, if one did.
#[derive(Debug, PartialEq, Eq)]
pub struct PayloadRead {
    pub entries: Vec<PayloadEntry>,
    pub skipped: Vec<usize>,
    pub failure: Option<String>,
}

/// What one opened archive entry becomes: skipped when it has no safe name;
/// otherwise at that path, a directory, or a file with `contents`, which a
/// file must be given.
pub fn payload_entry(
    index: usize,
    name: Option<String>,
    is_dir: bool,
    contents: Option<Result<Vec<u8>, String>>,
) -> (e: Option<PayloadEntry>)
    requires
        name is Some && !is_dir ==> contents is Some,
    ensures
        e is None <==> name is None,
        e matches Some(x) ==> {
            &&& x.index == index
            &&& x.path@ == name->0@
            &&& is_dir ==> x.kind is Dir
            &&& !is_dir ==> x.kind == EntryKind::File(contents->0)
        },
{
    match name {
        None => None,
        Some(path) => {
            let kind = if is_dir {
                EntryKind::Dir
            } else {
                // A file comes with its contents: `requires` rules out `None` here.
                match contents {
                    Some(c) => EntryKind::File(c),
                    None => EntryKind::Dir,
                }
            };
            Some(PayloadEntry { index, path, kind })
        },
    }
}

/// `e` is entry `e.index` of the archive `p` as the archive reads it, under
/// a path that stays enclosed.
pub open spec fn entry_matches(p: Seq<u8>, e: PayloadEntry) -> bool {
    &&& e.index < zip_entry_count(p)
    &&& zip_entry_error(p, e.index as int) is None
    &&& is_enclosed_path(e.path@)
    &&& (e.kind is Dir <==> zip_is_dir(p, e.index as int))
    &&& (e.kind matches EntryKind::File(c) ==> match c {
        Ok(v) => zip_contents(p, e.index as int) matches Ok(x) && x == v@,
        Err(m) => zip_contents(p, e.index as int) matches Err(x) && x == m@,
    })
}

/// Whether index `j` is among the kept entries or the skipped indices.
pub open spec fn index_covered(es: Seq<PayloadEntry>, sk: Seq<usize>, j: int) -> bool {
    ||| exists|k: int| 0 <= k < es.len() && (#[trigger] es[k]).index == j
    ||| exists|k: int| 0 <= k < sk.len() && #[trigger] sk[k] == j
}

/// The archive `p` was read through index `stop`: every entry below it
/// opened and is either kept, as it reads, or skipped; both lists are in
/// increasing index order and share no index.
pub open spec fn read_through(p: Seq<u8>, es: Seq<PayloadEntry>, sk: Seq<usize>, stop: int) -> bool {
    &&& forall|k: int| 0 <= k < es.len() ==> entry_matches(p, #[trigger] es[k])
    &&& forall|k: int| 0 <= k < es.len() ==> (#[trigger] es[k]).index < stop
    &&& forall|k1: int, k2: int|
        0 <= k1 < k2 < es.len() ==> (#[trigger] es[k1]).index < (#[trigger] es[k2]).index
    &&& forall|k: int| 0 <= k < sk.len() ==> #[trigger] sk[k] < stop
    &&& forall|k1: int, k2: int| 0 <= k1 < k2 < sk.len() ==> #[trigger] sk[k1] < #[trigger] sk[k2]
    &&& forall|k1: int, k2: int|
        0 <= k1 < es.len() && 0 <= k2 < sk.len() ==> (#[trigger] es[k1]).index != #[trigger] sk[k2]
    &&& forall|j: int| 0 <= j < stop ==> #[trigger] index_covered(es, sk, j)
    &&& forall|j: int| 0 <= j < stop ==> (#[trigger] zip_entry_error(p, j)) is None
    &&& forall|j: int|
        0 <= j < stop && is_plain_name(#[trigger] zip_raw_name(p, j)) ==> kept_as_named(p, es, j)
    &&& forall|j: int|
        0 <= j < stop && is_safe_raw_name(#[trigger] zip_raw_name(p, j)) ==> kept_as_spelled(
            p,
            es,
            j,
        )
}

/// Entry `j` of the archive `p` is among `es`, under its own safe name.
pub open spec fn kept_as_spelled(p: Seq<u8>, es: Seq<PayloadEntry>, j: int) -> bool {
    exists|k: int|
        0 <= k < es.len() && (#[trigger] es[k]).index == j && spells_text(
            es[k].path@,
            vstd::utf8::decode_utf8(zip_raw_name(p, j)),
        )
}

/// Entry `j` of the archive `p` is among `es`, under its own name.
pub open spec fn kept_as_named(p: Seq<u8>, es: Seq<PayloadEntry>, j: int) -> bool {
    exists|k: int| 0 <= k < es.len() && (#[trigger] es[k]).index == j && spells_name(es[k].path@, zip_raw_name(p, j))
}

/// The reading `pr` of the archive `p`: it went through every entry, or it
/// stopped at the first entry that failed to open, with that entry's error.
pub open spec fn payload_read_of(p: Seq<u8>, pr: PayloadRead) -> bool {
    match pr.failure {
        None => read_through(p, pr.entries@, pr.skipped@, zip_entry_count(p) as int),
        Some(m) => exists|j: int|
            {
                &&& 0 <= j < zip_entry_count(p)
                &&& read_through(p, pr.entries@, pr.skipped@, j)
                &&& #[trigger] zip_entry_error(p, j) matches Some(e) && m@ == "payload entry: "@ + e
            },
    }
}

/// Read the payload zip: every entry, in order, as a directory or a file's
/// contents under its safe path, or skipped when it has none. An archive
/// that does not open fails with `payload: <error>`; an entry that does not
/// open stops the reading with `payload entry: <error>`, after the entries
/// before it.
pub fn read_payload(payload: &[u8]) -> (r: Result<PayloadRead, String>)
    ensures
        r is Err <==> zip_open_error(payload@) is Some,
        r matches Err(m) ==> (zip_open_error(payload@) matches Some(e) && m@ == "payload: "@ + e),
        r matches Ok(pr) ==> payload_read_of(payload@, pr),
{
    let mut archive = match zip_open(payload) {
        Ok(a) => a,
        Err(e) => {
            let mut m = "payload: ".to_owned();
            m.append(e.as_str());
            return Err(m);
        },
    };
    let ghost p = payload@;
    let n = zip_len(&archive);
    let mut entries: Vec<PayloadEntry> = Vec::new();
    let mut skipped: Vec<usize> = Vec::new();
    let mut failure: Option<String> = None;
    let mut i: usize = 0;
    while i < n
        invariant_except_break
            failure is None,
            read_through(p, entries@, skipped@, i as int),
        invariant
            i <= n,
            n == zip_entry_count(p),
            zip_archive_bytes(archive) == p,
        ensures
            payload_read_of(p, PayloadRead { entries, skipped, failure }),
        decreases n - i,
    {
        match zip_by_index(&mut archive, i) {
            Err(e) => {
                let mut m = "payload entry: ".to_owned();
                m.append(e.as_str());
                failure = Some(m);
                assert(zip_entry_error(p, i as int) is Some);
                break;
            },
            Ok(f) => {
                let ghost src = zip_file_source(f);
                let name = zip_file_enclosed_name(&f);
                let dir = zip_file_is_dir(&f);
                let contents = if name.is_some() && !dir {
                    Some(zip_file_read(f))
                } else {
                    None
                };
                let ghost es0 = entries@;
                let ghost sk0 = skipped@;
                match payload_entry(i, name, dir, contents) {
                    Some(e) => {
                        entries.push(e);
                        proof {
                            assert(entries@[es0.len() as int].index == i);
                            assert(entry_matches(p, entries@[es0.len() as int]));
                            assert forall|j: int|
                                0 <= j < i + 1 && is_plain_name(
                                    #[trigger] zip_raw_name(p, j),
                                ) implies kept_as_named(p, entries@, j) by {
                                if j == i {
                                    assert(entries@[es0.len() as int].index == j);
                                } else {
                                    assert(kept_as_named(p, es0, j));
                                    let k = choose|k: int|
                                        0 <= k < es0.len() && (#[trigger] es0[k]).index == j
                                            && spells_name(es0[k].path@, zip_raw_name(p, j));
                                    assert(entries@[k] == es0[k]);
                                }
                            }
                            assert forall|j: int|
                                0 <= j < i + 1 && is_safe_raw_name(
                                    #[trigger] zip_raw_name(p, j),
                                ) implies kept_as_spelled(p, entries@, j) by {
                                if j == i {
                                    assert(entries@[es0.len() as int].index == j);
                                } else {
                                    assert(kept_as_spelled(p, es0, j));
                                    let k = choose|k: int|
                                        0 <= k < es0.len() && (#[trigger] es0[k]).index == j
                                            && spells_text(
                                            es0[k].path@,
                                            vstd::utf8::decode_utf8(zip_raw_name(p, j)),
                                        );
                                    assert(entries@[k] == es0[k]);
                                }
                            }
                            assert forall|j: int| 0 <= j < i + 1 implies #[trigger] index_covered(
                                entries@,
                                skipped@,
                                j,
                            ) by {
                                if j == i {
                                    assert(entries@[es0.len() as int].index == j);
                                } else {
                                    assert(index_covered(es0, sk0, j));
                                    if exists|k: int| 0 <= k < es0.len() && (#[trigger] es0[k]).index == j {
                                        let k = choose|k: int| 0 <= k < es0.len() && (#[trigger] es0[k]).index == j;
                                        assert(entries@[k] == es0[k]);
                                    } else {
                                        let k = choose|k: int| 0 <= k < sk0.len() && #[trigger] sk0[k] == j;
                                        assert(skipped@[k] == j);
                                    }
                                }
                            }
                        }
                    },
                    None => {
                        skipped.push(i);
                        proof {
                            assert(skipped@[sk0.len() as int] == i);
                            assert forall|j: int|
                                0 <= j < i + 1 && is_plain_name(
                                    #[trigger] zip_raw_name(p, j),
                                ) implies kept_as_named(p, entries@, j) by {
                                assert(j != i);
                                assert(kept_as_named(p, es0, j));
                            }
                            assert forall|j: int|
                                0 <= j < i + 1 && is_safe_raw_name(
                                    #[trigger] zip_raw_name(p, j),
                                ) implies kept_as_spelled(p, entries@, j) by {
                                assert(j != i);
                                assert(kept_as_spelled(p, es0, j));
                            }
                            assert forall|j: int| 0 <= j < i + 1 implies #[trigger] index_covered(
                                entries@,
                                skipped@,
                                j,
                            ) by {
                                if j == i {
                                    assert(skipped@[sk0.len() as int] == j);
                                } else {
                                    assert(index_covered(es0, sk0, j));
                                    if exists|k: int| 0 <= k < es0.len() && (#[trigger] es0[k]).index == j {
                                        let k = choose|k: int| 0 <= k < es0.len() && (#[trigger] es0[k]).index == j;
                                        assert(entries@[k].index == j);
                                    } else {
                                        let k = choose|k: int| 0 <= k < sk0.len() && #[trigger] sk0[k] == j;
                                        assert(skipped@[k] == sk0[k]);
                                    }
                                }
                            }
                        }
                    },
                }
            },
        }
        i += 1;
    }
    Ok(PayloadRead { entries, skipped, failure })
}

/// A reading that went through the archive keeps every entry whose name is
/// safe, under that very name, and skips only entries whose names are not:
/// an entry is never dropped for a name that stays inside the install
/// directory on every platform.
pub proof fn law_safe_names_are_never_skipped(p: Seq<u8>, pr: PayloadRead)
    requires
        payload_read_of(p, pr),
        pr.failure is None,
    ensures
        forall|j: int|
            0 <= j < zip_entry_count(p) && is_safe_raw_name(#[trigger] zip_raw_name(p, j))
                ==> exists|k: int|
                0 <= k < pr.entries@.len() && (#[trigger] pr.entries@[k]).index == j && spells_text(
                    pr.entries@[k].path@,
                    vstd::utf8::decode_utf8(zip_raw_name(p, j)),
                ),
        forall|m: int|
            0 <= m < pr.skipped@.len() ==> !is_safe_raw_name(zip_raw_name(p, #[trigger] pr.skipped@[m] as int))
                && !is_plain_name(zip_raw_name(p, pr.skipped@[m] as int)),
{
    let es = pr.entries@;
    let sk = pr.skipped@;
    assert forall|j: int|
        0 <= j < zip_entry_count(p) && is_safe_raw_name(#[trigger] zip_raw_name(p, j)) implies exists|k: int|
        0 <= k < es.len() && (#[trigger] es[k]).index == j && spells_text(
            es[k].path@,
            vstd::utf8::decode_utf8(zip_raw_name(p, j)),
        ) by {
        assert(kept_as_spelled(p, es, j));
    }
    assert forall|m: int| 0 <= m < sk.len() implies !is_safe_raw_name(
        zip_raw_name(p, #[trigger] sk[m] as int),
    ) && !is_plain_name(zip_raw_name(p, sk[m] as int)) by {
        let j = sk[m] as int;
        assert(j < zip_entry_count(p));
        if is_safe_raw_name(zip_raw_name(p, j)) {
            assert(kept_as_spelled(p, es, j));
            let k = choose|k: int|
                0 <= k < es.len() && (#[trigger] es[k]).index == j && spells_text(
                    es[k].path@,
                    vstd::utf8::decode_utf8(zip_raw_name(p, j)),
                );
            assert(es[k].index != sk[m]);
        }
        if is_plain_name(zip_raw_name(p, j)) {
            assert(kept_as_named(p, es, j));
            let k = choose|k: int|
                0 <= k < es.len() && (#[trigger] es[k]).index == j && spells_name(
                    es[k].path@,
                    zip_raw_name(p, j),
                );
            assert(es[k].index != sk[m]);
        }
    }
}

/// The total bytes of file contents among `entries`.
pub open spec fn file_bytes(entries: Seq<PayloadEntry>) -> nat
    decreases entries.len(),
{
    if entries.len() == 0 {
        0
    } else {
        file_bytes(entries.drop_last()) + match entries.last().kind {
            EntryKind::File(Ok(v)) => v@.len(),
            _ => 0,
        }
    }
}

/// The number of bytes the file entries write, saturating at `u64::MAX`.
pub fn written_bytes(entries: &Vec<PayloadEntry>) -> (n: u64)
    ensures
        n == (if file_bytes(entries@) > u64::MAX {
            u64::MAX as nat
        } else {
            file_bytes(entries@)
        }),
{
    let mut n: u64 = 0;
    let mut i: usize = 0;
    while i < entries.len()
        invariant
            i <= entries.len(),
            n == (if file_bytes(entries@.take(i as int)) > u64::MAX {
                u64::MAX as nat
            } else {
                file_bytes(entries@.take(i as int))
            }),
        decreases entries.len() - i,
    {
        assert(entries@.take(i + 1).drop_last() == entries@.take(i as int));
        let add: usize = match &entries[i].kind {
            EntryKind::File(Ok(v)) => v.len(),
            _ => 0,
        };
        if n as u128 + add as u128 > u64::MAX as u128 {
            n = u64::MAX;
        } else {
            n = n + add as u64;
        }
        i += 1;
    }
    assert(entries@.take(entries.len() as int) == entries@);
    n
}

} // verus!
