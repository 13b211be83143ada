//! The install engine's plan and commands. System operations go through
//! `reg.exe`, PowerShell and `cmd`; this module builds exactly what each of
//! them is handed, the host runs them.

use vstd::prelude::*;
use vstd::string::StringExecFns;
use crate::text::{
    chars_of, decimal_string, decimal_text, push_char, str_eq, string_from_chars, trim,
};

verus! {

/// The app-specific values injected at build time.
#[derive(Debug, Clone)]
pub struct AppConfig {
    /// The app's display name.
    pub app_name: String,
    /// The installed main binary's file name.
    pub app_bin: String,
    /// The vendor, which also names the Start-Menu folder.
    pub vendor: String,
    /// The app's sub-directory under the vendor's Program Files folder.
    pub install_subdir: String,
    /// The app's version.
    pub version: String,
    /// The publisher shown in Add/Remove Programs.
    pub publisher: String,
    /// The app's homepage.
    pub homepage: String,
    /// The one-line tagline, also the shortcut's description.
    pub tagline: String,
}

/// What the user chose on the location and options step.
#[derive(Debug, Clone)]
pub struct Opts {
    /// The install directory.
    pub dir: String,
    /// Whether to add a Start-Menu shortcut.
    pub start_menu: bool,
    /// Whether to add a desktop shortcut.
    pub desktop: bool,
    /// Whether to add the install directory to the machine PATH.
    pub add_path: bool,
}

/// A program and its arguments, for the host to run.
#[derive(Debug, Clone, PartialEq, Eq)]
pub struct SysCommand {
    pub program: String,
    pub args: Vec<String>,
}

/// The view of a command: the program and the arguments.
pub open spec fn command_view(c: SysCommand) -> (Seq<char>, Seq<Seq<char>>) {
    (c.program@, c.args@.map_values(|a: String| a@))
}

/// Build a command from a program and its arguments.
fn command(program: &str, args: Vec<String>) -> (c: SysCommand)
    ensures
        command_view(c) == (program@, args@.map_values(|a: String| a@)),
{
    SysCommand { program: program.to_owned(), args }
}

/// Whether `c` is a Windows path separator.
pub open spec fn is_sep(c: char) -> bool {
    c == '\\' || c == '/'
}

/// Whether `p` starts with a drive prefix such as `C:`.
pub open spec fn has_drive(p: Seq<char>) -> bool {
    p.len() >= 2 && p[1] == ':' && (('a' <= p[0] <= 'z') || ('A' <= p[0] <= 'Z'))
}

/// The end of the path component of `p` that starts at `from`: the next
/// separator (only `\` in a verbatim path), or the end of `p`.
pub open spec fn comp_end(p: Seq<char>, from: int, verbatim: bool) -> int
    decreases p.len() - from,
{
    if from < 0 || from >= p.len() {
        p.len() as int
    } else if p[from] == '\\' || (!verbatim && p[from] == '/') {
        from
    } else {
        comp_end(p, from + 1, verbatim)
    }
}

/// The lengths of the two components `server` and `share` that start at
/// `from`; the share is empty when no separator follows the server.
pub open spec fn two_comps(p: Seq<char>, from: int, verbatim: bool) -> (int, int) {
    let e = comp_end(p, from, verbatim);
    (e - from, if e < p.len() {
        comp_end(p, e + 1, verbatim) - (e + 1)
    } else {
        0
    })
}

/// Whether `p` starts with the verbatim marker `\\?\`, with no `/` among its
/// first eight characters.
pub open spec fn is_verbatim(p: Seq<char>) -> bool {
    &&& p.len() >= 4
    &&& p[0] == '\\' && p[1] == '\\' && p[2] == '?' && p[3] == '\\'
    &&& (p.len() <= 4 || p[4] != '/') && (p.len() <= 5 || p[5] != '/')
    &&& (p.len() <= 6 || p[6] != '/') && (p.len() <= 7 || p[7] != '/')
}

/// The length of the Windows prefix `p` starts with: a verbatim UNC
/// `\\?\UNC\server\share`, a verbatim drive `\\?\C:`, a verbatim `\\?\name`,
/// a device `\\.\name`, a UNC `\\server\share` (both parts non-empty), a
/// drive `C:`; 0 when there is none. Outside verbatim paths `/` separates
/// as `\` does.
pub open spec fn prefix_len(p: Seq<char>) -> int {
    if p.len() >= 2 && is_sep(p[0]) && is_sep(p[1]) {
        if is_verbatim(p) {
            if p.len() >= 8 && p[4] == 'U' && p[5] == 'N' && p[6] == 'C' && p[7] == '\\' {
                let c = two_comps(p, 8, true);
                8 + c.0 + (if c.1 > 0 {
                    1 + c.1
                } else {
                    0
                })
            } else if has_drive(p.subrange(4, p.len() as int)) && (p.len() == 6 || p[6] == '\\') {
                6
            } else {
                comp_end(p, 4, true)
            }
        } else if p.len() >= 4 && p[2] == '.' && is_sep(p[3]) {
            comp_end(p, 4, false)
        } else {
            let c = two_comps(p, 2, false);
            if c.0 > 0 && c.1 > 0 {
                2 + c.0 + 1 + c.1
            } else {
                0
            }
        }
    } else if has_drive(p) {
        2
    } else {
        0
    }
}

proof fn lemma_comp_end(p: Seq<char>, from: int, verbatim: bool)
    requires
        0 <= from,
    ensures
        from <= p.len() ==> from <= comp_end(p, from, verbatim) <= p.len(),
        from > p.len() ==> comp_end(p, from, verbatim) == p.len(),
    decreases p.len() - from,
{
    if from < p.len() && !(p[from] == '\\' || (!verbatim && p[from] == '/')) {
        lemma_comp_end(p, from + 1, verbatim);
    }
}

proof fn lemma_prefix_len(p: Seq<char>)
    ensures
        0 <= prefix_len(p) <= p.len(),
{
    lemma_comp_end(p, 2, false);
    lemma_comp_end(p, 4, false);
    lemma_comp_end(p, 4, true);
    lemma_comp_end(p, 8, true);
    let e2 = comp_end(p, 2, false);
    let e8 = comp_end(p, 8, true);
    lemma_comp_end(p, e2 + 1, false);
    lemma_comp_end(p, e8 + 1, true);
}

/// `rel` joined onto `base` as Windows paths join: a `rel` with a prefix
/// (a drive, UNC, device or verbatim path) replaces `base`; a rooted `rel`
/// keeps `base`'s whole prefix; otherwise a separator goes between them
/// unless `base` is empty, ends in one, or is a bare drive.
pub open spec fn win_join_text(base: Seq<char>, rel: Seq<char>) -> Seq<char> {
    if prefix_len(rel) > 0 {
        rel
    } else if rel.len() > 0 && is_sep(rel[0]) {
        base.take(prefix_len(base)) + rel
    } else if base.len() == 0 || is_sep(base.last()) || (has_drive(base) && base.len() == 2) {
        base + rel
    } else {
        base + seq!['\\'] + rel
    }
}

fn has_drive_exec(p: &Vec<char>, from: usize) -> (b: bool)
    requires
        from <= p.len(),
    ensures
        b == has_drive(p@.subrange(from as int, p.len() as int)),
{
    let n = p.len();
    n - from >= 2 && p[from + 1] == ':' && (('a' <= p[from] && p[from] <= 'z') || ('A' <= p[from]
        && p[from] <= 'Z'))
}

fn comp_end_exec(p: &Vec<char>, from: usize, verbatim: bool) -> (r: usize)
    requires
        from <= p.len(),
    ensures
        r == comp_end(p@, from as int, verbatim),
{
    let mut k = from;
    while k < p.len() && !(p[k] == '\\' || (!verbatim && p[k] == '/'))
        invariant
            from <= k <= p.len(),
            comp_end(p@, from as int, verbatim) == comp_end(p@, k as int, verbatim),
        decreases p.len() - k,
    {
        k += 1;
    }
    k
}

fn is_sep_exec(c: char) -> (b: bool)
    ensures
        b == is_sep(c),
{
    c == '\\' || c == '/'
}

fn prefix_len_exec(p: &Vec<char>) -> (r: usize)
    ensures
        r == prefix_len(p@),
{
    proof {
        lemma_prefix_len(p@);
        assert(p@.subrange(0, p@.len() as int) == p@);
    }
    let n = p.len();
    if n >= 2 && is_sep_exec(p[0]) && is_sep_exec(p[1]) {
        let verbatim = n >= 4 && p[0] == '\\' && p[1] == '\\' && p[2] == '?' && p[3] == '\\' && (n
            <= 4 || p[4] != '/') && (n <= 5 || p[5] != '/') && (n <= 6 || p[6] != '/') && (n <= 7
            || p[7] != '/');
        if verbatim {
            if n >= 8 && p[4] == 'U' && p[5] == 'N' && p[6] == 'C' && p[7] == '\\' {
                let e = comp_end_exec(p, 8, true);
                if e < n {
                    let e2 = comp_end_exec(p, e + 1, true);
                    if e2 > e + 1 {
                        return e2;
                    }
                }
                e
            } else if has_drive_exec(p, 4) && (n == 6 || p[6] == '\\') {
                6
            } else {
                comp_end_exec(p, 4, true)
            }
        } else if n >= 4 && p[2] == '.' && is_sep_exec(p[3]) {
            comp_end_exec(p, 4, false)
        } else {
            let e = comp_end_exec(p, 2, false);
            if e > 2 && e < n {
                let e2 = comp_end_exec(p, e + 1, false);
                if e2 > e + 1 {
                    return e2;
                }
            }
            0
        }
    } else if has_drive_exec(p, 0) {
        2
    } else {
        0
    }
}

/// Join `rel` onto `base` as Windows paths join.
pub fn win_join(base: &str, rel: &str) -> (r: String)
    ensures
        r@ == win_join_text(base@, rel@),
{
    let b = chars_of(base);
    let r = chars_of(rel);
    if prefix_len_exec(&r) > 0 {
        return rel.to_owned();
    }
    if r.len() > 0 && is_sep_exec(r[0]) {
        let k = prefix_len_exec(&b);
        proof {
            lemma_prefix_len(b@);
        }
        let mut out = string_from_chars(&b, 0, k);
        out.append(rel);
        assert(b@.subrange(0, k as int) == b@.take(k as int));
        return out;
    }
    let mut out = base.to_owned();
    let n = b.len();
    assert(b@.subrange(0, n as int) == b@);
    if !(n == 0 || is_sep_exec(b[n - 1]) || (has_drive_exec(&b, 0) && n == 2)) {
        push_char(&mut out, '\\');
    }
    out.append(rel);
    out
}

/// The installed main binary inside `dir`.
pub fn installed_binary(dir: &str, app_bin: &str) -> (r: String)
    ensures
        r@ == win_join_text(dir@, app_bin@),
{
    win_join(dir, app_bin)
}

/// The registry key of the app's Add/Remove Programs entry.
pub open spec fn arp_key_text(app_name: Seq<char>) -> Seq<char> {
    "HKLM\\SOFTWARE\\Microsoft\\Windows\\CurrentVersion\\Uninstall\\"@ + app_name
}

/// The registry key of the app's Add/Remove Programs entry.
pub fn arp_key(app_name: &str) -> (r: String)
    ensures
        r@ == arp_key_text(app_name@),
{
    let mut r = "HKLM\\SOFTWARE\\Microsoft\\Windows\\CurrentVersion\\Uninstall\\".to_owned();
    r.append(app_name);
    r
}

/// `reg add <key> /v <name> /t <kind> /d <value> /f`.
pub open spec fn reg_add_view(key: Seq<char>, name: Seq<char>, kind: Seq<char>, value: Seq<char>) -> (
    Seq<char>,
    Seq<Seq<char>>,
) {
    ("reg"@, seq!["add"@, key, "/v"@, name, "/t"@, kind, "/d"@, value, "/f"@])
}

fn reg_add(key: &str, name: &str, kind: &str, value: &str) -> (c: SysCommand)
    ensures
        command_view(c) == reg_add_view(key@, name@, kind@, value@),
{
    let mut args: Vec<String> = Vec::new();
    args.push("add".to_owned());
    args.push(key.to_owned());
    args.push("/v".to_owned());
    args.push(name.to_owned());
    args.push("/t".to_owned());
    args.push(kind.to_owned());
    args.push("/d".to_owned());
    args.push(value.to_owned());
    args.push("/f".to_owned());
    let c = command("reg", args);
    assert(command_view(c).1 =~= reg_add_view(key@, name@, kind@, value@).1);
    c
}

/// The quoted uninstall command line stored in the ARP entry.
pub open spec fn uninstall_string_text(uninstaller: Seq<char>) -> Seq<char> {
    "\""@ + uninstaller + "\" --uninstall"@
}

/// The `reg add` commands that register the Add/Remove Programs entry, in
/// order: the string values, then the numeric ones.
pub open spec fn arp_plan(
    cfg: AppConfig,
    dir: Seq<char>,
    app_exe: Seq<char>,
    uninstaller: Seq<char>,
    size_kb: u32,
) -> Seq<(Seq<char>, Seq<Seq<char>>)> {
    let key = arp_key_text(cfg.app_name@);
    let sz = "REG_SZ"@;
    let dw = "REG_DWORD"@;
    seq![
        reg_add_view(key, "DisplayName"@, sz, cfg.app_name@),
        reg_add_view(key, "DisplayVersion"@, sz, cfg.version@),
        reg_add_view(key, "Publisher"@, sz, cfg.publisher@),
        reg_add_view(key, "InstallLocation"@, sz, dir),
        reg_add_view(key, "DisplayIcon"@, sz, app_exe),
        reg_add_view(key, "UninstallString"@, sz, uninstall_string_text(uninstaller)),
        reg_add_view(key, "QuietUninstallString"@, sz, uninstall_string_text(uninstaller)),
        reg_add_view(key, "URLInfoAbout"@, sz, cfg.homepage@),
        reg_add_view(key, "NoModify"@, dw, "1"@),
        reg_add_view(key, "NoRepair"@, dw, "1"@),
        reg_add_view(key, "EstimatedSize"@, dw, decimal_text(size_kb as nat)),
    ]
}

/// The commands that write the Add/Remove Programs entry; the host runs them
/// in order and stops at the first failure.
pub fn arp_commands(cfg: &AppConfig, dir: &str, app_exe: &str, uninstaller: &str, size_kb: u32) -> (r:
    Vec<SysCommand>)
    ensures
        r@.map_values(|c: SysCommand| command_view(c)) == arp_plan(
            *cfg,
            dir@,
            app_exe@,
            uninstaller@,
            size_kb,
        ),
{
    let key = arp_key(cfg.app_name.as_str());
    let mut uninst = "\"".to_owned();
    uninst.append(uninstaller);
    uninst.append("\" --uninstall");
    let size = decimal_string(size_kb as u64);
    let k = key.as_str();
    let mut r: Vec<SysCommand> = Vec::new();
    r.push(reg_add(k, "DisplayName", "REG_SZ", cfg.app_name.as_str()));
    r.push(reg_add(k, "DisplayVersion", "REG_SZ", cfg.version.as_str()));
    r.push(reg_add(k, "Publisher", "REG_SZ", cfg.publisher.as_str()));
    r.push(reg_add(k, "InstallLocation", "REG_SZ", dir));
    r.push(reg_add(k, "DisplayIcon", "REG_SZ", app_exe));
    r.push(reg_add(k, "UninstallString", "REG_SZ", uninst.as_str()));
    r.push(reg_add(k, "QuietUninstallString", "REG_SZ", uninst.as_str()));
    r.push(reg_add(k, "URLInfoAbout", "REG_SZ", cfg.homepage.as_str()));
    r.push(reg_add(k, "NoModify", "REG_DWORD", "1"));
    r.push(reg_add(k, "NoRepair", "REG_DWORD", "1"));
    r.push(reg_add(k, "EstimatedSize", "REG_DWORD", size.as_str()));
    assert(r@.map_values(|c: SysCommand| command_view(c)) =~= arp_plan(
        *cfg,
        dir@,
        app_exe@,
        uninstaller@,
        size_kb,
    ));
    r
}

/// `powershell -NoProfile -NonInteractive -ExecutionPolicy Bypass -Command <script>`.
pub open spec fn ps_view(script: Seq<char>) -> (Seq<char>, Seq<Seq<char>>) {
    (
        "powershell"@,
        seq![
            "-NoProfile"@,
            "-NonInteractive"@,
            "-ExecutionPolicy"@,
            "Bypass"@,
            "-Command"@,
            script,
        ],
    )
}

/// The PowerShell command that runs `script` non-interactively.
pub fn ps_command(script: &str) -> (c: SysCommand)
    ensures
        command_view(c) == ps_view(script@),
{
    let mut args: Vec<String> = Vec::new();
    args.push("-NoProfile".to_owned());
    args.push("-NonInteractive".to_owned());
    args.push("-ExecutionPolicy".to_owned());
    args.push("Bypass".to_owned());
    args.push("-Command".to_owned());
    args.push(script.to_owned());
    let c = command("powershell", args);
    assert(command_view(c).1 =~= ps_view(script@).1);
    c
}

/// `s` with each `'` replaced by a space, so it can sit inside a
/// single-quoted PowerShell string.
pub open spec fn unquote_text(s: Seq<char>) -> Seq<char> {
    s.map_values(|c: char| if c == '\'' { ' ' } else { c })
}

/// Unquoting keeps the text's length, leaves no `'` anywhere, writes a
/// space where each `'` was, and keeps every other character in place.
pub proof fn law_unquote_drops_every_apostrophe(s: Seq<char>)
    ensures
        unquote_text(s).len() == s.len(),
        forall|i: int| 0 <= i < s.len() ==> #[trigger] unquote_text(s)[i] != '\'',
        forall|i: int| 0 <= i < s.len() && s[i] != '\'' ==> #[trigger] unquote_text(s)[i] == s[i],
        forall|i: int| 0 <= i < s.len() && s[i] == '\'' ==> #[trigger] unquote_text(s)[i] == ' ',
{
}

/// Replace each `'` of `s` by a space.
pub fn unquote(s: &str) -> (r: String)
    ensures
        r@ == unquote_text(s@),
        r@.len() == s@.len(),
        forall|i: int| 0 <= i < r@.len() ==> #[trigger] r@[i] != '\'',
        forall|i: int| 0 <= i < s@.len() && #[trigger] s@[i] != '\'' ==> r@[i] == s@[i],
        forall|i: int| 0 <= i < s@.len() && #[trigger] s@[i] == '\'' ==> r@[i] == ' ',
{
    proof {
        law_unquote_drops_every_apostrophe(s@);
    }
    let v = chars_of(s);
    let mut r = String::new();
    let mut i: usize = 0;
    while i < v.len()
        invariant
            i <= v.len(),
            r@ == unquote_text(v@.take(i as int)),
        decreases v.len() - i,
    {
        let c = if v[i] == '\'' {
            ' '
        } else {
            v[i]
        };
        push_char(&mut r, c);
        assert(unquote_text(v@.take(i + 1)) == unquote_text(v@.take(i as int)).push(c));
        i += 1;
    }
    assert(v@.take(v.len() as int) == v@);
    r
}

/// The PowerShell script that creates the shortcut `lnk` to `target`, failing
/// with a non-zero exit when the shell cannot save it.
pub open spec fn shortcut_script_text(
    lnk: Seq<char>,
    target: Seq<char>,
    workdir: Seq<char>,
    tagline: Seq<char>,
) -> Seq<char> {
    "$ErrorActionPreference='Stop'; try { $w=New-Object -ComObject WScript.Shell; $s=$w.CreateShortcut('"@
        + lnk + "'); $s.TargetPath='"@ + target + "'; $s.WorkingDirectory='"@ + workdir
        + "'; $s.IconLocation='"@ + target + ",0'; $s.Description='"@ + unquote_text(tagline)
        + "'; $s.Save() } catch { Write-Error $_; exit 1 }"@
}

/// The PowerShell script that creates the shortcut `lnk` to `target`.
pub fn shortcut_script(lnk: &str, target: &str, workdir: &str, tagline: &str) -> (r: String)
    ensures
        r@ == shortcut_script_text(lnk@, target@, workdir@, tagline@),
{
    let desc = unquote(tagline);
    let mut r =
        "$ErrorActionPreference='Stop'; try { $w=New-Object -ComObject WScript.Shell; $s=$w.CreateShortcut('".to_owned();
    r.append(lnk);
    r.append("'); $s.TargetPath='");
    r.append(target);
    r.append("'; $s.WorkingDirectory='");
    r.append(workdir);
    r.append("'; $s.IconLocation='");
    r.append(target);
    r.append(",0'; $s.Description='");
    r.append(desc.as_str());
    r.append("'; $s.Save() } catch { Write-Error $_; exit 1 }");
    r
}

/// The PowerShell script that appends `dir` to the machine PATH unless it is
/// already there.
pub open spec fn add_to_path_text(dir: Seq<char>) -> Seq<char> {
    "$d='"@ + dir
        + "'; $p=[Environment]::GetEnvironmentVariable('Path','Machine'); if($p -notlike ('*'+$d+'*')){ $n=if([string]::IsNullOrEmpty($p)){$d}else{$p.TrimEnd(';')+';'+$d}; [Environment]::SetEnvironmentVariable('Path',$n,'Machine') }"@
}

/// The PowerShell script that adds `dir` to the machine PATH.
pub fn add_to_path_script(dir: &str) -> (r: String)
    ensures
        r@ == add_to_path_text(dir@),
{
    let mut r = "$d='".to_owned();
    r.append(dir);
    r.append(
        "'; $p=[Environment]::GetEnvironmentVariable('Path','Machine'); if($p -notlike ('*'+$d+'*')){ $n=if([string]::IsNullOrEmpty($p)){$d}else{$p.TrimEnd(';')+';'+$d}; [Environment]::SetEnvironmentVariable('Path',$n,'Machine') }",
    );
    r
}

/// The PowerShell script that removes `dir` from the machine PATH.
pub open spec fn remove_from_path_text(dir: Seq<char>) -> Seq<char> {
    "$d='"@ + dir
        + "'; $p=[Environment]::GetEnvironmentVariable('Path','Machine'); if($p){ $n=($p -split ';' | Where-Object {$_ -and ($_ -ne $d)}) -join ';'; [Environment]::SetEnvironmentVariable('Path',$n,'Machine') }"@
}

/// The PowerShell script that removes `dir` from the machine PATH.
pub fn remove_from_path_script(dir: &str) -> (r: String)
    ensures
        r@ == remove_from_path_text(dir@),
{
    let mut r = "$d='".to_owned();
    r.append(dir);
    r.append(
        "'; $p=[Environment]::GetEnvironmentVariable('Path','Machine'); if($p){ $n=($p -split ';' | Where-Object {$_ -and ($_ -ne $d)}) -join ';'; [Environment]::SetEnvironmentVariable('Path',$n,'Machine') }",
    );
    r
}

/// `reg delete <key> /f`: removes the Add/Remove Programs entry.
pub fn arp_delete_command(app_name: &str) -> (c: SysCommand)
    ensures
        command_view(c) == ("reg"@, seq!["delete"@, arp_key_text(app_name@), "/f"@]),
{
    let mut args: Vec<String> = Vec::new();
    args.push("delete".to_owned());
    args.push(arp_key(app_name));
    args.push("/f".to_owned());
    let c = command("reg", args);
    assert(command_view(c).1 =~= seq!["delete"@, arp_key_text(app_name@), "/f"@]);
    c
}

/// The detached `cmd` line that deletes the install directory once the
/// running uninstaller has exited; none for an empty directory.
pub fn cleanup_command(dir: &str) -> (c: Option<SysCommand>)
    ensures
        dir@.len() == 0 ==> c is None,
        dir@.len() > 0 ==> (c matches Some(cmd) && command_view(cmd) == (
            "cmd"@,
            seq!["/C"@, "ping 127.0.0.1 -n 2 >nul & rmdir /s /q \""@ + dir@ + "\""@],
        )),
{
    if dir.is_empty() {
        return None;
    }
    let mut line = "ping 127.0.0.1 -n 2 >nul & rmdir /s /q \"".to_owned();
    line.append(dir);
    line.append("\"");
    let mut args: Vec<String> = Vec::new();
    args.push("/C".to_owned());
    args.push(line);
    let c = command("cmd", args);
    assert(command_view(c).1 =~= seq!["/C"@, "ping 127.0.0.1 -n 2 >nul & rmdir /s /q \""@ + dir@ + "\""@]);
    Some(c)
}

/// The file name of the app's shortcuts.
pub fn shortcut_file(app_name: &str) -> (r: String)
    ensures
        r@ == app_name@ + ".lnk"@,
{
    let mut r = app_name.to_owned();
    r.append(".lnk");
    r
}

/// The base directory: the environment's value, else the Windows default.
pub open spec fn or_default(v: Option<Seq<char>>, default: Seq<char>) -> Seq<char> {
    match v {
        Some(d) => d,
        None => default,
    }
}

/// The all-users Start-Menu folder of the vendor, under `%ProgramData%`
/// (`C:\ProgramData` when unset).
pub open spec fn start_menu_dir_text(program_data: Option<Seq<char>>, vendor: Seq<char>) -> Seq<char> {
    win_join_text(
        win_join_text(
            or_default(program_data, "C:\\ProgramData"@),
            "Microsoft\\Windows\\Start Menu\\Programs"@,
        ),
        vendor,
    )
}

/// The all-users Start-Menu folder of the vendor.
pub fn start_menu_dir(program_data: Option<&str>, vendor: &str) -> (r: String)
    ensures
        r@ == start_menu_dir_text(
            match program_data {
                Some(p) => Some(p@),
                None => None,
            },
            vendor@,
        ),
{
    let base = match program_data {
        Some(p) => p,
        None => "C:\\ProgramData",
    };
    let programs = win_join(base, "Microsoft\\Windows\\Start Menu\\Programs");
    win_join(programs.as_str(), vendor)
}

/// The public desktop, under `%PUBLIC%` (`C:\Users\Public` when unset).
pub fn public_desktop(public: Option<&str>) -> (r: String)
    ensures
        r@ == win_join_text(
            or_default(
                match public {
                    Some(p) => Some(p@),
                    None => None,
                },
                "C:\\Users\\Public"@,
            ),
            "Desktop"@,
        ),
{
    let base = match public {
        Some(p) => p,
        None => "C:\\Users\\Public",
    };
    win_join(base, "Desktop")
}

/// The ARP size in KiB: the payload bytes written, at least 1, as a `u32`.
pub fn size_kb(bytes: u64) -> (r: u32)
    ensures
        r == (if bytes / 1024 >= 1 {
            bytes / 1024
        } else {
            1
        }) as u32,
{
    let kb = bytes / 1024;
    let kb = if kb >= 1 {
        kb
    } else {
        1
    };
    kb as u32
}

/// One step of an install, in the order the engine runs them.
#[derive(Debug, Clone, Copy, PartialEq, Eq, Structural)]
pub enum InstallStep {
    /// Create the install directory.
    CreateDir,
    /// Extract the payload into it.
    ExtractPayload,
    /// Copy the running installer in as `uninstall.exe`.
    StageUninstaller,
    /// Write the Add/Remove Programs entry.
    RegisterArp,
    /// Create the Start-Menu shortcut.
    LinkStartMenu,
    /// Create the desktop shortcut.
    LinkDesktop,
    /// Add the install directory to the machine PATH.
    WirePath,
    /// The install is complete.
    Done,
}

/// The steps of an install with `opts`: the fixed ones, then each chosen
/// integration, then completion.
pub open spec fn install_plan_of(opts: Opts) -> Seq<InstallStep> {
    seq![
        InstallStep::CreateDir,
        InstallStep::ExtractPayload,
        InstallStep::StageUninstaller,
        InstallStep::RegisterArp,
    ] + (if opts.start_menu {
        seq![InstallStep::LinkStartMenu]
    } else {
        Seq::empty()
    }) + (if opts.desktop {
        seq![InstallStep::LinkDesktop]
    } else {
        Seq::empty()
    }) + (if opts.add_path {
        seq![InstallStep::WirePath]
    } else {
        Seq::empty()
    }) + seq![InstallStep::Done]
}

/// Each integration step is in the plan exactly when its own option is
/// chosen; the plan always starts by creating the directory, extracting the
/// payload, staging the uninstaller and registering the entry, and always
/// ends with completion.
pub proof fn law_install_plan_follows_the_options(opts: Opts)
    ensures
        install_plan_of(opts).contains(InstallStep::LinkStartMenu) <==> opts.start_menu,
        install_plan_of(opts).contains(InstallStep::LinkDesktop) <==> opts.desktop,
        install_plan_of(opts).contains(InstallStep::WirePath) <==> opts.add_path,
        install_plan_of(opts).len() >= 5,
        install_plan_of(opts)[0] == InstallStep::CreateDir,
        install_plan_of(opts)[1] == InstallStep::ExtractPayload,
        install_plan_of(opts)[2] == InstallStep::StageUninstaller,
        install_plan_of(opts)[3] == InstallStep::RegisterArp,
        install_plan_of(opts).last() == InstallStep::Done,
{
    let p = install_plan_of(opts);
    let base = seq![
        InstallStep::CreateDir,
        InstallStep::ExtractPayload,
        InstallStep::StageUninstaller,
        InstallStep::RegisterArp,
    ];
    let sm: Seq<InstallStep> = if opts.start_menu {
        seq![InstallStep::LinkStartMenu]
    } else {
        Seq::empty()
    };
    let dk: Seq<InstallStep> = if opts.desktop {
        seq![InstallStep::LinkDesktop]
    } else {
        Seq::empty()
    };
    let wp: Seq<InstallStep> = if opts.add_path {
        seq![InstallStep::WirePath]
    } else {
        Seq::empty()
    };
    let q = base + sm + dk + wp + seq![InstallStep::Done];
    assert(p == q);
    let n1: int = 4 + sm.len() as int;
    let n2: int = n1 + dk.len();
    let n3: int = n2 + wp.len();
    assert(q.len() == n3 + 1);
    assert forall|i: int| 0 <= i < q.len() implies {
        &&& (#[trigger] q[i] == InstallStep::LinkStartMenu ==> i == 4 && opts.start_menu)
        &&& (q[i] == InstallStep::LinkDesktop ==> i == n1 && opts.desktop)
        &&& (q[i] == InstallStep::WirePath ==> i == n2 && opts.add_path)
    } by {
        if i < 4 {
            assert(q[i] == base[i]);
        } else if i < n1 {
            assert(q[i] == sm[i - 4]);
        } else if i < n2 {
            assert(q[i] == dk[i - n1]);
        } else if i < n3 {
            assert(q[i] == wp[i - n2]);
        } else {
            assert(q[i] == InstallStep::Done);
        }
    }
    if opts.start_menu {
        assert(q[4] == InstallStep::LinkStartMenu);
    }
    if opts.desktop {
        assert(q[n1] == InstallStep::LinkDesktop);
    }
    if opts.add_path {
        assert(q[n2] == InstallStep::WirePath);
    }
    assert(q[0] == InstallStep::CreateDir);
    assert(q[3] == InstallStep::RegisterArp);
    assert(q.last() == InstallStep::Done);
}

/// The steps of an install with `opts`, in order.
pub fn install_plan(opts: &Opts) -> (r: Vec<InstallStep>)
    ensures
        r@ == install_plan_of(*opts),
        r@.contains(InstallStep::LinkStartMenu) <==> opts.start_menu,
        r@.contains(InstallStep::LinkDesktop) <==> opts.desktop,
        r@.contains(InstallStep::WirePath) <==> opts.add_path,
        r@.len() >= 5 && r@[0] == InstallStep::CreateDir && r@[1] == InstallStep::ExtractPayload
            && r@[2] == InstallStep::StageUninstaller && r@[3] == InstallStep::RegisterArp,
        r@.last() == InstallStep::Done,
{
    proof {
        law_install_plan_follows_the_options(*opts);
    }
    let mut r: Vec<InstallStep> = Vec::new();
    r.push(InstallStep::CreateDir);
    r.push(InstallStep::ExtractPayload);
    r.push(InstallStep::StageUninstaller);
    r.push(InstallStep::RegisterArp);
    if opts.start_menu {
        r.push(InstallStep::LinkStartMenu);
    }
    if opts.desktop {
        r.push(InstallStep::LinkDesktop);
    }
    if opts.add_path {
        r.push(InstallStep::WirePath);
    }
    r.push(InstallStep::Done);
    assert(r@ =~= install_plan_of(*opts));
    r
}

/// The provisioning-log line of each step.
pub open spec fn step_label_of(step: InstallStep) -> Seq<char> {
    match step {
        InstallStep::CreateDir => "designate partition"@,
        InstallStep::ExtractPayload => "provision payload"@,
        InstallStep::StageUninstaller => "stage uninstaller"@,
        InstallStep::RegisterArp => "register node (ARP)"@,
        InstallStep::LinkStartMenu => "link start menu"@,
        InstallStep::LinkDesktop => "link desktop"@,
        InstallStep::WirePath => "wire PATH"@,
        InstallStep::Done => "node online"@,
    }
}

/// The provisioning-log line of a step.
pub fn step_label(step: InstallStep) -> (r: &'static str)
    ensures
        r@ == step_label_of(step),
{
    match step {
        InstallStep::CreateDir => "designate partition",
        InstallStep::ExtractPayload => "provision payload",
        InstallStep::StageUninstaller => "stage uninstaller",
        InstallStep::RegisterArp => "register node (ARP)",
        InstallStep::LinkStartMenu => "link start menu",
        InstallStep::LinkDesktop => "link desktop",
        InstallStep::WirePath => "wire PATH",
        InstallStep::Done => "node online",
    }
}

/// The view of a list of arguments.
pub open spec fn args_view(args: Seq<String>) -> Seq<Seq<char>> {
    args.map_values(|a: String| a@)
}

/// The first position of `name` in `args` at or after `i`.
pub open spec fn arg_position_from(args: Seq<Seq<char>>, name: Seq<char>, i: int) -> Option<int>
    decreases args.len() - i,
{
    if i < 0 || i >= args.len() {
        None
    } else if args[i] == name {
        Some(i)
    } else {
        arg_position_from(args, name, i + 1)
    }
}

/// The argument following the first `name`, if there is one.
pub open spec fn arg_value_of(args: Seq<Seq<char>>, name: Seq<char>) -> Option<Seq<char>> {
    match arg_position_from(args, name, 0) {
        Some(i) => if i < args.len() - 1 {
            Some(args[i + 1])
        } else {
            None
        },
        None => None,
    }
}

/// `s` without its leading and trailing `"` characters.
pub open spec fn strip_quotes(s: Seq<char>) -> Seq<char>
    decreases s.len(),
{
    if s.len() > 0 && s[0] == '"' {
        strip_quotes(s.drop_first())
    } else if s.len() > 0 && s.last() == '"' {
        strip_quotes(s.drop_last())
    } else {
        s
    }
}

proof fn lemma_arg_position_from(args: Seq<Seq<char>>, name: Seq<char>, i: int)
    requires
        0 <= i,
    ensures
        arg_position_from(args, name, i) is None ==> forall|j: int|
            i <= j < args.len() ==> args[j] != name,
        arg_position_from(args, name, i) matches Some(k) ==> i <= k < args.len() && args[k] == name,
    decreases args.len() - i,
{
    if i < args.len() && args[i] != name {
        lemma_arg_position_from(args, name, i + 1);
    }
}

fn arg_position(args: &Vec<String>, name: &str) -> (r: Option<usize>)
    ensures
        r matches Some(k) ==> arg_position_from(args_view(args@), name@, 0) == Some(k as int),
        r is None ==> arg_position_from(args_view(args@), name@, 0) is None,
{
    let ghost a = args_view(args@);
    let mut i: usize = 0;
    while i < args.len()
        invariant
            i <= args.len(),
            a == args_view(args@),
            arg_position_from(a, name@, 0) == arg_position_from(a, name@, i as int),
        decreases args.len() - i,
    {
        assert(a[i as int] == args@[i as int]@);
        if str_eq(args[i].as_str(), name) {
            return Some(i);
        }
        i += 1;
    }
    None
}

fn strip_quotes_bounds(v: &Vec<char>, from: usize, to: usize) -> (r: (usize, usize))
    requires
        from <= to <= v.len(),
    ensures
        from <= r.0 <= r.1 <= to,
        v@.subrange(r.0 as int, r.1 as int) == strip_quotes(v@.subrange(from as int, to as int)),
{
    let mut a = from;
    while a < to && v[a] == '"'
        invariant
            from <= a <= to <= v.len(),
            strip_quotes(v@.subrange(from as int, to as int)) == strip_quotes(
                v@.subrange(a as int, to as int),
            ),
        decreases to - a,
    {
        assert(v@.subrange(a as int, to as int).drop_first() == v@.subrange(a + 1, to as int));
        a += 1;
    }
    let mut b = to;
    while b > a && v[b - 1] == '"'
        invariant
            from <= a <= b <= to <= v.len(),
            a == to || v@[a as int] != '"',
            strip_quotes(v@.subrange(from as int, to as int)) == strip_quotes(
                v@.subrange(a as int, b as int),
            ),
        decreases b - a,
    {
        assert(v@.subrange(a as int, b as int).drop_last() == v@.subrange(a as int, b - 1));
        b -= 1;
    }
    (a, b)
}

/// The install options of an unattended `--silent` run: `--dir <path>`
/// (the default directory when absent; trimmed and unquoted), Start-Menu on
/// unless `--no-start-menu`, desktop only with `--desktop`, PATH only with
/// `--add-path`.
pub fn silent_opts(args: &Vec<String>, default_dir: &str) -> (o: Opts)
    ensures
        o.dir@ == strip_quotes(
            trim(
                match arg_value_of(args_view(args@), "--dir"@) {
                    Some(d) => d,
                    None => default_dir@,
                },
            ),
        ),
        o.start_menu == !args_view(args@).contains("--no-start-menu"@),
        o.desktop == args_view(args@).contains("--desktop"@),
        o.add_path == args_view(args@).contains("--add-path"@),
{
    let ghost a = args_view(args@);
    proof {
        lemma_arg_position_from(a, "--dir"@, 0);
        lemma_arg_position_from(a, "--no-start-menu"@, 0);
        lemma_arg_position_from(a, "--desktop"@, 0);
        lemma_arg_position_from(a, "--add-path"@, 0);
    }
    let raw: &str = match arg_position(args, "--dir") {
        Some(i) => if i < args.len() - 1 {
            args[i + 1].as_str()
        } else {
            default_dir
        },
        None => default_dir,
    };
    let v = chars_of(raw);
    let (ta, tb) = crate::text::trim_bounds(&v, 0, v.len());
    assert(v@.subrange(0, v@.len() as int) == v@);
    let (qa, qb) = strip_quotes_bounds(&v, ta, tb);
    let dir = string_from_chars(&v, qa, qb);
    let no_start = arg_position(args, "--no-start-menu").is_some();
    let desktop = arg_position(args, "--desktop").is_some();
    let add_path = arg_position(args, "--add-path").is_some();
    proof {
        if no_start {
            let k = arg_position_from(a, "--no-start-menu"@, 0)->0;
            assert(a[k] == "--no-start-menu"@);
        }
        if desktop {
            let k = arg_position_from(a, "--desktop"@, 0)->0;
            assert(a[k] == "--desktop"@);
        }
        if add_path {
            let k = arg_position_from(a, "--add-path"@, 0)->0;
            assert(a[k] == "--add-path"@);
        }
    }
    Opts { dir, start_menu: !no_start, desktop, add_path }
}

/// How the installer was started.
#[derive(Debug, Clone, Copy, PartialEq, Eq, Structural)]
pub enum LaunchMode {
    /// `--uninstall`: remove the installed app.
    Uninstall,
    /// `--silent`: install unattended.
    Silent,
    /// The provisioning console.
    Gui,
}

/// The launch mode: `--uninstall` wins over `--silent`; otherwise the GUI.
pub fn launch_mode(args: &Vec<String>) -> (m: LaunchMode)
    ensures
        m == (if args_view(args@).contains("--uninstall"@) {
            LaunchMode::Uninstall
        } else if args_view(args@).contains("--silent"@) {
            LaunchMode::Silent
        } else {
            LaunchMode::Gui
        }),
{
    let ghost a = args_view(args@);
    proof {
        lemma_arg_position_from(a, "--uninstall"@, 0);
        lemma_arg_position_from(a, "--silent"@, 0);
    }
    if arg_position(args, "--uninstall").is_some() {
        proof {
            let k = arg_position_from(a, "--uninstall"@, 0)->0;
            assert(a[k] == "--uninstall"@);
        }
        LaunchMode::Uninstall
    } else if arg_position(args, "--silent").is_some() {
        proof {
            let k = arg_position_from(a, "--silent"@, 0)->0;
            assert(a[k] == "--silent"@);
        }
        LaunchMode::Silent
    } else {
        LaunchMode::Gui
    }
}

} // verus!
