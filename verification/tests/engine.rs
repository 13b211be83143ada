use itasha_installer::engine::{
    add_to_path_script, arp_commands, arp_delete_command, arp_key, cleanup_command,
    install_plan, installed_binary, launch_mode, ps_command, public_desktop,
    remove_from_path_script, shortcut_file, shortcut_script, silent_opts, size_kb,
    start_menu_dir, step_label, unquote, win_join, AppConfig, InstallStep, LaunchMode, Opts,
    SysCommand,
};

fn cfg() -> AppConfig {
    AppConfig {
        app_name: "C0PL4ND".to_string(),
        app_bin: "c0pl4nd.exe".to_string(),
        vendor: "Itasha.Corp".to_string(),
        install_subdir: "C0PL4ND".to_string(),
        version: "1.2.3".to_string(),
        publisher: "Itasha.Corp".to_string(),
        homepage: "https://example.test".to_string(),
        tagline: "the wired's own editor".to_string(),
    }
}

fn args(v: &[&str]) -> Vec<String> {
    v.iter().map(|s| s.to_string()).collect()
}

#[test]
fn windows_joins_insert_one_separator() {
    assert_eq!(win_join("C:\\Apps\\X", "x.exe"), "C:\\Apps\\X\\x.exe");
    assert_eq!(win_join("C:\\Apps\\X\\", "x.exe"), "C:\\Apps\\X\\x.exe");
    assert_eq!(win_join("C:\\Apps\\X/", "x.exe"), "C:\\Apps\\X/x.exe");
    assert_eq!(win_join("", "x.exe"), "x.exe");
    assert_eq!(win_join("C:", "x.exe"), "C:x.exe");
    assert_eq!(win_join("C:\\Apps", "D:\\x.exe"), "D:\\x.exe");
    assert_eq!(win_join("C:\\Apps", "\\x.exe"), "C:\\x.exe");
    assert_eq!(win_join("apps", "/x.exe"), "/x.exe");
}

#[test]
fn windows_joins_keep_unc_device_and_verbatim_prefixes() {
    assert_eq!(win_join("\\\\server\\share\\x", "\\y"), "\\\\server\\share\\y");
    assert_eq!(win_join("\\\\server\\share", "a"), "\\\\server\\share\\a");
    assert_eq!(win_join("C:\\x", "\\\\srv\\share"), "\\\\srv\\share");
    assert_eq!(win_join("C:\\x", "\\\\srv"), "C:\\\\srv");
    assert_eq!(win_join("\\\\?\\C:\\x", "\\y"), "\\\\?\\C:\\y");
    assert_eq!(
        win_join("\\\\?\\UNC\\server\\share\\x", "\\y"),
        "\\\\?\\UNC\\server\\share\\y"
    );
    assert_eq!(win_join("\\\\.\\pipe\\x", "\\y"), "\\\\.\\pipe\\y");
    assert_eq!(win_join("C:\\x", "\\\\?\\D:\\y"), "\\\\?\\D:\\y");
}

#[test]
fn installed_binary_is_inside_the_install_dir() {
    assert_eq!(
        installed_binary("C:\\Program Files\\Itasha.Corp\\C0PL4ND", "c0pl4nd.exe"),
        "C:\\Program Files\\Itasha.Corp\\C0PL4ND\\c0pl4nd.exe"
    );
}

#[test]
fn arp_key_names_the_uninstall_entry() {
    assert_eq!(
        arp_key("C0PL4ND"),
        "HKLM\\SOFTWARE\\Microsoft\\Windows\\CurrentVersion\\Uninstall\\C0PL4ND"
    );
}

#[test]
fn arp_commands_register_every_value_in_order() {
    let cmds = arp_commands(&cfg(), "C:\\d", "C:\\d\\c0pl4nd.exe", "C:\\d\\uninstall.exe", 2048);
    assert_eq!(cmds.len(), 11);
    let key = "HKLM\\SOFTWARE\\Microsoft\\Windows\\CurrentVersion\\Uninstall\\C0PL4ND";
    let expect = |c: &SysCommand, name: &str, kind: &str, val: &str| {
        assert_eq!(c.program, "reg");
        assert_eq!(c.args, args(&["add", key, "/v", name, "/t", kind, "/d", val, "/f"]));
    };
    expect(&cmds[0], "DisplayName", "REG_SZ", "C0PL4ND");
    expect(&cmds[1], "DisplayVersion", "REG_SZ", "1.2.3");
    expect(&cmds[2], "Publisher", "REG_SZ", "Itasha.Corp");
    expect(&cmds[3], "InstallLocation", "REG_SZ", "C:\\d");
    expect(&cmds[4], "DisplayIcon", "REG_SZ", "C:\\d\\c0pl4nd.exe");
    expect(&cmds[5], "UninstallString", "REG_SZ", "\"C:\\d\\uninstall.exe\" --uninstall");
    expect(&cmds[6], "QuietUninstallString", "REG_SZ", "\"C:\\d\\uninstall.exe\" --uninstall");
    expect(&cmds[7], "URLInfoAbout", "REG_SZ", "https://example.test");
    expect(&cmds[8], "NoModify", "REG_DWORD", "1");
    expect(&cmds[9], "NoRepair", "REG_DWORD", "1");
    expect(&cmds[10], "EstimatedSize", "REG_DWORD", "2048");
}

#[test]
fn arp_size_is_written_in_decimal() {
    let cmds = arp_commands(&cfg(), "d", "e", "u", 4294967295);
    assert_eq!(cmds[10].args[7], "4294967295");
    let cmds = arp_commands(&cfg(), "d", "e", "u", 0);
    assert_eq!(cmds[10].args[7], "0");
}

#[test]
fn size_is_kib_at_least_one() {
    assert_eq!(size_kb(0), 1);
    assert_eq!(size_kb(1023), 1);
    assert_eq!(size_kb(2048), 2);
    assert_eq!(size_kb(10 * 1024 + 1023), 10);
    // Truncates to u32 as the original `as u32` does.
    assert_eq!(size_kb((1u64 << 32) * 1024), 0);
}

#[test]
fn powershell_runs_non_interactively() {
    let c = ps_command("Get-Date");
    assert_eq!(c.program, "powershell");
    assert_eq!(
        c.args,
        args(&["-NoProfile", "-NonInteractive", "-ExecutionPolicy", "Bypass", "-Command", "Get-Date"])
    );
}

#[test]
fn shortcut_script_quotes_paths_and_strips_tagline_quotes() {
    assert_eq!(unquote("the wired's own"), "the wired s own");
    let s = shortcut_script("C:\\l.lnk", "C:\\a.exe", "C:\\", "it's");
    assert_eq!(
        s,
        "$ErrorActionPreference='Stop'; try { $w=New-Object -ComObject WScript.Shell; $s=$w.CreateShortcut('C:\\l.lnk'); $s.TargetPath='C:\\a.exe'; $s.WorkingDirectory='C:\\'; $s.IconLocation='C:\\a.exe,0'; $s.Description='it s'; $s.Save() } catch { Write-Error $_; exit 1 }"
    );
}

#[test]
fn path_scripts_add_and_remove_the_dir() {
    assert_eq!(
        add_to_path_script("C:\\d"),
        "$d='C:\\d'; $p=[Environment]::GetEnvironmentVariable('Path','Machine'); if($p -notlike ('*'+$d+'*')){ $n=if([string]::IsNullOrEmpty($p)){$d}else{$p.TrimEnd(';')+';'+$d}; [Environment]::SetEnvironmentVariable('Path',$n,'Machine') }"
    );
    assert_eq!(
        remove_from_path_script("C:\\d"),
        "$d='C:\\d'; $p=[Environment]::GetEnvironmentVariable('Path','Machine'); if($p){ $n=($p -split ';' | Where-Object {$_ -and ($_ -ne $d)}) -join ';'; [Environment]::SetEnvironmentVariable('Path',$n,'Machine') }"
    );
}

#[test]
fn uninstall_commands() {
    let d = arp_delete_command("C0PL4ND");
    assert_eq!(d.program, "reg");
    assert_eq!(
        d.args,
        args(&["delete", "HKLM\\SOFTWARE\\Microsoft\\Windows\\CurrentVersion\\Uninstall\\C0PL4ND", "/f"])
    );
    assert_eq!(cleanup_command(""), None);
    let c = cleanup_command("C:\\d").expect("a directory to remove");
    assert_eq!(c.program, "cmd");
    assert_eq!(c.args, args(&["/C", "ping 127.0.0.1 -n 2 >nul & rmdir /s /q \"C:\\d\""]));
}

#[test]
fn shortcut_locations() {
    assert_eq!(shortcut_file("C0PL4ND"), "C0PL4ND.lnk");
    assert_eq!(
        start_menu_dir(None, "Itasha.Corp"),
        "C:\\ProgramData\\Microsoft\\Windows\\Start Menu\\Programs\\Itasha.Corp"
    );
    assert_eq!(
        start_menu_dir(Some("D:\\PD"), "V"),
        "D:\\PD\\Microsoft\\Windows\\Start Menu\\Programs\\V"
    );
    assert_eq!(public_desktop(None), "C:\\Users\\Public\\Desktop");
    assert_eq!(public_desktop(Some("E:\\Pub\\")), "E:\\Pub\\Desktop");
}

#[test]
fn install_plan_follows_the_options() {
    let all = Opts { dir: "d".into(), start_menu: true, desktop: true, add_path: true };
    assert_eq!(
        install_plan(&all),
        vec![
            InstallStep::CreateDir,
            InstallStep::ExtractPayload,
            InstallStep::StageUninstaller,
            InstallStep::RegisterArp,
            InstallStep::LinkStartMenu,
            InstallStep::LinkDesktop,
            InstallStep::WirePath,
            InstallStep::Done,
        ]
    );
    let none = Opts { dir: "d".into(), start_menu: false, desktop: false, add_path: false };
    assert_eq!(
        install_plan(&none),
        vec![
            InstallStep::CreateDir,
            InstallStep::ExtractPayload,
            InstallStep::StageUninstaller,
            InstallStep::RegisterArp,
            InstallStep::Done,
        ]
    );
    assert_eq!(step_label(InstallStep::RegisterArp), "register node (ARP)");
    assert_eq!(step_label(InstallStep::Done), "node online");
    assert_eq!(step_label(InstallStep::CreateDir), "designate partition");
}

#[test]
fn silent_flags_and_dir() {
    let o = silent_opts(&args(&["setup.exe", "--silent"]), "C:\\Program Files\\V\\A");
    assert_eq!(o.dir, "C:\\Program Files\\V\\A");
    assert!(o.start_menu);
    assert!(!o.desktop);
    assert!(!o.add_path);
    let o = silent_opts(
        &args(&["--silent", "--dir", " \"D:\\Apps\\A\" ", "--desktop", "--add-path", "--no-start-menu"]),
        "unused",
    );
    assert_eq!(o.dir, "D:\\Apps\\A");
    assert!(!o.start_menu);
    assert!(o.desktop);
    assert!(o.add_path);
    // A trailing --dir with no value keeps the default.
    let o = silent_opts(&args(&["--silent", "--dir"]), "C:\\X");
    assert_eq!(o.dir, "C:\\X");
}

#[test]
fn launch_mode_prefers_uninstall() {
    assert_eq!(launch_mode(&args(&["a", "--silent", "--uninstall"])), LaunchMode::Uninstall);
    assert_eq!(launch_mode(&args(&["a", "--silent"])), LaunchMode::Silent);
    assert_eq!(launch_mode(&args(&["a"])), LaunchMode::Gui);
}
