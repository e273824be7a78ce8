use hyperwm::{
    bootout, bootstrap, civil_from_days, config_candidate_paths, default_config_path,
    domain_target, is_bootstrapped, is_running, job_state, kickstart, launchctl_failure,
    mark_candidates, parse_command, parse_daemon_command, parse_verify_args, plist_path,
    plist_xml, restart_inner, start_step, start_stopped_daemon, stop_step, timestamp,
    wants_help, xml_escape, AppIdentity, CandidateMark, Command, ConfigCandidate, DaemonCommand,
    JobState, LaunchStep, Painter, PermissionStatus, VerifyArgsError,
};

fn args(list: &[&str]) -> Vec<String> {
    list.iter().map(|s| s.to_string()).collect()
}

#[test]
fn help_flags_anywhere_are_recognized() {
    assert!(wants_help(&args(&["--config", "x", "-h"])));
    assert!(wants_help(&args(&["--help"])));
    assert!(!wants_help(&args(&["--config", "-help"])));
    assert!(!wants_help(&args(&[])));
}

#[test]
fn subcommands_are_selected_by_the_first_argument() {
    assert_eq!(parse_command(&args(&["hyperwm", "reload"])), Command::Reload);
    assert_eq!(parse_command(&args(&["hyperwm", "status", "x"])), Command::Status);
    assert_eq!(parse_command(&args(&["hyperwm", "verify"])), Command::Verify);
    assert_eq!(parse_command(&args(&["hyperwm", "daemon", "start"])), Command::Daemon);
    assert_eq!(parse_command(&args(&["hyperwm", "install-keymap"])), Command::InstallKeymap);
    assert_eq!(parse_command(&args(&["hyperwm", "-h"])), Command::Help);
    assert_eq!(parse_command(&args(&["hyperwm", "--version"])), Command::Version);
    assert_eq!(
        parse_command(&args(&["hyperwm", "frobnicate"])),
        Command::Unknown("frobnicate".to_string())
    );
    assert_eq!(parse_command(&args(&["hyperwm"])), Command::Missing);
}

#[test]
fn daemon_subcommands() {
    assert_eq!(parse_daemon_command(&args(&["start"])), DaemonCommand::Start);
    assert_eq!(parse_daemon_command(&args(&["stop", "-h"])), DaemonCommand::Stop);
    assert_eq!(parse_daemon_command(&args(&["restart"])), DaemonCommand::Restart);
    assert_eq!(parse_daemon_command(&args(&["--help"])), DaemonCommand::Help);
    assert_eq!(
        parse_daemon_command(&args(&["reload"])),
        DaemonCommand::Unknown("reload".to_string())
    );
    assert_eq!(parse_daemon_command(&args(&[])), DaemonCommand::Missing);
}

#[test]
fn verify_arguments() {
    assert_eq!(parse_verify_args(&args(&[])), Ok(None));
    assert_eq!(parse_verify_args(&args(&["--config", "/a.toml"])), Ok(Some("/a.toml".to_string())));
    assert_eq!(
        parse_verify_args(&args(&["--config", "/a.toml", "--config", "/b.toml"])),
        Ok(Some("/b.toml".to_string()))
    );
    assert_eq!(parse_verify_args(&args(&["--config"])), Err(VerifyArgsError::MissingConfigPath));
    assert_eq!(
        parse_verify_args(&args(&["--quiet"])),
        Err(VerifyArgsError::Unrecognized("--quiet".to_string()))
    );
}

#[test]
fn default_config_lookup_order() {
    let paths = config_candidate_paths("/Users/me");
    assert_eq!(
        paths,
        vec![
            "/Users/me/.config/hyperwm/config.toml".to_string(),
            "/Users/me/.hyperwm/config.toml".to_string(),
        ]
    );
    let cands = |a: bool, b: bool| {
        vec![
            ConfigCandidate { path: paths[0].clone(), exists: a },
            ConfigCandidate { path: paths[1].clone(), exists: b },
        ]
    };
    assert_eq!(default_config_path(&cands(true, true)), Some(paths[0].clone()));
    assert_eq!(default_config_path(&cands(false, true)), Some(paths[1].clone()));
    assert_eq!(default_config_path(&cands(false, false)), None);
}

#[test]
fn status_marks_the_config_in_play() {
    let c = vec![
        ConfigCandidate { path: "/a".to_string(), exists: false },
        ConfigCandidate { path: "/b".to_string(), exists: true },
    ];
    assert_eq!(mark_candidates(&c, None), vec![CandidateMark::Absent, CandidateMark::Active]);
    assert_eq!(mark_candidates(&c, Some("/a")), vec![CandidateMark::Active, CandidateMark::Present]);
    assert_eq!(mark_candidates(&c, Some("/z")), vec![CandidateMark::Absent, CandidateMark::Present]);
    let both = vec![
        ConfigCandidate { path: "/a".to_string(), exists: true },
        ConfigCandidate { path: "/b".to_string(), exists: true },
    ];
    assert_eq!(mark_candidates(&both, None), vec![CandidateMark::Active, CandidateMark::Present]);
}

#[test]
fn launchctl_command_lines() {
    assert_eq!(domain_target("501", "com.example.job"), "gui/501/com.example.job");
    assert_eq!(bootstrap("501", "/p.plist"), args(&["bootstrap", "gui/501", "/p.plist"]));
    assert_eq!(bootout("501", "l"), args(&["bootout", "gui/501/l"]));
    assert_eq!(kickstart("501", "l", true), args(&["kickstart", "-k", "gui/501/l"]));
    assert_eq!(kickstart("501", "l", false), args(&["kickstart", "gui/501/l"]));
    assert_eq!(
        launchctl_failure(&args(&["bootout", "gui/501/l"]), "l", "  Boot-out failed: 5\n"),
        "launchctl bootout gui/501/l failed for l: Boot-out failed: 5"
    );
    assert_eq!(plist_path("/Users/me", "com.x"), "/Users/me/Library/LaunchAgents/com.x.plist");
}

#[test]
fn job_state_comes_from_launchctl_print() {
    assert_eq!(job_state(false, "state = running"), None);
    assert_eq!(
        job_state(true, "com.x = {\n\tstate = running\r\n\tpid = 12\n}\n"),
        Some(JobState::Running)
    );
    assert_eq!(job_state(true, "com.x = {\n\tstate = not running\n}\n"), Some(JobState::Loaded));
    assert_eq!(job_state(true, "state = running; pid"), Some(JobState::Loaded));
    assert!(is_bootstrapped(Some(JobState::Loaded)));
    assert!(!is_bootstrapped(None));
    assert!(is_running(Some(JobState::Running)));
    assert!(!is_running(Some(JobState::Loaded)));
}

#[test]
fn daemon_start_stop_restart_decisions() {
    assert_eq!(start_step(Some(JobState::Running)), LaunchStep::Nothing);
    assert_eq!(start_step(Some(JobState::Loaded)), LaunchStep::Kickstart { kill_first: false });
    assert_eq!(start_step(None), LaunchStep::Bootstrap);
    assert_eq!(start_stopped_daemon(true), LaunchStep::Kickstart { kill_first: false });
    assert_eq!(stop_step(None), LaunchStep::Nothing);
    assert_eq!(stop_step(Some(JobState::Running)), LaunchStep::Bootout);
    assert_eq!(restart_inner(true), LaunchStep::Kickstart { kill_first: true });
    assert_eq!(restart_inner(false), LaunchStep::Bootstrap);
}

#[test]
fn plist_text_escapes_arguments_and_paths() {
    assert_eq!(xml_escape("a&b<c>\"d\""), "a&amp;b&lt;c&gt;&quot;d&quot;");
    let text = plist_xml("com.x", &args(&["/bin/x", "<y>"]), true, "/dev/null", "/tmp/e&r.log");
    let expected = "<?xml version=\"1.0\" encoding=\"UTF-8\"?>\n\
<!DOCTYPE plist PUBLIC \"-//Apple//DTD PLIST 1.0//EN\" \"http://www.apple.com/DTDs/PropertyList-1.0.dtd\">\n\
<plist version=\"1.0\">\n\
<dict>\n    <key>Label</key>\n    <string>com.x</string>\n    <key>ProgramArguments</key>\n    <array>\n        <string>/bin/x</string>\n        <string>&lt;y&gt;</string>\n    </array>\n    <key>RunAtLoad</key>\n    <true/>\n    <key>StandardOutPath</key>\n    <string>/dev/null</string>\n    <key>StandardErrorPath</key>\n    <string>/tmp/e&amp;r.log</string>\n</dict>\n</plist>\n";
    assert_eq!(text, expected);
}

#[test]
fn painter_colours_only_when_enabled() {
    let on = Painter::new(true);
    let off = Painter::new(false);
    assert_eq!(on.green("ok"), "\x1b[32mok\x1b[0m");
    assert_eq!(on.bold_red("x"), "\x1b[1;31mx\x1b[0m");
    assert_eq!(on.colorize("36", "t"), "\x1b[36mt\x1b[0m");
    assert_eq!(off.green("ok"), "ok");
    assert_eq!(off.dim("d"), "d");
}

#[test]
fn permission_instructions_list_what_is_missing() {
    let all = PermissionStatus { accessibility: true, input_monitoring: true };
    assert!(all.all_granted());
    assert_eq!(all.instructions(), "");
    let none = PermissionStatus { accessibility: false, input_monitoring: false };
    assert!(!none.all_granted());
    let text = none.instructions();
    let lines: Vec<&str> = text.lines().collect();
    assert_eq!(lines.len(), 2);
    assert!(lines[0].starts_with("  - Accessibility:"));
    assert!(lines[1].starts_with("  - Input Monitoring:"));
    let one = PermissionStatus { accessibility: true, input_monitoring: false };
    assert!(one.instructions().starts_with("  - Input Monitoring:"));
}

#[test]
fn app_identity_matches_bundle_or_name_ignoring_case() {
    let app = AppIdentity {
        bundle_id: Some("com.apple.Calculator".to_string()),
        name: Some("Calculator".to_string()),
    };
    assert!(app.matches("com.apple.calculator"));
    assert!(app.matches("CALCULATOR"));
    assert!(!app.matches("Calc"));
    assert!(!AppIdentity::default().matches(""));
}

#[test]
fn timestamps_are_utc_calendar_dates() {
    assert_eq!(timestamp(0), "1970-01-01 00:00:00 UTC");
    assert_eq!(timestamp(951_782_400), "2000-02-29 00:00:00 UTC");
    assert_eq!(timestamp(1_700_000_000), "2023-11-14 22:13:20 UTC");
    assert_eq!(timestamp(4_102_444_799), "2099-12-31 23:59:59 UTC");
    assert_eq!(civil_from_days(59), (1970, 3, 1));
    assert_eq!(civil_from_days(365), (1971, 1, 1));
    assert_eq!(civil_from_days(11_016), (2000, 2, 29));
    assert_eq!(civil_from_days(47_541), (2100, 3, 1));
}

#[test]
fn later_readings_sort_no_earlier() {
    let readings: [u64; 9] = [
        0,
        59,
        60,
        3_599,
        86_399,
        86_400,
        951_782_400,
        1_700_000_000,
        253_402_300_799, // 9999-12-31 23:59:59
    ];
    for pair in readings.windows(2) {
        assert!(timestamp(pair[0]) < timestamp(pair[1]), "{pair:?}");
    }
    assert_eq!(timestamp(253_402_300_799), "9999-12-31 23:59:59 UTC");
}
