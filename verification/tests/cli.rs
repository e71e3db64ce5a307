use wakeup::cli::{
    assertion_requests, hold_mode, parse_args_from, user_active_default_release, ArgError,
    HoldMode, Invocation, Opts, USER_ACTIVE_DEFAULT_HOLD,
};
use wakeup::process::{command_exit_code, pid_alive_from_kill, EPERM};
use wakeup::AssertionKind;

fn parse(args: &[&str]) -> Result<Invocation, ArgError> {
    let v: Vec<String> = args.iter().map(|s| s.to_string()).collect();
    parse_args_from(&v)
}

fn opts(args: &[&str]) -> Opts {
    match parse(args) {
        Ok(Invocation::Run(o)) => o,
        Ok(Invocation::Help) => panic!("unexpected help"),
        Ok(Invocation::Version) => panic!("unexpected version"),
        Err(e) => panic!("unexpected error: {:?}", e),
    }
}

fn error(args: &[&str]) -> ArgError {
    match parse(args) {
        Err(e) => e,
        Ok(_) => panic!("expected an error"),
    }
}

#[test]
fn defaults_to_idle_system_assertion() {
    let reqs = assertion_requests(&opts(&[]));
    assert_eq!(reqs.len(), 1);
    assert_eq!(reqs[0].kind, AssertionKind::IdleSystem);
}

#[test]
fn parses_caffeinate_assertion_flags() {
    let o = opts(&["-dimsu"]);
    assert!(o.display);
    assert!(o.idle_system);
    assert!(o.disk);
    assert!(o.system);
    assert!(o.user_active);
}

#[test]
fn supports_disk_idle_assertion() {
    let reqs = assertion_requests(&opts(&["-m"]));
    assert_eq!(reqs.len(), 1);
    assert_eq!(reqs[0].kind, AssertionKind::Disk);
}

#[test]
fn user_active_gets_default_timeout_only_in_direct_mode() {
    let now = 1_000;
    let direct = opts(&["-u"]);
    assert!(user_active_default_release(&direct, now).is_some());

    let command = opts(&["-u", "make"]);
    assert!(user_active_default_release(&command, now).is_none());

    let timeout = opts(&["-u", "-t", "10"]);
    assert!(user_active_default_release(&timeout, now).is_none());
}

#[test]
fn first_non_flag_begins_command() {
    let o = opts(&["-di", "make", "build", "-x"]);
    assert_eq!(o.command, vec!["make", "build", "-x"]);
}

#[test]
fn user_active_default_is_five_seconds_after_now() {
    assert_eq!(user_active_default_release(&opts(&["-u"]), 7), Some(7 + 5_000_000_000));
    assert_eq!(USER_ACTIVE_DEFAULT_HOLD, 5_000_000_000);
    assert!(user_active_default_release(&opts(&["-u", "-w", "12"]), 7).is_none());
    assert!(user_active_default_release(&opts(&["-d"]), 7).is_none());
}

#[test]
fn requests_follow_a_fixed_order_with_reasons() {
    let reqs = assertion_requests(&opts(&["-usmdi"]));
    let got: Vec<(AssertionKind, String)> = reqs.into_iter().map(|r| (r.kind, r.reason)).collect();
    assert_eq!(
        got,
        vec![
            (AssertionKind::IdleSystem, "wakeup: preventing idle system sleep".to_string()),
            (AssertionKind::Display, "wakeup: preventing display sleep".to_string()),
            (AssertionKind::Disk, "wakeup: preventing disk idle sleep".to_string()),
            (AssertionKind::System, "wakeup: preventing system sleep (AC only)".to_string()),
            (AssertionKind::UserActive, "wakeup: user is active".to_string()),
        ]
    );
    // An explicit flag other than -i drops the -i default.
    let reqs = assertion_requests(&opts(&["-d"]));
    assert_eq!(reqs.len(), 1);
    assert_eq!(reqs[0].kind, AssertionKind::Display);
}

#[test]
fn bundled_flags_equal_separate_flags() {
    let a = opts(&["-ds", "x"]);
    let b = opts(&["-d", "-s", "x"]);
    assert_eq!(
        (a.display, a.idle_system, a.disk, a.system, a.user_active, a.command.clone()),
        (b.display, b.idle_system, b.disk, b.system, b.user_active, b.command.clone())
    );
    assert!(a.display && a.system && !a.idle_system);
}

#[test]
fn timeout_and_pid_values() {
    assert_eq!(opts(&["-t", "3600"]).timeout, Some(3600));
    assert_eq!(opts(&["-t3600"]).timeout, Some(3600));
    assert_eq!(opts(&["-dt", "5"]).timeout, Some(5));
    assert_eq!(opts(&["-dt+5"]).timeout, Some(5));
    assert_eq!(opts(&["-w", "12345"]).wait_pid, Some(12345));
    assert_eq!(opts(&["-w-7"]).wait_pid, Some(-7));
    assert_eq!(opts(&["-t", "18446744073709551615"]).timeout, Some(u64::MAX));
    // The last value given wins.
    assert_eq!(opts(&["-t", "1", "-t", "2"]).timeout, Some(2));
    // A value is taken even when it looks like a flag.
    assert_eq!(opts(&["-w", "-1"]).wait_pid, Some(-1));
}

#[test]
fn help_and_version() {
    assert!(matches!(parse(&["-h"]), Ok(Invocation::Help)));
    assert!(matches!(parse(&["--help"]), Ok(Invocation::Help)));
    assert!(matches!(parse(&["-V"]), Ok(Invocation::Version)));
    assert!(matches!(parse(&["--version"]), Ok(Invocation::Version)));
    assert!(matches!(parse(&["-d", "--version", "--bogus"]), Ok(Invocation::Version)));
    // After the command starts, nothing is an option.
    let o = opts(&["make", "-h"]);
    assert_eq!(o.command, vec!["make", "-h"]);
}

#[test]
fn double_dash_ends_options() {
    let o = opts(&["-d", "--", "-i", "x"]);
    assert!(o.display && !o.idle_system);
    assert_eq!(o.command, vec!["-i", "x"]);
    let o = opts(&["--"]);
    assert!(o.command.is_empty());
    let o = opts(&["-", "x"]);
    assert_eq!(o.command, vec!["-", "x"]);
}

#[test]
fn unknown_options_are_refused() {
    match error(&["--bogus"]) {
        ArgError::UnknownOption(s) => assert_eq!(s, "--bogus"),
        e => panic!("{:?}", e),
    }
    match error(&["-dx"]) {
        ArgError::UnknownOption(s) => assert_eq!(s, "-x"),
        e => panic!("{:?}", e),
    }
    match error(&["-hd"]) {
        ArgError::UnknownOption(s) => assert_eq!(s, "-h"),
        e => panic!("{:?}", e),
    }
    match error(&["-é"]) {
        ArgError::UnknownOption(s) => assert_eq!(s, "-é"),
        e => panic!("{:?}", e),
    }
}

#[test]
fn missing_values_are_refused() {
    match error(&["-t"]) {
        ArgError::MissingValue(s) => assert_eq!(s, "-t"),
        e => panic!("{:?}", e),
    }
    match error(&["-dw"]) {
        ArgError::MissingValue(s) => assert_eq!(s, "-w"),
        e => panic!("{:?}", e),
    }
}

#[test]
fn invalid_numbers_are_refused() {
    for (args, flag, value) in [
        (&["-t", "ten"][..], "-t", "ten"),
        (&["-t", "-5"][..], "-t", "-5"),
        (&["-t", " 5"][..], "-t", " 5"),
        (&["-t", ""][..], "-t", ""),
        (&["-t", "18446744073709551616"][..], "-t", "18446744073709551616"),
        (&["-tx"][..], "-t", "x"),
        (&["-w", "2147483648"][..], "-w", "2147483648"),
        (&["-w", "+"][..], "-w", "+"),
    ] {
        match error(args) {
            ArgError::InvalidNumber { flag: f, value: v } => {
                assert_eq!(f, flag);
                assert_eq!(v, value);
            }
            e => panic!("{:?}", e),
        }
    }
    assert_eq!(opts(&["-w", "-2147483648"]).wait_pid, Some(i32::MIN));
}

#[test]
fn hold_mode_precedence() {
    assert_eq!(hold_mode(&opts(&["-t", "5", "-w", "9", "make"])), HoldMode::RunCommand);
    assert_eq!(hold_mode(&opts(&["-t", "5", "-w", "9"])), HoldMode::WaitForPid(9));
    assert_eq!(hold_mode(&opts(&["-t", "5"])), HoldMode::HoldFor(5));
    assert_eq!(hold_mode(&opts(&[])), HoldMode::UntilReleased);
}

#[test]
fn default_opts() {
    let o = Opts::new();
    assert!(!o.display && !o.idle_system && !o.disk && !o.system && !o.user_active);
    assert!(o.timeout.is_none() && o.wait_pid.is_none() && o.command.is_empty());
}

#[test]
fn pid_liveness_from_kill() {
    assert!(pid_alive_from_kill(0, 0));
    assert!(pid_alive_from_kill(-1, EPERM));
    assert!(!pid_alive_from_kill(-1, 3));
}

#[test]
fn command_exit_codes() {
    assert_eq!(command_exit_code(true, Some(3)), 3);
    assert_eq!(command_exit_code(true, None), 1);
    assert_eq!(command_exit_code(false, None), 126);
}

#[test]
fn flag_clusters_set_exactly_their_letters_in_any_order() {
    let a = opts(&["-di"]);
    let b = opts(&["-i", "-d", "-d"]);
    for o in [&a, &b] {
        assert!(o.display && o.idle_system && !o.disk && !o.system && !o.user_active);
        assert!(o.timeout.is_none() && o.wait_pid.is_none() && o.command.is_empty());
    }
    let c = opts(&["-us", "-m"]);
    let d = opts(&["-m", "-us"]);
    assert_eq!(
        (c.display, c.idle_system, c.disk, c.system, c.user_active),
        (d.display, d.idle_system, d.disk, d.system, d.user_active)
    );
    assert_eq!((c.display, c.idle_system, c.disk, c.system, c.user_active), (false, false, true, true, true));
}
