use wakeup::backend::linux::{inhibit_args, what_for};
use wakeup::backend::macos::assertion_type_name;
use wakeup::backend::unsupported;
use wakeup::backend::windows::{
    process_alive, process_id_for_query, request_type_for, PowerRequestType, ProcessProbe,
    ERROR_ACCESS_DENIED, STILL_ACTIVE,
};
use wakeup::AssertionKind;

#[test]
fn linux_supports_idle_and_sleep_only() {
    assert_eq!(what_for(AssertionKind::IdleSystem).unwrap(), "idle");
    assert_eq!(what_for(AssertionKind::System).unwrap(), "sleep");
    for k in [AssertionKind::Display, AssertionKind::Disk, AssertionKind::UserActive] {
        let e = what_for(k).unwrap_err();
        assert!(e.message().starts_with(k.label()));
    }
    let e = what_for(AssertionKind::Display).unwrap_err();
    assert_eq!(
        e.message(),
        "display assertions are not supported on Linux yet (systemd-logind has no matching \
         inhibitor category; this is desktop-environment-specific)"
    );
}

#[test]
fn linux_inhibit_arguments() {
    let args = inhibit_args(AssertionKind::System, "wakeup: preventing system sleep (AC only)").unwrap();
    assert_eq!(
        args,
        vec![
            "--what=sleep",
            "--mode=block",
            "--who=wakeup",
            "--why=wakeup: preventing system sleep (AC only)",
            "sleep",
            "infinity",
        ]
    );
    let e = inhibit_args(AssertionKind::UserActive, "x").unwrap_err();
    assert!(e.message().starts_with("user-active assertions are not supported on Linux"));
}

#[test]
fn macos_assertion_types() {
    assert_eq!(assertion_type_name(AssertionKind::Display), "PreventUserIdleDisplaySleep");
    assert_eq!(assertion_type_name(AssertionKind::IdleSystem), "PreventUserIdleSystemSleep");
    assert_eq!(assertion_type_name(AssertionKind::Disk), "PreventDiskIdle");
    assert_eq!(assertion_type_name(AssertionKind::System), "PreventSystemSleep");
    assert_eq!(assertion_type_name(AssertionKind::UserActive), "UserIsActive");
}

#[test]
fn windows_power_request_types() {
    assert_eq!(request_type_for(AssertionKind::Display).unwrap(), PowerRequestType::DisplayRequired);
    assert_eq!(request_type_for(AssertionKind::IdleSystem).unwrap(), PowerRequestType::SystemRequired);
    assert_eq!(request_type_for(AssertionKind::System).unwrap(), PowerRequestType::SystemRequired);
    let e = request_type_for(AssertionKind::Disk).unwrap_err();
    assert_eq!(
        e.message(),
        "disk assertions are not supported on Windows (no matching Power Request type)"
    );
    assert!(request_type_for(AssertionKind::UserActive).is_err());
}

#[test]
fn windows_process_liveness() {
    assert_eq!(process_id_for_query(0), None);
    assert_eq!(process_id_for_query(-3), None);
    assert_eq!(process_id_for_query(42), Some(42));
    assert!(process_alive(ProcessProbe::Queried { query_ok: 1, exit_code: STILL_ACTIVE }));
    assert!(!process_alive(ProcessProbe::Queried { query_ok: 0, exit_code: STILL_ACTIVE }));
    assert!(!process_alive(ProcessProbe::Queried { query_ok: 1, exit_code: 0 }));
    // A process we may not open still exists.
    assert!(process_alive(ProcessProbe::NotOpened { last_error: ERROR_ACCESS_DENIED }));
    // ERROR_INVALID_PARAMETER: no such process.
    assert!(!process_alive(ProcessProbe::NotOpened { last_error: 87 }));
}

#[test]
fn unsupported_platform_always_fails() {
    let r = unsupported::create(AssertionKind::IdleSystem, "why");
    match r {
        Ok(_) => panic!("the fallback backend must not pretend to hold an assertion"),
        Err(e) => assert_eq!(
            e.message(),
            "idle-system assertions are not implemented on this platform (only macOS, Linux, and Windows are supported)"
        ),
    }
}
