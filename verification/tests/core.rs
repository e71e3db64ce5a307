use wakeup::backend::{creation_failed, label, labelled_error};
use wakeup::{AssertionKind, AssertionRequest};

#[test]
fn label_is_stable_and_human_readable() {
    assert_eq!(AssertionKind::IdleSystem.label(), "idle-system");
    assert_eq!(AssertionKind::UserActive.label(), "user-active");
}

#[test]
fn every_kind_has_a_distinct_label() {
    let kinds = [
        AssertionKind::Display,
        AssertionKind::IdleSystem,
        AssertionKind::Disk,
        AssertionKind::System,
        AssertionKind::UserActive,
    ];
    let labels: Vec<&str> = kinds.iter().map(|k| k.label()).collect();
    assert_eq!(labels, vec!["display", "idle-system", "disk", "system", "user-active"]);
    for k in kinds {
        assert_eq!(label(k), k.label());
    }
}

#[test]
fn request_keeps_kind_and_reason() {
    let r = AssertionRequest::new(AssertionKind::Disk, "keep the disk spinning");
    assert_eq!(r.kind, AssertionKind::Disk);
    assert_eq!(r.reason, "keep the disk spinning");
}

#[test]
fn creation_failure_message_names_kind_and_detail() {
    let e = creation_failed(AssertionKind::Display, "PowerCreateRequest failed");
    assert_eq!(
        e.message(),
        "could not create display assertion: PowerCreateRequest failed"
    );
}

#[test]
fn labelled_error_prefixes_the_label() {
    let e = labelled_error(AssertionKind::System, " is odd");
    assert_eq!(e.message(), "system is odd");
}
