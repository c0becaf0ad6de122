use rs_lockfree::error::Status;

#[test]
fn error_test_base() {
    let s = Status::Success;
    let a = s.to_string();
    assert_eq!(a, "Success");
}

#[test]
fn status_names() {
    assert_eq!(Status::Busy.to_string(), "Busy");
    assert_eq!(Status::ThreadNumOverflow.to_string(), "ThreadNumOverflow");
    assert_eq!(Status::InvalidParam.to_string(), "InvalidParam");
}

#[test]
fn status_equality() {
    assert_eq!(Status::Success, Status::Success);
    assert_ne!(Status::Success, Status::Busy);
    assert_ne!(Status::ThreadNumOverflow, Status::InvalidParam);
}
