use coctus::verdict::{get_result, TestResult};

#[test]
fn matching_output_succeeds() {
    let r = get_result("123\r\n", "", "123\n", false, true);
    assert!(r.is_success());
}

#[test]
fn wrong_output_keeps_normalized_stdout() {
    match get_result("nada\r\nx \n", "err", "123", false, true) {
        TestResult::WrongOutput { stdout, stderr } => {
            assert_eq!(stdout, "nada\nx");
            assert_eq!(stderr, "err");
        }
        other => panic!("unexpected {:?}", other),
    }
}

#[test]
fn timeout_wins_over_exit_status() {
    assert!(matches!(get_result("", "", "1", true, true), TestResult::Timeout { .. }));
}

#[test]
fn failed_exit_is_runtime_error() {
    assert!(matches!(get_result("1 2", "boom", "1", false, false), TestResult::RuntimeError { .. }));
}
