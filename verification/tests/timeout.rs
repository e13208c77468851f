use polarize_core::error::PolarizeError;
use polarize_core::timeout::{answer_wait, Waited};

#[test]
fn an_answer_in_time_is_passed_on() {
    assert_eq!(answer_wait(Waited::Answered(Ok(7))), Ok(7));
    let refused: Result<i32, PolarizeError> = Err(PolarizeError::ScreenLocked);
    assert_eq!(answer_wait(Waited::Answered(refused)), Err(PolarizeError::ScreenLocked));
}

#[test]
fn a_wait_that_expires_says_how_long_it_was() {
    let waited: Waited<i32> = Waited::Expired { after: "20ms".to_string() };
    assert_eq!(
        answer_wait(waited),
        Err(PolarizeError::Platform(
            "operation timed out after 20ms with no response".to_string()
        ))
    );
}

#[test]
fn a_worker_that_is_lost_is_an_error() {
    let waited: Waited<i32> = Waited::Lost;
    assert_eq!(
        answer_wait(waited),
        Err(PolarizeError::Platform(
            "operation's worker thread ended without sending a result".to_string()
        ))
    );
}
