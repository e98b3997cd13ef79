use git_grove::error::{ExitClass, GroveError};

#[test]
fn maps_classes_to_documented_codes() {
    assert_eq!(ExitClass::Success.code(), 0);
    assert_eq!(ExitClass::Failure.code(), 1);
    assert_eq!(ExitClass::NeedsDecision.code(), 2);
    assert_eq!(ExitClass::Usage.code(), 64);
}

#[test]
fn carries_message_and_detail() {
    let err = GroveError::usage("not a grove".to_string())
        .with_detail("run `git grove clone` first".to_string());
    assert_eq!(err.class, ExitClass::Usage);
    assert_eq!(err.message, "not a grove");
    assert_eq!(err.detail.as_deref(), Some("run `git grove clone` first"));
}

#[test]
fn the_text_of_an_error_indents_its_detail() {
    let bare = GroveError::failure("it broke".to_string());
    assert_eq!(bare.to_text(), "it broke");
    let detailed = GroveError::needs_decision("choose".to_string()).with_detail("this".to_string());
    assert_eq!(detailed.to_text(), "choose\n  this");
}
