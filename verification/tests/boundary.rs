use secure_native::error::Error;
use secure_native::result::{cresult_of, option_outcome, result_outcome, ResultOption};
use secure_native::status::{contains_outcome, delete_outcome, status_outcome,
    STATUS_INTERACTION_NOT_ALLOWED, STATUS_ITEM_NOT_FOUND, STATUS_OK};
use secure_native::text::string_from_utf8;

#[test]
fn result_option_folds_three_shapes() {
    let value: ResultOption<u32, Error> = ResultOption::from(Ok(Some(7u32)));
    assert_eq!(value.into_result(Error::KeyProvider), Ok(7));
    let null: ResultOption<u32, Error> = ResultOption::from(Ok(None));
    assert_eq!(null.into_result(Error::KeyProvider), Err(Error::KeyProvider));
    let thrown: ResultOption<u32, Error> = ResultOption::from(Err(Error::Cipher));
    assert_eq!(thrown.into_result(Error::KeyProvider), Err(Error::Cipher));
}

#[test]
fn cresult_carries_value_or_message() {
    let (ok, flagged) = cresult_of(Ok(true), false);
    assert!(ok.value);
    assert_eq!(ok.error_msg, "");
    assert!(!flagged);
    let (err, flagged) = cresult_of(Err(String::from("boom")), false);
    assert!(!err.value);
    assert_eq!(err.error_msg, "boom");
    assert!(flagged);
}

#[test]
fn outcome_helpers_signal_absence_and_failure() {
    assert_eq!(option_outcome(Some(3u8), 0), (3, false));
    assert_eq!(option_outcome(None, 0u8), (0, true));
    let ok: Result<u8, Error> = Ok(9);
    assert_eq!(result_outcome(ok, 0), (9, false));
    let err: Result<u8, Error> = Err(Error::Commit);
    assert_eq!(result_outcome(err, 0), (0, true));
}

#[test]
fn status_codes_fold_into_the_taxonomy() {
    assert_eq!(status_outcome(STATUS_OK), Ok(()));
    assert_eq!(status_outcome(STATUS_ITEM_NOT_FOUND), Err(Error::NotFound));
    assert_eq!(status_outcome(-26276), Err(Error::KeyProvider));
    assert_eq!(delete_outcome(STATUS_OK), Ok(()));
    assert_eq!(delete_outcome(STATUS_ITEM_NOT_FOUND), Ok(()));
    assert_eq!(delete_outcome(-26276), Err(Error::KeyProvider));
}

#[test]
fn contains_conflates_locked_with_present() {
    assert_eq!(contains_outcome(STATUS_OK), Ok(true));
    assert_eq!(contains_outcome(STATUS_INTERACTION_NOT_ALLOWED), Ok(true));
    assert_eq!(contains_outcome(STATUS_ITEM_NOT_FOUND), Ok(false));
    assert_eq!(contains_outcome(-26276), Err(Error::KeyProvider));
}

#[test]
fn errors_describe_themselves() {
    let kinds = vec![
        Error::KeyProvider,
        Error::Cipher,
        Error::Codec,
        Error::NotFound,
        Error::KeyNotFound,
        Error::Commit,
    ];
    for kind in &kinds {
        assert!(!kind.describe().is_empty());
    }
}

#[test]
fn text_conversion_checks_utf8() {
    assert_eq!(string_from_utf8(b"hello".to_vec()), Some(String::from("hello")));
    assert_eq!(string_from_utf8(vec![0xff, 0xfe]), None);
}
