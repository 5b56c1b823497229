use task_server::{decode_request, get_task_value, DecodeError, Request, TaskKind};

#[test]
fn ordinary_request_decodes() {
    assert_eq!(get_task_value("1:42\n".to_string()), Ok((1, 42)));
    assert_eq!(
        decode_request("1:42\n"),
        Ok(Request { kind: TaskKind::Ordinary, seed: 42 })
    );
}

#[test]
fn cpu_intensive_request_decodes() {
    assert_eq!(
        decode_request("0:7\n"),
        Ok(Request { kind: TaskKind::CpuIntensive, seed: 7 })
    );
}

#[test]
fn non_numeric_fields_are_rejected() {
    assert_eq!(get_task_value("abc:xyz".to_string()), Err(DecodeError::InvalidTaskKind));
    assert_eq!(get_task_value("1:xyz".to_string()), Err(DecodeError::InvalidSeed));
}

#[test]
fn missing_seed_is_rejected() {
    assert_eq!(get_task_value("5".to_string()), Err(DecodeError::MalformedLine));
    assert_eq!(get_task_value("5\n".to_string()), Err(DecodeError::MalformedLine));
    assert_eq!(get_task_value("1:".to_string()), Err(DecodeError::InvalidSeed));
}

#[test]
fn task_kind_out_of_range_is_rejected() {
    assert_eq!(get_task_value("999:1".to_string()), Err(DecodeError::InvalidTaskKind));
    assert_eq!(get_task_value("256:1".to_string()), Err(DecodeError::InvalidTaskKind));
    assert_eq!(get_task_value("255:1".to_string()), Ok((255, 1)));
}

#[test]
fn unknown_task_kind_is_rejected() {
    assert_eq!(decode_request("7:1"), Err(DecodeError::UnknownTaskKind));
    assert_eq!(decode_request("999:1"), Err(DecodeError::InvalidTaskKind));
}

#[test]
fn extra_fields_are_rejected() {
    assert_eq!(get_task_value("1:2:3".to_string()), Err(DecodeError::MalformedLine));
    assert_eq!(get_task_value("".to_string()), Err(DecodeError::MalformedLine));
    assert_eq!(get_task_value("\n".to_string()), Err(DecodeError::MalformedLine));
}

#[test]
fn empty_fields_are_rejected() {
    assert_eq!(get_task_value(":".to_string()), Err(DecodeError::InvalidTaskKind));
    assert_eq!(get_task_value(":5".to_string()), Err(DecodeError::InvalidTaskKind));
    assert_eq!(get_task_value("+:5".to_string()), Err(DecodeError::InvalidTaskKind));
}

#[test]
fn surrounding_whitespace_is_ignored() {
    assert_eq!(get_task_value("  1:2  \r\n".to_string()), Ok((1, 2)));
    assert_eq!(get_task_value("\t0:9\n".to_string()), Ok((0, 9)));
}

#[test]
fn inner_whitespace_is_rejected() {
    assert_eq!(get_task_value("1 :2".to_string()), Err(DecodeError::InvalidTaskKind));
    assert_eq!(get_task_value("1: 2".to_string()), Err(DecodeError::InvalidSeed));
}

#[test]
fn plus_sign_and_leading_zeros_are_accepted() {
    assert_eq!(get_task_value("+1:+42".to_string()), Ok((1, 42)));
    assert_eq!(get_task_value("001:0042".to_string()), Ok((1, 42)));
    assert_eq!(get_task_value("-1:42".to_string()), Err(DecodeError::InvalidTaskKind));
}

#[test]
fn seed_range_edges() {
    assert_eq!(
        get_task_value("1:18446744073709551615".to_string()),
        Ok((1, u64::MAX))
    );
    assert_eq!(
        get_task_value("1:18446744073709551616".to_string()),
        Err(DecodeError::InvalidSeed)
    );
    assert_eq!(
        get_task_value("1:99999999999999999999999".to_string()),
        Err(DecodeError::InvalidSeed)
    );
    assert_eq!(get_task_value("0:0".to_string()), Ok((0, 0)));
}

#[test]
fn task_kind_codes() {
    assert_eq!(TaskKind::from_u8(0), Some(TaskKind::CpuIntensive));
    assert_eq!(TaskKind::from_u8(1), Some(TaskKind::Ordinary));
    assert_eq!(TaskKind::from_u8(2), None);
    assert_eq!(TaskKind::CpuIntensive.code(), 0);
    assert_eq!(TaskKind::Ordinary.code(), 1);
    assert!(TaskKind::CpuIntensive.is_cpu_intensive());
    assert!(!TaskKind::Ordinary.is_cpu_intensive());
}

#[test]
fn unicode_whitespace_is_ignored() {
    assert_eq!(get_task_value("\u{a0}1:2".to_string()), Ok((1, 2)));
    assert_eq!(get_task_value("\u{3000}1:2\u{3000}\n".to_string()), Ok((1, 2)));
    assert_eq!(get_task_value("\u{85}\u{1680}0:5\u{2028}\u{2029}".to_string()), Ok((0, 5)));
    assert_eq!(get_task_value("\u{2000}\u{200a}\u{202f}1:9\u{205f}".to_string()), Ok((1, 9)));
    assert_eq!(
        decode_request("\u{a0}1:42\u{3000}"),
        Ok(Request { kind: TaskKind::Ordinary, seed: 42 })
    );
}

#[test]
fn other_unicode_is_not_whitespace() {
    assert_eq!(get_task_value("\u{200b}1:2".to_string()), Err(DecodeError::InvalidTaskKind));
    assert_eq!(get_task_value("1:2\u{a9}".to_string()), Err(DecodeError::InvalidSeed));
    assert_eq!(get_task_value("1\u{a0}:2".to_string()), Err(DecodeError::InvalidTaskKind));
}
