use jailer::validators::{parse_u32, validate_instance_id, ValidatorError};

#[test]
fn valid_ids_are_accepted() {
    assert_eq!(validate_instance_id(b"alice"), Ok(()));
    assert_eq!(validate_instance_id(b"a_b-c"), Ok(()));
    assert_eq!(validate_instance_id(b"Ab9"), Ok(()));
    assert_eq!(validate_instance_id(b"0"), Ok(()));
    let longest = vec![b'x'; 64];
    assert_eq!(validate_instance_id(&longest), Ok(()));
}

#[test]
fn id_with_path_characters_is_refused() {
    assert_eq!(
        validate_instance_id(b"../evil"),
        Err(ValidatorError::InvalidChar(b'.', 0))
    );
    assert_eq!(
        validate_instance_id(b"ab/cd"),
        Err(ValidatorError::InvalidChar(b'/', 2))
    );
}

#[test]
fn id_must_start_with_alphanumeric() {
    assert_eq!(
        validate_instance_id(b"_a"),
        Err(ValidatorError::InvalidChar(b'_', 0))
    );
    assert_eq!(
        validate_instance_id(b"-a"),
        Err(ValidatorError::InvalidChar(b'-', 0))
    );
}

#[test]
fn id_length_is_bounded() {
    assert_eq!(
        validate_instance_id(b""),
        Err(ValidatorError::InvalidLen(0, 1, 64))
    );
    let too_long = vec![b'x'; 65];
    assert_eq!(
        validate_instance_id(&too_long),
        Err(ValidatorError::InvalidLen(65, 1, 64))
    );
}

#[test]
fn non_ascii_id_is_refused() {
    let id = "\u{e9}".as_bytes();
    assert_eq!(
        validate_instance_id(id),
        Err(ValidatorError::InvalidChar(id[0], 0))
    );
}

#[test]
fn numbers_are_parsed_strictly() {
    assert_eq!(parse_u32(b"123"), Some(123));
    assert_eq!(parse_u32(b"0"), Some(0));
    assert_eq!(parse_u32(b"007"), Some(7));
    assert_eq!(parse_u32(b"4294967295"), Some(u32::MAX));
    assert_eq!(parse_u32(b"4294967296"), None);
    assert_eq!(parse_u32(b"99999999999999999999"), None);
    assert_eq!(parse_u32(b""), None);
    assert_eq!(parse_u32(b"+1"), None);
    assert_eq!(parse_u32(b" 1"), None);
    assert_eq!(parse_u32(b"1 "), None);
    assert_eq!(parse_u32(b"-1"), None);
    assert_eq!(parse_u32(b"12a"), None);
}
