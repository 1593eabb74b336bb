use ipld_git::{byteslice_to_string, parse_user_info, Error, UserInfo};

#[test]
fn user_info_with_all_parts() {
    let info = parse_user_info(b"Moloch <pure_machinery@example.com> 1517911033 -0600").unwrap();
    assert_eq!(
        info,
        UserInfo {
            name: "Moloch".to_string(),
            email: "pure_machinery@example.com".to_string(),
            timestamp: "1517911033".to_string(),
            timezone: "-0600".to_string(),
        }
    );
}

#[test]
fn user_info_name_with_spaces() {
    let info = parse_user_info(b"Jaden  van Doe <j.doe@example.com> 1517914295 +0100").unwrap();
    assert_eq!(info.name, "Jaden  van Doe");
    assert_eq!(info.email, "j.doe@example.com");
    assert_eq!(info.timestamp, "1517914295");
    assert_eq!(info.timezone, "+0100");
}

#[test]
fn user_info_empty_parts() {
    let info = parse_user_info(b" <>  ").unwrap();
    assert_eq!(info.name, "");
    assert_eq!(info.email, "");
    assert_eq!(info.timestamp, "");
    assert_eq!(info.timezone, "");
}

#[test]
fn user_info_text_is_not_checked_further() {
    let info = parse_user_info(b"N <not an address> yesterday at noon <x>").unwrap();
    assert_eq!(info.name, "N");
    assert_eq!(info.email, "not an address");
    assert_eq!(info.timestamp, "yesterday");
    assert_eq!(info.timezone, "at noon <x>");
}

#[test]
fn user_info_non_ascii_name() {
    let info = parse_user_info("Zoë à <z@example.com> 1 +0000".as_bytes()).unwrap();
    assert_eq!(info.name, "Zoë à");
}

#[test]
fn user_info_without_open_bracket() {
    assert_eq!(parse_user_info(b""), Err(Error::MissingEmailOpenBracket));
    assert_eq!(
        parse_user_info(b"Moloch pure_machinery@example.com> 1517911033 -0600"),
        Err(Error::MissingEmailOpenBracket)
    );
}

#[test]
fn user_info_without_space_before_bracket() {
    assert_eq!(parse_user_info(b"<a@b> 1 +0000"), Err(Error::MissingSpaceBeforeEmail));
    assert_eq!(parse_user_info(b"Moloch<a@b> 1 +0000"), Err(Error::MissingSpaceBeforeEmail));
}

#[test]
fn user_info_without_close_bracket() {
    assert_eq!(parse_user_info(b"Moloch <a@b 1 +0000"), Err(Error::MissingEmailCloseBracket));
}

#[test]
fn user_info_without_space_after_bracket() {
    assert_eq!(parse_user_info(b"Moloch <a@b>"), Err(Error::MissingSpaceAfterEmail));
    assert_eq!(parse_user_info(b"Moloch <a@b>1 +0000"), Err(Error::MissingSpaceAfterEmail));
}

#[test]
fn user_info_without_time_zone() {
    assert_eq!(parse_user_info(b"Moloch <a@b> 1517911033"), Err(Error::MalformedDateField));
    assert_eq!(parse_user_info(b"Moloch <a@b> "), Err(Error::MalformedDateField));
}

#[test]
fn user_info_not_utf8() {
    assert_eq!(parse_user_info(b"Mol\xffch <a@b> 1 +0000"), Err(Error::NonUtf8Field));
    assert_eq!(parse_user_info(b"Moloch <a\xc3@b> 1 +0000"), Err(Error::NonUtf8Field));
    assert_eq!(parse_user_info(b"Moloch <a@b> \x80 +0000"), Err(Error::NonUtf8Field));
    assert_eq!(parse_user_info(b"Moloch <a@b> 1 +00\xed\xa0\x80"), Err(Error::NonUtf8Field));
}

#[test]
fn byteslice_to_string_decodes_utf8() {
    assert_eq!(byteslice_to_string(b""), Ok(String::new()));
    assert_eq!(byteslice_to_string(b"plain"), Ok("plain".to_string()));
    assert_eq!(byteslice_to_string(&[0xe2, 0x82, 0xac]), Ok("\u{20ac}".to_string()));
    assert_eq!(byteslice_to_string(&[0xf0, 0x9f, 0x98, 0x80]), Ok("\u{1f600}".to_string()));
}

#[test]
fn byteslice_to_string_refuses_other_bytes() {
    assert_eq!(byteslice_to_string(&[0xff]), Err(Error::NonUtf8Field));
    assert_eq!(byteslice_to_string(&[0xc0, 0x80]), Err(Error::NonUtf8Field));
    assert_eq!(byteslice_to_string(&[0xe2, 0x82]), Err(Error::NonUtf8Field));
    assert_eq!(byteslice_to_string(&[0xed, 0xa0, 0x80]), Err(Error::NonUtf8Field));
    assert_eq!(byteslice_to_string(&[0xf4, 0x90, 0x80, 0x80]), Err(Error::NonUtf8Field));
}
