use converter_module::{
    convert_binary_to_hex, convert_binary_to_text, convert_hex_to_binary, convert_hex_to_text,
    convert_text_to_binary, convert_text_to_hex, ConvertError,
};

const HELLO_BINARY: &str = "01001000 01100101 01101100 01101100 01101111 00100000 01110111 01101111 01110010 01101100 01100100";
const HELLO_HEX: &str = "48 65 6C 6C 6F 20 77 6F 72 6C 64";

#[test]
fn test_convert_text_to_binary() {
    assert_eq!(
        convert_text_to_binary("Hello world"),
        Ok("01001000 01100101 01101100 01101100 01101111 00100000 01110111 01101111 01110010 01101100 01100100".to_string())
    );
}

#[test]
fn test_convert_binary_to_text() {
    assert_eq!(
        convert_binary_to_text(
            "01001000 01100101 01101100 01101100 01101111 00100000 01110111 01101111 01110010 01101100 01100100"
        ),
        Ok("Hello world".to_string())
    );
}

#[test]
fn test_convert_text_to_hex() {
    assert_eq!(
        convert_text_to_hex("Hello world"),
        Ok("48 65 6C 6C 6F 20 77 6F 72 6C 64".to_string())
    );
}

#[test]
fn test_convert_hex_to_text() {
    assert_eq!(
        convert_hex_to_text("48 65 6C 6C 6F 20 77 6F 72 6C 64"),
        Ok("Hello world".to_string())
    );
}

#[test]
fn test_convert_binary_to_hex() {
    assert_eq!(
        convert_binary_to_hex(
            "01001000 01100101 01101100 01101100 01101111 00100000 01110111 01101111 01110010 01101100 01100100"
        ),
        Ok("48 65 6C 6C 6F 20 77 6F 72 6C 64".to_string())
    );
}

#[test]
fn test_convert_hex_to_binary() {
    assert_eq!(
        convert_hex_to_binary("48 65 6C 6C 6F 20 77 6F 72 6C 64"),
        Ok("01001000 01100101 01101100 01101100 01101111 00100000 01110111 01101111 01110010 01101100 01100100".to_string())
    );
}

#[test]
fn binary_to_hex_of_two_tokens() {
    assert_eq!(convert_binary_to_hex("01001000 01100101"), Ok("48 65".to_string()));
}

#[test]
fn empty_input_gives_empty_output() {
    assert_eq!(convert_text_to_binary(""), Ok(String::new()));
    assert_eq!(convert_binary_to_text(""), Ok(String::new()));
    assert_eq!(convert_text_to_hex(""), Ok(String::new()));
    assert_eq!(convert_hex_to_text(""), Ok(String::new()));
    assert_eq!(convert_binary_to_hex(""), Ok(String::new()));
    assert_eq!(convert_hex_to_binary(""), Ok(String::new()));
}

#[test]
fn single_character_has_no_space() {
    assert_eq!(convert_text_to_binary("A"), Ok("01000001".to_string()));
    assert_eq!(convert_text_to_hex("A"), Ok("41".to_string()));
    assert_eq!(convert_binary_to_text("01000001"), Ok("A".to_string()));
    assert_eq!(convert_hex_to_text("41"), Ok("A".to_string()));
}

#[test]
fn seven_digits_are_rejected() {
    assert_eq!(convert_binary_to_text("0100100"), Err(ConvertError::MalformedToken));
    assert_eq!(convert_binary_to_hex("0100100"), Err(ConvertError::MalformedToken));
}

#[test]
fn nine_digits_are_rejected() {
    assert_eq!(convert_binary_to_text("010010000"), Err(ConvertError::MalformedToken));
    assert_eq!(convert_binary_to_text("01001000 011001010"), Err(ConvertError::MalformedToken));
}

#[test]
fn letters_outside_hex_are_rejected() {
    assert_eq!(convert_hex_to_text("ZZ"), Err(ConvertError::MalformedToken));
    assert_eq!(convert_hex_to_binary("ZZ"), Err(ConvertError::MalformedToken));
    assert_eq!(convert_hex_to_text("4G"), Err(ConvertError::MalformedToken));
    assert_eq!(convert_hex_to_text("G4"), Err(ConvertError::MalformedToken));
}

#[test]
fn double_space_is_rejected() {
    assert_eq!(
        convert_binary_to_text("01001000  01100101"),
        Err(ConvertError::MalformedToken)
    );
    assert_eq!(convert_hex_to_text("48  65"), Err(ConvertError::MalformedToken));
}

#[test]
fn space_at_either_end_is_rejected() {
    assert_eq!(convert_binary_to_text(" 01001000"), Err(ConvertError::MalformedToken));
    assert_eq!(convert_binary_to_text("01001000 "), Err(ConvertError::MalformedToken));
    assert_eq!(convert_hex_to_text(" 48"), Err(ConvertError::MalformedToken));
    assert_eq!(convert_hex_to_text("48 "), Err(ConvertError::MalformedToken));
    assert_eq!(convert_hex_to_text(" "), Err(ConvertError::MalformedToken));
    assert_eq!(convert_binary_to_text(" "), Err(ConvertError::MalformedToken));
}

#[test]
fn other_separators_are_rejected() {
    assert_eq!(convert_binary_to_text("01001000,01100101"), Err(ConvertError::MalformedToken));
    assert_eq!(convert_binary_to_text("01001000\t01100101"), Err(ConvertError::MalformedToken));
    assert_eq!(convert_hex_to_text("48-65"), Err(ConvertError::MalformedToken));
}

#[test]
fn other_digits_are_rejected() {
    assert_eq!(convert_binary_to_text("01001002"), Err(ConvertError::MalformedToken));
    assert_eq!(convert_binary_to_text("0100100a"), Err(ConvertError::MalformedToken));
    assert_eq!(convert_binary_to_text("0100 000"), Err(ConvertError::MalformedToken));
}

#[test]
fn signs_are_rejected() {
    assert_eq!(convert_hex_to_text("+4"), Err(ConvertError::MalformedToken));
    assert_eq!(convert_hex_to_text("-4"), Err(ConvertError::MalformedToken));
    assert_eq!(convert_binary_to_text("+1001000"), Err(ConvertError::MalformedToken));
}

#[test]
fn short_and_long_hex_tokens_are_rejected() {
    assert_eq!(convert_hex_to_text("4"), Err(ConvertError::MalformedToken));
    assert_eq!(convert_hex_to_text("486"), Err(ConvertError::MalformedToken));
    assert_eq!(convert_hex_to_text("48 6"), Err(ConvertError::MalformedToken));
    assert_eq!(convert_hex_to_text("48 656"), Err(ConvertError::MalformedToken));
}

#[test]
fn digits_beyond_ascii_are_rejected() {
    assert_eq!(convert_hex_to_text("４８"), Err(ConvertError::MalformedToken));
    assert_eq!(convert_binary_to_text("０1001000"), Err(ConvertError::MalformedToken));
}

#[test]
fn lower_case_hex_is_read() {
    assert_eq!(convert_hex_to_text("6c 6f"), Ok("lo".to_string()));
    assert_eq!(convert_hex_to_text("6C 6f"), Ok("lo".to_string()));
    assert_eq!(convert_hex_to_binary("ff"), Ok("11111111".to_string()));
    assert_eq!(convert_hex_to_binary("aB"), Ok("10101011".to_string()));
}

#[test]
fn hex_is_written_in_upper_case() {
    assert_eq!(convert_text_to_hex("lo"), Ok("6C 6F".to_string()));
    assert_eq!(convert_binary_to_hex("10101011 11001101 11101111"), Ok("AB CD EF".to_string()));
}

#[test]
fn lower_case_hex_comes_back_in_upper_case() {
    let binary = convert_hex_to_binary("ab cd ef").unwrap();
    assert_eq!(convert_binary_to_hex(&binary), Ok("AB CD EF".to_string()));
}

#[test]
fn wide_character_is_rejected() {
    assert_eq!(convert_text_to_binary("€"), Err(ConvertError::InvalidCharacter));
    assert_eq!(convert_text_to_hex("€"), Err(ConvertError::InvalidCharacter));
    assert_eq!(convert_text_to_binary("abc\u{100}"), Err(ConvertError::InvalidCharacter));
    assert_eq!(convert_text_to_hex("\u{10FFFF}abc"), Err(ConvertError::InvalidCharacter));
}

#[test]
fn characters_up_to_255_are_single_bytes() {
    assert_eq!(convert_text_to_binary("é"), Ok("11101001".to_string()));
    assert_eq!(convert_text_to_hex("é"), Ok("E9".to_string()));
    assert_eq!(convert_text_to_hex("\u{FF}"), Ok("FF".to_string()));
    assert_eq!(convert_text_to_binary("\u{0}"), Ok("00000000".to_string()));
    assert_eq!(convert_binary_to_text("11101001"), Ok("é".to_string()));
    assert_eq!(convert_hex_to_text("E9"), Ok("é".to_string()));
    assert_eq!(convert_hex_to_text("00"), Ok("\u{0}".to_string()));
}

#[test]
fn space_in_text_is_a_byte() {
    assert_eq!(convert_text_to_hex("  "), Ok("20 20".to_string()));
    assert_eq!(convert_hex_to_text("20 20"), Ok("  ".to_string()));
}

#[test]
fn text_survives_binary_round_trip() {
    let text: String = (0u8..=255).map(char::from).collect();
    let line = convert_text_to_binary(&text).unwrap();
    assert_eq!(convert_binary_to_text(&line), Ok(text));
}

#[test]
fn text_survives_hex_round_trip() {
    let text: String = (0u8..=255).map(char::from).collect();
    let line = convert_text_to_hex(&text).unwrap();
    assert_eq!(convert_hex_to_text(&line), Ok(text));
}

#[test]
fn binary_line_survives_hex_round_trip() {
    let hex = convert_binary_to_hex(HELLO_BINARY).unwrap();
    assert_eq!(hex, HELLO_HEX);
    assert_eq!(convert_hex_to_binary(&hex), Ok(HELLO_BINARY.to_string()));
    let all: String = (0u8..=255).map(char::from).collect();
    let line = convert_text_to_binary(&all).unwrap();
    let hex = convert_binary_to_hex(&line).unwrap();
    assert_eq!(convert_hex_to_binary(&hex), Ok(line));
}

#[test]
fn hex_line_survives_binary_round_trip() {
    let binary = convert_hex_to_binary(HELLO_HEX).unwrap();
    assert_eq!(binary, HELLO_BINARY);
    assert_eq!(convert_binary_to_hex(&binary), Ok(HELLO_HEX.to_string()));
    let all: String = (0u8..=255).map(char::from).collect();
    let line = convert_text_to_hex(&all).unwrap();
    let binary = convert_hex_to_binary(&line).unwrap();
    assert_eq!(convert_binary_to_hex(&binary), Ok(line));
}

#[test]
fn binary_tokens_have_eight_binary_digits() {
    let all: String = (0u8..=255).map(char::from).collect();
    let line = convert_text_to_binary(&all).unwrap();
    let mut count = 0;
    for token in line.split(' ') {
        assert_eq!(token.len(), 8);
        assert!(token.chars().all(|c| c == '0' || c == '1'));
        assert_eq!(u8::from_str_radix(token, 2), Ok(count as u8));
        count += 1;
    }
    assert_eq!(count, 256);
}

#[test]
fn hex_tokens_have_two_upper_case_digits() {
    let all: String = (0u8..=255).map(char::from).collect();
    let line = convert_text_to_hex(&all).unwrap();
    let mut count = 0;
    for token in line.split(' ') {
        assert_eq!(token.len(), 2);
        assert!(token.chars().all(|c| c.is_ascii_digit() || ('A'..='F').contains(&c)));
        assert_eq!(u8::from_str_radix(token, 16), Ok(count as u8));
        count += 1;
    }
    assert_eq!(count, 256);
}

#[test]
fn error_in_a_late_token_gives_no_partial_output() {
    assert_eq!(
        convert_binary_to_text("01001000 01100101 0110110"),
        Err(ConvertError::MalformedToken)
    );
    assert_eq!(convert_hex_to_text("48 65 6X"), Err(ConvertError::MalformedToken));
    assert_eq!(convert_text_to_hex("Hello \u{1F600}"), Err(ConvertError::InvalidCharacter));
}
