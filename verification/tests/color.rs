use wavyte::color::parse_hex_rgba8;

#[test]
fn parses_hex_rgb_and_rgba() {
    assert_eq!(parse_hex_rgba8("#ff0000").unwrap(), (255, 0, 0, 255));
    assert_eq!(parse_hex_rgba8("#0000ff80").unwrap(), (0, 0, 255, 128));
}

#[test]
fn hex_is_case_insensitive_and_trimmed() {
    assert_eq!(parse_hex_rgba8("  #FfA0b1 \n").unwrap(), (255, 160, 177, 255));
    assert_eq!(parse_hex_rgba8("0a0B0c0D").unwrap(), (10, 11, 12, 13));
}

#[test]
fn hex_length_must_be_six_or_eight() {
    let msg = "hex color must be #RRGGBB or #RRGGBBAA (case-insensitive)";
    assert_eq!(parse_hex_rgba8("#fff").unwrap_err(), msg);
    assert_eq!(parse_hex_rgba8("#1234567").unwrap_err(), msg);
    assert_eq!(parse_hex_rgba8("").unwrap_err(), msg);
    assert_eq!(parse_hex_rgba8("##ff0000").unwrap_err(), msg);
}

#[test]
fn bad_pairs_are_reported_first_to_last() {
    assert_eq!(parse_hex_rgba8("#gg0000").unwrap_err(), "invalid hex byte \"gg\"");
    assert_eq!(parse_hex_rgba8("#00zz00").unwrap_err(), "invalid hex byte \"zz\"");
    assert_eq!(parse_hex_rgba8("#000000x1").unwrap_err(), "invalid hex byte \"x1\"");
    assert_eq!(parse_hex_rgba8("ééé").unwrap_err(), "invalid hex byte \"é\"");
}

#[test]
fn a_pair_may_carry_a_plus_sign() {
    assert_eq!(parse_hex_rgba8("+f0000").unwrap(), (15, 0, 0, 255));
    assert_eq!(parse_hex_rgba8("-f0000").unwrap_err(), "invalid hex byte \"-f\"");
}
