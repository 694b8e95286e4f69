use cysprite::util::{hex_to_rgba, rgba_to_hex};

#[test]
fn reads_six_digits_as_opaque() {
    assert_eq!(hex_to_rgba("#ff0080"), Some([255, 0, 128, 255]));
    assert_eq!(hex_to_rgba("0a0b0c"), Some([10, 11, 12, 255]));
}

#[test]
fn reads_eight_digits_with_alpha() {
    assert_eq!(hex_to_rgba("#11223344"), Some([0x11, 0x22, 0x33, 0x44]));
    assert_eq!(hex_to_rgba("ffffff00"), Some([255, 255, 255, 0]));
}

#[test]
fn reads_either_case() {
    assert_eq!(hex_to_rgba("#AbCdEf"), Some([0xab, 0xcd, 0xef, 255]));
}

#[test]
fn ignores_every_leading_hash() {
    assert_eq!(hex_to_rgba("###010203"), Some([1, 2, 3, 255]));
}

#[test]
fn reads_a_plus_sign_and_one_digit() {
    assert_eq!(hex_to_rgba("+f+a+0"), Some([15, 10, 0, 255]));
    assert_eq!(hex_to_rgba("++0000"), None);
}

#[test]
fn rejects_other_lengths() {
    assert_eq!(hex_to_rgba(""), None);
    assert_eq!(hex_to_rgba("#"), None);
    assert_eq!(hex_to_rgba("#fff"), None);
    assert_eq!(hex_to_rgba("#fffffff"), None);
    assert_eq!(hex_to_rgba("#fffffffff"), None);
}

#[test]
fn rejects_what_is_no_digit() {
    assert_eq!(hex_to_rgba("#gg0000"), None);
    assert_eq!(hex_to_rgba("#00 000"), None);
    assert_eq!(hex_to_rgba("-1-1-1"), None);
    assert_eq!(hex_to_rgba("ff#fff"), None);
    assert_eq!(hex_to_rgba("#0000000x"), None);
    assert_eq!(hex_to_rgba("\u{e9}12345"), None);
}

#[test]
fn writes_lower_case_with_alpha() {
    assert_eq!(rgba_to_hex([255, 0, 171, 16]), "#ff00ab10");
    assert_eq!(rgba_to_hex([0, 0, 0, 0]), "#00000000");
    assert_eq!(rgba_to_hex([1, 2, 3, 255]), "#010203ff");
}

#[test]
fn written_text_reads_back() {
    for color in [[0, 0, 0, 0], [255, 255, 255, 255], [18, 52, 86, 120], [9, 10, 15, 16]] {
        assert_eq!(hex_to_rgba(&rgba_to_hex(color)), Some(color));
    }
}
