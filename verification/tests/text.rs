use rlit::text::{
    append_decimal, append_decimal_field, append_left_aligned, append_signed_decimal,
    decimal_string,
};

#[test]
fn decimal_string_of_numbers() {
    assert_eq!("0", decimal_string(0));
    assert_eq!("7", decimal_string(7));
    assert_eq!("10", decimal_string(10));
    assert_eq!("1234567890", decimal_string(1234567890));
    assert_eq!(usize::MAX.to_string(), decimal_string(usize::MAX));
}

#[test]
fn append_decimal_keeps_what_was_there() {
    let mut text = String::from("n = ");
    append_decimal(&mut text, 305);
    append_decimal(&mut text, 0);
    assert_eq!("n = 3050", text);
}

#[test]
fn append_signed_decimal_writes_the_sign() {
    let mut text = String::new();
    append_signed_decimal(&mut text, -1);
    text.push(' ');
    append_signed_decimal(&mut text, 0);
    text.push(' ');
    append_signed_decimal(&mut text, 101);
    text.push(' ');
    append_signed_decimal(&mut text, i32::MIN);
    text.push(' ');
    append_signed_decimal(&mut text, i32::MAX);
    assert_eq!("-1 0 101 -2147483648 2147483647", text);
}

#[test]
fn append_decimal_field_pads_with_zeros_or_spaces() {
    let mut text = String::new();
    append_decimal_field(&mut text, 7, 4, true);
    text.push('|');
    append_decimal_field(&mut text, 7, 4, false);
    text.push('|');
    append_decimal_field(&mut text, 1234, 4, true);
    text.push('|');
    append_decimal_field(&mut text, 12345, 4, false);
    text.push('|');
    append_decimal_field(&mut text, 0, 0, true);
    text.push('|');
    append_decimal_field(&mut text, 0, 1, false);
    assert_eq!("0007|   7|1234|12345|0|0", text);
    for n in [0usize, 5, 99, 100, 9999, 10000, 654321] {
        let mut zeros = String::new();
        append_decimal_field(&mut zeros, n, 4, true);
        assert_eq!(format!("{:04}", n), zeros);
        let mut spaces = String::new();
        append_decimal_field(&mut spaces, n, 4, false);
        assert_eq!(format!("{:4}", n), spaces);
    }
}

#[test]
fn append_left_aligned_pads_behind() {
    let mut text = String::new();
    append_left_aligned(&mut text, "OP_CONSTANT", 16);
    text.push('|');
    append_left_aligned(&mut text, "a name of more than sixteen", 16);
    text.push('|');
    append_left_aligned(&mut text, "", 2);
    text.push('|');
    append_left_aligned(&mut text, "äö", 4);
    text.push('|');
    assert_eq!("OP_CONSTANT     |a name of more than sixteen|  |äö  |", text);
    assert_eq!(format!("{:-16}|", "OP_CONSTANT"), &text[..17]);
}
