use sgx_panic_backtrace::digits::{push_decimal, push_hex, push_right_aligned};
use sgx_panic_backtrace::image::{image_base, relative_offset};
use sgx_panic_backtrace::report::push_frame_line;

const SAMPLES: [usize; 16] = [
    0,
    1,
    9,
    10,
    15,
    16,
    17,
    99,
    100,
    255,
    256,
    999,
    1000,
    4096,
    0x1b09d9,
    usize::MAX,
];

#[test]
fn decimal_numerals_agree_with_the_standard_formatter() {
    for n in SAMPLES {
        let mut out = String::new();
        push_decimal(&mut out, n);
        assert_eq!(out, format!("{}", n));
    }
}

#[test]
fn hex_numerals_agree_with_the_standard_formatter() {
    for n in SAMPLES {
        let mut out = String::new();
        push_hex(&mut out, n);
        assert_eq!(out, format!("{:x}", n));
    }
}

#[test]
fn hex_numeral_of_zero_is_a_single_zero() {
    let mut out = String::new();
    push_hex(&mut out, 0);
    assert_eq!(out, "0");
}

#[test]
fn hex_numerals_are_lower_case() {
    let mut out = String::new();
    push_hex(&mut out, 0xABCDEF);
    assert_eq!(out, "abcdef");
}

#[test]
fn numerals_are_appended_to_what_is_there() {
    let mut out = String::from("ip=");
    push_hex(&mut out, 0x2a);
    out.push('/');
    push_decimal(&mut out, 42);
    assert_eq!(out, "ip=2a/42");
}

#[test]
fn short_text_is_padded_on_the_left() {
    let mut out = String::new();
    push_right_aligned(&mut out, "7", 4);
    assert_eq!(out, "   7");
    assert_eq!(out, format!("{:>4}", "7"));
}

#[test]
fn text_as_wide_as_the_field_is_not_padded() {
    let mut out = String::new();
    push_right_aligned(&mut out, "1234", 4);
    assert_eq!(out, "1234");
}

#[test]
fn longer_text_is_kept_whole() {
    let mut out = String::new();
    push_right_aligned(&mut out, "12345", 4);
    assert_eq!(out, "12345");
    let mut empty_field = String::from(">");
    push_right_aligned(&mut empty_field, "ab", 0);
    assert_eq!(empty_field, ">ab");
}

#[test]
fn padding_counts_characters_not_bytes() {
    let mut out = String::new();
    push_right_aligned(&mut out, "é", 3);
    assert_eq!(out, "  é");
    assert_eq!(out, format!("{:>3}", "é"));
}

#[test]
fn frame_lines_agree_with_the_standard_formatter() {
    for index in [0usize, 1, 9, 10, 99, 100, 999, 1000, 9999, 10000, 123456] {
        for offset in SAMPLES {
            let mut out = String::new();
            push_frame_line(&mut out, index, offset);
            assert_eq!(out, format!("{:>4}: {:#x}\n", index, offset));
        }
    }
}

#[test]
fn frame_line_of_the_first_frame() {
    let mut out = String::new();
    push_frame_line(&mut out, 0, 0x1b09d9);
    assert_eq!(out, "   0: 0x1b09d9\n");
}

#[test]
fn unknown_image_base_is_zero() {
    assert_eq!(image_base(), 0);
}

#[test]
fn offset_is_the_distance_to_the_base() {
    assert_eq!(relative_offset(0x401b09, 0x400000), 0x1b09);
    assert_eq!(relative_offset(0x4013f6, 0x400000), 0x13f6);
    assert_eq!(relative_offset(0x400000, 0x400000), 0);
    assert_eq!(relative_offset(usize::MAX, 1), usize::MAX - 1);
}

#[test]
fn offset_below_the_base_is_clamped_to_zero() {
    assert_eq!(relative_offset(0x3fffff, 0x400000), 0);
    assert_eq!(relative_offset(0, usize::MAX), 0);
    assert_eq!(relative_offset(5, 10), 0);
}

#[test]
fn offset_from_an_unknown_base_is_the_address() {
    assert_eq!(relative_offset(0x1b09d9, 0), 0x1b09d9);
    assert_eq!(relative_offset(usize::MAX, 0), usize::MAX);
    assert_eq!(relative_offset(0, 0), 0);
}
