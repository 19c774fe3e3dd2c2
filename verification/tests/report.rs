use sgx_panic_backtrace::report::{render_backtrace, render_panic_line, render_panic_report};

#[test]
fn offsets_are_relative_to_the_base() {
    let text = render_backtrace(&[0x401b09, 0x4013f6], 0x400000);
    assert_eq!(text, "stack backtrace:\n   0: 0x1b09\n   1: 0x13f6\n\n");
}

#[test]
fn unknown_base_passes_the_address_through() {
    let text = render_backtrace(&[0x1b09d9], 0);
    assert_eq!(text, "stack backtrace:\n   0: 0x1b09d9\n\n");
}

#[test]
fn no_frames_gives_header_and_blank_line() {
    let text = render_backtrace(&[], 0x400000);
    assert_eq!(text, "stack backtrace:\n\n");
}

#[test]
fn panic_line_has_the_prefix() {
    assert_eq!(render_panic_line("panicked at 'foo', bar.rs:10:5"), "enclave panic: panicked at 'foo', bar.rs:10:5\n");
}

#[test]
fn report_puts_the_panic_line_first() {
    let text = render_panic_report("boom", &[0x10], 0);
    assert_eq!(text, "enclave panic: boom\nstack backtrace:\n   0: 0x10\n\n");
}

#[test]
fn instruction_pointer_below_the_base_prints_zero() {
    let text = render_backtrace(&[0x3ff000, 0x400010], 0x400000);
    assert_eq!(text, "stack backtrace:\n   0: 0x0\n   1: 0x10\n\n");
}

#[test]
fn indices_count_up_from_zero_without_a_gap() {
    let ips: Vec<usize> = (0..1200).map(|i| 0x1000 + i).collect();
    let text = render_backtrace(&ips, 0x1000);
    let lines: Vec<&str> = text.split('\n').collect();
    assert_eq!(lines.len(), 1200 + 3);
    assert_eq!(lines[0], "stack backtrace:");
    for i in 0..1200 {
        assert_eq!(lines[i + 1], format!("{:>4}: {:#x}", i, i));
    }
    assert_eq!(lines[1201], "");
    assert_eq!(lines[1202], "");
    assert_eq!(lines[1000], " 999: 0x3e7");
    assert_eq!(lines[1001], "1000: 0x3e8");
}

#[test]
fn listing_has_one_line_per_frame_and_one_blank_line() {
    for n in [0usize, 1, 2, 10, 37] {
        let ips: Vec<usize> = (0..n).map(|i| 0x5000 + 16 * i).collect();
        let text = render_backtrace(&ips, 0x4000);
        assert_eq!(text.matches('\n').count(), n + 2);
        assert_eq!(text.lines().filter(|line| line.is_empty()).count(), 1);
        assert_eq!(text.lines().last(), Some(""));
    }
}

#[test]
fn same_frames_give_the_same_bytes() {
    let ips = [0x401b09usize, 0x4013f6, 0x10, 0];
    let first = render_backtrace(&ips, 0x400000);
    let second = render_backtrace(&ips, 0x400000);
    assert_eq!(first.as_bytes(), second.as_bytes());
}

#[test]
fn different_base_gives_different_offsets() {
    let ips = [0x401b09usize];
    assert_eq!(render_backtrace(&ips, 0x400000), "stack backtrace:\n   0: 0x1b09\n\n");
    assert_eq!(render_backtrace(&ips, 0x401000), "stack backtrace:\n   0: 0xb09\n\n");
}

#[test]
fn largest_address_is_printed_in_full() {
    let text = render_backtrace(&[usize::MAX], 0);
    assert_eq!(text, format!("stack backtrace:\n   0: {:#x}\n\n", usize::MAX));
}

#[test]
fn empty_message_leaves_the_prefix() {
    assert_eq!(render_panic_line(""), "enclave panic: \n");
}

#[test]
fn message_is_printed_as_it_is() {
    let message = "panicked at src/main.rs:4:5:\nindex out of bounds: the len is 3 but the index is 7 — «x»";
    assert_eq!(render_panic_line(message), format!("enclave panic: {}\n", message));
}

#[test]
fn report_without_frames() {
    assert_eq!(render_panic_report("oops", &[], 0), "enclave panic: oops\nstack backtrace:\n\n");
}

#[test]
fn report_is_the_panic_line_and_then_the_listing() {
    let ips = [0x401b09usize, 0x4013f6];
    let report = render_panic_report("panicked at 'foo', bar.rs:10:5", &ips, 0x400000);
    let mut expected = render_panic_line("panicked at 'foo', bar.rs:10:5");
    expected.push_str(&render_backtrace(&ips, 0x400000));
    assert_eq!(report, expected);
    assert_eq!(
        report,
        "enclave panic: panicked at 'foo', bar.rs:10:5\nstack backtrace:\n   0: 0x1b09\n   1: 0x13f6\n\n"
    );
}
