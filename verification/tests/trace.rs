use sgx_panic_backtrace::report::render_backtrace;
use sgx_panic_backtrace::trace::{active_frame_ips, backtrace_report, record_frame};

#[test]
fn record_frame_appends_and_asks_for_more() {
    let mut ips = vec![0x10];
    assert!(record_frame(&mut ips, 0x20));
    assert!(record_frame(&mut ips, 0x30));
    assert_eq!(ips, vec![0x10, 0x20, 0x30]);
}

#[test]
fn walking_the_stack_finds_frames() {
    let ips = active_frame_ips();
    assert!(!ips.is_empty());
}

#[test]
fn report_lists_every_frame_with_its_index() {
    let text = backtrace_report(0);
    assert!(text.starts_with("stack backtrace:\n"));
    assert!(text.ends_with("\n\n"));
    let lines: Vec<&str> = text.split('\n').collect();
    // the header, the frames, the closing blank line, and what follows the last line break
    assert!(lines.len() >= 3);
    assert_eq!(lines[0], "stack backtrace:");
    assert_eq!(lines[lines.len() - 1], "");
    assert_eq!(lines[lines.len() - 2], "");
    let frames = &lines[1..lines.len() - 2];
    assert!(!frames.is_empty());
    for (index, line) in frames.iter().enumerate() {
        let (number, offset) = line.split_once(": 0x").expect("a frame line");
        assert_eq!(number, format!("{:>4}", index));
        assert!(!offset.is_empty());
        assert!(offset.chars().all(|c| matches!(c, '0'..='9' | 'a'..='f')));
        assert!(usize::from_str_radix(offset, 16).is_ok());
    }
}

#[test]
fn base_above_every_frame_gives_zero_offsets() {
    let text = backtrace_report(usize::MAX);
    let lines: Vec<&str> = text.split('\n').collect();
    let frames = &lines[1..lines.len() - 2];
    assert!(!frames.is_empty());
    for line in frames {
        assert!(line.ends_with(": 0x0"));
    }
}

#[test]
fn rendering_the_walked_frames_twice_gives_the_same_text() {
    let ips = active_frame_ips();
    let first = render_backtrace(&ips, 0x1000);
    let second = render_backtrace(&ips, 0x1000);
    assert_eq!(first, second);
    assert_eq!(first.as_bytes(), second.as_bytes());
    assert_eq!(first.matches('\n').count(), ips.len() + 2);
}
