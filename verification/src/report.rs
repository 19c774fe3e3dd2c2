//! The text of a crash report: the line that announces the panic, and the
//! listing of the active stack frames that follows it.

use crate::digits::{
    decimal_digits, digit_char, hex_digits, is_digit, lemma_decimal_numeral, lemma_digit_chars,
    lemma_hex_numeral, numeral_value, push_decimal, push_hex, push_right_aligned, right_aligned,
};
use crate::image::{offset_from, relative_offset};
use vstd::prelude::*;
use vstd::utf8::encode_utf8;

verus! {

/// What every announcement of a panic begins with.
pub open spec fn panic_prefix() -> Seq<char> {
    "enclave panic: "@
}

/// The first line of every frame listing.
pub open spec fn backtrace_header() -> Seq<char> {
    "stack backtrace:"@
}

/// The character that ends a line.
pub open spec fn line_break() -> char {
    '\n'
}

/// The width of the field in which a frame's index is right-aligned.
pub open spec fn index_width() -> nat {
    4
}

/// The lines one after the other, each followed by a line break.
pub open spec fn unlines(lines: Seq<Seq<char>>) -> Seq<char>
    decreases lines.len(),
{
    if lines.len() == 0 {
        Seq::empty()
    } else {
        unlines(lines.drop_last()) + lines.last().push(line_break())
    }
}

/// The line that announces a panic whose description reads `message`.
pub open spec fn panic_line(message: Seq<char>) -> Seq<char> {
    panic_prefix() + message
}

/// The line of the frame at position `index`, whose instruction pointer lies
/// `offset` above the image base: the index in decimal, right-aligned in its
/// field, then a colon and a blank, then the offset in hexadecimal behind `0x`.
pub open spec fn frame_entry(index: nat, offset: nat) -> Seq<char> {
    right_aligned(decimal_digits(index), index_width()) + ": 0x"@ + hex_digits(offset)
}

/// One line for each frame, in the order of `ips`, innermost frame first. The
/// frame at position `i` is numbered `i`.
pub open spec fn frame_entries(ips: Seq<usize>, base: usize) -> Seq<Seq<char>> {
    Seq::new(ips.len(), |i: int| frame_entry(i as nat, offset_from(ips[i], base) as nat))
}

/// The lines of a frame listing: the header, one line for each frame, and an
/// empty line that closes the block.
pub open spec fn backtrace_lines(ips: Seq<usize>, base: usize) -> Seq<Seq<char>> {
    seq![backtrace_header()] + frame_entries(ips, base) + seq![Seq::<char>::empty()]
}

/// The frame listing as it is printed.
pub open spec fn backtrace_text(ips: Seq<usize>, base: usize) -> Seq<char> {
    unlines(backtrace_lines(ips, base))
}

/// The whole report as it is printed: the announcement, then the listing.
pub open spec fn panic_report_text(message: Seq<char>, ips: Seq<usize>, base: usize) -> Seq<char> {
    unlines(seq![panic_line(message)] + backtrace_lines(ips, base))
}

/// Adding a line at the end adds its text and one line break at the end.
pub proof fn lemma_unlines_push(lines: Seq<Seq<char>>, last: Seq<char>)
    ensures
        unlines(lines.push(last)) == unlines(lines) + last.push(line_break()),
{
    assert(lines.push(last).drop_last() =~= lines);
}

/// The text of lines put one behind the other is the text of the first ones
/// followed by the text of the others.
pub proof fn lemma_unlines_concat(first: Seq<Seq<char>>, others: Seq<Seq<char>>)
    ensures
        unlines(first + others) == unlines(first) + unlines(others),
    decreases others.len(),
{
    if others.len() == 0 {
        assert(first + others =~= first);
        assert(unlines(first) + unlines(others) =~= unlines(first));
    } else {
        lemma_unlines_concat(first, others.drop_last());
        assert((first + others).drop_last() =~= first + others.drop_last());
        assert(unlines(first + others) =~= unlines(first) + unlines(others));
    }
}

/// The announcement of a panic, as one printed line.
pub fn render_panic_line(message: &str) -> (text: String)
    ensures
        text@ == unlines(seq![panic_line(message@)]),
{
    let mut text = String::new();
    text.append("enclave panic: ");
    text.append(message);
    text.push('\n');
    proof {
        lemma_unlines_push(Seq::empty(), panic_line(message@));
        assert(Seq::<Seq<char>>::empty().push(panic_line(message@)) =~= seq![panic_line(message@)]);
        assert(text@ =~= unlines(seq![panic_line(message@)]));
    }
    text
}

/// Appends the printed line of one frame to `out`.
pub fn push_frame_line(out: &mut String, index: usize, offset: usize)
    ensures
        final(out)@ == old(out)@ + frame_entry(index as nat, offset as nat).push(line_break()),
{
    let mut numeral = String::new();
    push_decimal(&mut numeral, index);
    push_right_aligned(out, numeral.as_str(), 4);
    out.append(": 0x");
    push_hex(out, offset);
    out.push('\n');
    assert(out@ =~= old(out)@ + frame_entry(index as nat, offset as nat).push(line_break()));
}

/// The listing of the frames whose instruction pointers are `ips`, innermost
/// first, relative to the load address `base`.
pub fn render_backtrace(ips: &[usize], base: usize) -> (text: String)
    ensures
        text@ == backtrace_text(ips@, base),
{
    let mut text = String::new();
    text.append("stack backtrace:");
    text.push('\n');
    let ghost entries = frame_entries(ips@, base);
    proof {
        lemma_unlines_push(Seq::empty(), backtrace_header());
        assert(Seq::<Seq<char>>::empty().push(backtrace_header()) =~= seq![backtrace_header()]
            + entries.take(0));
        assert(text@ =~= unlines(seq![backtrace_header()] + entries.take(0)));
    }
    let mut i: usize = 0;
    while i < ips.len()
        invariant
            i <= ips.len(),
            entries == frame_entries(ips@, base),
            text@ == unlines(seq![backtrace_header()] + entries.take(i as int)),
        decreases ips.len() - i,
    {
        let offset: usize = relative_offset(ips[i], base);
        push_frame_line(&mut text, i, offset);
        proof {
            let before = seq![backtrace_header()] + entries.take(i as int);
            lemma_unlines_push(before, entries[i as int]);
            assert(before.push(entries[i as int]) =~= seq![backtrace_header()] + entries.take(
                i + 1,
            ));
        }
        i = i + 1;
    }
    text.push('\n');
    proof {
        let before = seq![backtrace_header()] + entries.take(i as int);
        lemma_unlines_push(before, Seq::empty());
        assert(entries.take(i as int) =~= entries);
        assert(before.push(Seq::empty()) =~= backtrace_lines(ips@, base));
        assert(text@ =~= backtrace_text(ips@, base));
    }
    text
}

/// The whole report of a panic whose description reads `message`, raised with
/// the frames `ips` active.
pub fn render_panic_report(message: &str, ips: &[usize], base: usize) -> (text: String)
    ensures
        text@ == panic_report_text(message@, ips@, base),
{
    let mut text = render_panic_line(message);
    let listing = render_backtrace(ips, base);
    text.append(listing.as_str());
    proof {
        lemma_unlines_concat(seq![panic_line(message@)], backtrace_lines(ips@, base));
    }
    text
}

/// Whether `text` stays on one line: it holds no line break.
pub open spec fn is_single_line(text: Seq<char>) -> bool {
    forall|i: int| 0 <= i < text.len() ==> text[i] != line_break()
}

/// Whether each of `lines` stays on one line.
pub open spec fn are_single_lines(lines: Seq<Seq<char>>) -> bool {
    forall|k: int| 0 <= k < lines.len() ==> is_single_line(#[trigger] lines[k])
}

/// The text of at least one line ends with a line break, and it holds at least
/// one character for each line.
proof fn lemma_unlines_ends_with_break(lines: Seq<Seq<char>>)
    ensures
        unlines(lines).len() >= lines.len(),
        lines.len() > 0 ==> unlines(lines).last() == line_break(),
    decreases lines.len(),
{
    if lines.len() > 0 {
        lemma_unlines_ends_with_break(lines.drop_last());
    }
}

/// A printed text can be taken apart into its lines in one way only: lines
/// that hold no line break and give the same text are the same lines.
pub proof fn lemma_text_determines_lines(first: Seq<Seq<char>>, second: Seq<Seq<char>>)
    requires
        are_single_lines(first),
        are_single_lines(second),
        unlines(first) == unlines(second),
    ensures
        first == second,
    decreases first.len(),
{
    let text = unlines(first);
    lemma_unlines_ends_with_break(first);
    lemma_unlines_ends_with_break(second);
    if first.len() == 0 || second.len() == 0 {
        assert(first.len() == 0 && second.len() == 0);
        assert(first =~= second);
    } else {
        let head_a = unlines(first.drop_last());
        let head_b = unlines(second.drop_last());
        let last_a = first.last();
        let last_b = second.last();
        lemma_unlines_ends_with_break(first.drop_last());
        lemma_unlines_ends_with_break(second.drop_last());
        assert(is_single_line(last_a));
        assert(is_single_line(last_b));
        assert(text.len() == head_a.len() + last_a.len() + 1);
        assert(text.len() == head_b.len() + last_b.len() + 1);
        if head_a.len() < head_b.len() {
            // the break that ends the head of `second` would lie inside the last line of `first`
            assert(second.drop_last().len() > 0);
            assert(text[head_b.len() - 1] == head_b.last());
            assert(text[head_b.len() - 1] == last_a[head_b.len() - 1 - head_a.len()]);
            assert(false);
        }
        if head_b.len() < head_a.len() {
            assert(first.drop_last().len() > 0);
            assert(text[head_a.len() - 1] == head_a.last());
            assert(text[head_a.len() - 1] == last_b[head_a.len() - 1 - head_b.len()]);
            assert(false);
        }
        assert(head_a =~= text.subrange(0, head_a.len() as int));
        assert(head_b =~= text.subrange(0, head_b.len() as int));
        assert(last_a =~= text.subrange(head_a.len() as int, text.len() - 1));
        assert(last_b =~= text.subrange(head_b.len() as int, text.len() - 1));
        assert forall|k: int| 0 <= k < first.drop_last().len() implies is_single_line(
            #[trigger] first.drop_last()[k],
        ) by {
            assert(first.drop_last()[k] == first[k]);
        }
        assert forall|k: int| 0 <= k < second.drop_last().len() implies is_single_line(
            #[trigger] second.drop_last()[k],
        ) by {
            assert(second.drop_last()[k] == second[k]);
        }
        lemma_text_determines_lines(first.drop_last(), second.drop_last());
        assert(first =~= first.drop_last().push(last_a));
        assert(second =~= second.drop_last().push(last_b));
    }
}

/// The line of a frame stays on one line and is never empty.
pub proof fn lemma_frame_entry_is_one_line(index: nat, offset: nat)
    ensures
        is_single_line(frame_entry(index, offset)),
        frame_entry(index, offset).len() >= index_width() + 5,
{
    reveal_strlit(": 0x");
    lemma_decimal_numeral(index);
    lemma_hex_numeral(offset);
    let number = decimal_digits(index);
    let field = right_aligned(number, index_width());
    let numeral = hex_digits(offset);
    let entry = frame_entry(index, offset);
    assert forall|i: int| 0 <= i < number.len() implies number[i] != line_break() by {
        let d = choose|d: int| 0 <= d < 10 && d < 16 && number[i] == #[trigger] digit_char(d);
        lemma_digit_chars(d);
    }
    assert forall|i: int| 0 <= i < numeral.len() implies numeral[i] != line_break() by {
        let d = choose|d: int| 0 <= d < 16 && d < 16 && numeral[i] == #[trigger] digit_char(d);
        lemma_digit_chars(d);
    }
    assert forall|i: int| 0 <= i < entry.len() implies entry[i] != line_break() by {
        if i < field.len() {
            if number.len() < index_width() && i >= index_width() - number.len() {
                assert(field[i] == number[i - (index_width() - number.len())]);
            } else if number.len() >= index_width() {
                assert(field[i] == number[i]);
            }
        } else if i < field.len() + 4 {
        } else {
            assert(entry[i] == numeral[i - field.len() - 4]);
        }
    }
}

/// A listing of `n` frames is made of `n + 2` lines, none of which runs over
/// into the next: the header; then one line for each frame, in the order of
/// the frames and numbered from zero upwards without a gap; then one empty
/// line, the only one in the listing. The printed text can be read as these
/// lines and as no others.
pub proof fn lemma_listing_has_one_line_per_frame(ips: Seq<usize>, base: usize)
    ensures
        backtrace_text(ips, base) == unlines(backtrace_lines(ips, base)),
        backtrace_lines(ips, base).len() == ips.len() + 2,
        backtrace_lines(ips, base)[0] == backtrace_header(),
        forall|k: int|
            1 <= k <= ips.len() ==> #[trigger] backtrace_lines(ips, base)[k] == frame_entry(
                (k - 1) as nat,
                offset_from(ips[k - 1], base) as nat,
            ),
        backtrace_lines(ips, base).last() == Seq::<char>::empty(),
        forall|k: int| 0 <= k <= ips.len() ==> (#[trigger] backtrace_lines(ips, base)[k]).len() > 0,
        are_single_lines(backtrace_lines(ips, base)),
        forall|lines: Seq<Seq<char>>|
            are_single_lines(lines) && #[trigger] unlines(lines) == backtrace_text(ips, base)
                ==> lines == backtrace_lines(ips, base),
{
    reveal_strlit("stack backtrace:");
    let lines = backtrace_lines(ips, base);
    let entries = frame_entries(ips, base);
    assert(lines.len() == ips.len() + 2);
    assert forall|k: int| 1 <= k <= ips.len() implies #[trigger] lines[k] == frame_entry(
        (k - 1) as nat,
        offset_from(ips[k - 1], base) as nat,
    ) && lines[k].len() > 0 && is_single_line(lines[k]) by {
        assert(lines[k] == entries[k - 1]);
        lemma_frame_entry_is_one_line((k - 1) as nat, offset_from(ips[k - 1], base) as nat);
    }
    assert(is_single_line(lines[0]));
    assert(is_single_line(lines[ips.len() as int + 1]));
    assert forall|k: int| 0 <= k < lines.len() implies is_single_line(#[trigger] lines[k]) by {
        if 1 <= k <= ips.len() {
        }
    }
    assert forall|others: Seq<Seq<char>>|
        are_single_lines(others) && #[trigger] unlines(others) == backtrace_text(
            ips,
            base,
        ) implies others == lines by {
        lemma_text_determines_lines(others, lines);
    }
}

/// The offset that a frame's line shows is the distance of the instruction
/// pointer from the base, or zero where the base lies above it: the numeral
/// denotes that number exactly, is made of hexadecimal digits alone, and never
/// stands for more than the address itself.
pub proof fn lemma_printed_offset_is_exact(index: nat, ip: usize, base: usize)
    ensures
        frame_entry(index, offset_from(ip, base) as nat) == right_aligned(
            decimal_digits(index),
            index_width(),
        ) + ": 0x"@ + hex_digits(offset_from(ip, base) as nat),
        numeral_value(hex_digits(offset_from(ip, base) as nat), 16) == offset_from(ip, base),
        forall|i: int|
            0 <= i < hex_digits(offset_from(ip, base) as nat).len() ==> is_digit(
                #[trigger] hex_digits(offset_from(ip, base) as nat)[i],
                16,
            ),
        0 <= offset_from(ip, base) <= ip,
        base > ip ==> hex_digits(offset_from(ip, base) as nat) == seq![digit_char(0)],
        base == 0 ==> hex_digits(offset_from(ip, base) as nat) == hex_digits(ip as nat),
{
    lemma_hex_numeral(offset_from(ip, base) as nat);
}

/// The listing depends on the frames and the base alone: the same stack gives
/// the same text, character by character and byte by byte.
pub proof fn lemma_listing_is_reproducible(
    first: Seq<char>,
    second: Seq<char>,
    ips: Seq<usize>,
    base: usize,
)
    requires
        first == backtrace_text(ips, base),
        second == backtrace_text(ips, base),
    ensures
        first == second,
        encode_utf8(first) == encode_utf8(second),
{
}

/// A report opens with the announcement: the prefix, then the description of
/// the panic, then a line break. The listing of the frames follows, and
/// nothing of it comes earlier.
pub proof fn lemma_report_opens_with_announcement(
    message: Seq<char>,
    ips: Seq<usize>,
    base: usize,
)
    ensures
        panic_report_text(message, ips, base) == panic_prefix() + message + seq![line_break()]
            + backtrace_text(ips, base),
        panic_report_text(message, ips, base).subrange(0, panic_prefix().len() as int)
            == panic_prefix(),
        panic_report_text(message, ips, base).subrange(
            panic_prefix().len() as int,
            (panic_prefix().len() + message.len()) as int,
        ) == message,
{
    lemma_unlines_concat(seq![panic_line(message)], backtrace_lines(ips, base));
    lemma_unlines_push(Seq::empty(), panic_line(message));
    assert(Seq::<Seq<char>>::empty().push(panic_line(message)) =~= seq![panic_line(message)]);
    assert(unlines(seq![panic_line(message)]) =~= panic_prefix() + message + seq![line_break()]);
    let report = panic_report_text(message, ips, base);
    assert(report =~= panic_prefix() + message + seq![line_break()] + backtrace_text(ips, base));
    assert(report.subrange(0, panic_prefix().len() as int) =~= panic_prefix());
    assert(report.subrange(
        panic_prefix().len() as int,
        (panic_prefix().len() + message.len()) as int,
    ) =~= message);
}

} // verus!
