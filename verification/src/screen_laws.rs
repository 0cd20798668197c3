//! What frames show and how an echo is found in them, in terms of bytes.
use crate::screen::{
    control_end, escape_span, law_recent_echo_is_found,
    law_whole_frames_concatenate, lemma_decimal_is_digits, lemma_escape_span, letter_marker,
    occurs, occurs_at, string_end, visible, whole, windowed, MARKER_LENGTH,
};
use crate::text::{decimal, zero_padded};
use vstd::prelude::*;
use vstd::utf8::{encode_utf8, is_ascii_chars, is_ascii_chars_encode_utf8};

verus! {

/// Whether every byte is a printable character, from space to tilde.
pub open spec fn plain(bytes: Seq<u8>) -> bool {
    forall|i: int| 0 <= i < bytes.len() ==> 0x20 <= #[trigger] bytes[i] <= 0x7e
}

/// Text of bytes from 0x20 to 0x7e shows as it is.
pub proof fn law_printable_bytes_show(bytes: Seq<u8>)
    requires
        forall|i: int| 0 <= i < bytes.len() ==> 0x20 <= #[trigger] bytes[i] <= 0x7e,
    ensures
        visible(bytes) == bytes,
        whole(bytes),
    decreases bytes.len(),
{
    if bytes.len() > 0 {
        let rest = bytes.skip(1);
        assert forall|i: int| 0 <= i < rest.len() implies 0x20 <= #[trigger] rest[i] <= 0x7e by {
            assert(rest[i] == bytes[i + 1]);
        }
        law_printable_bytes_show(rest);
        assert(seq![bytes[0]] + rest =~= bytes);
    }
    assert(visible(bytes) =~= bytes);
}

/// A frame shows nothing but bytes from 0x20 to 0x7e.
pub proof fn law_only_printable_bytes_show(bytes: Seq<u8>)
    ensures
        plain(visible(bytes)),
    decreases bytes.len(),
{
    if bytes.len() > 0 {
        if bytes[0] == 0x1b {
            lemma_escape_span(bytes.skip(1));
            law_only_printable_bytes_show(bytes.skip(1 + escape_span(bytes.skip(1))));
        } else {
            law_only_printable_bytes_show(bytes.skip(1));
        }
    }
}

/// A byte that is neither printable nor an escape leaves no trace.
pub proof fn law_controls_leave_no_trace(byte: u8, rest: Seq<u8>)
    requires
        byte != 0x1b,
        !(0x20 <= byte <= 0x7e),
    ensures
        visible(seq![byte] + rest) == visible(rest),
{
    assert((seq![byte] + rest).skip(1) =~= rest);
}

/// A printable byte in front shows in front.
pub proof fn law_printable_byte_shows_first(byte: u8, rest: Seq<u8>)
    requires
        0x20 <= byte <= 0x7e,
    ensures
        visible(seq![byte] + rest) == seq![byte] + visible(rest),
{
    assert((seq![byte] + rest).skip(1) =~= rest);
}

proof fn lemma_escape_goes(body: Seq<u8>, rest: Seq<u8>)
    requires
        escape_span(body + rest) == body.len(),
    ensures
        visible(seq![0x1bu8] + body + rest) == visible(rest),
{
    let bytes = seq![0x1bu8] + body + rest;
    assert(bytes.skip(1) =~= body + rest);
    lemma_escape_span(body + rest);
    assert(bytes.skip(1 + body.len() as int) =~= rest);
}

/// A control sequence leaves no trace: `ESC [`, then bytes outside 0x40 to 0x7e,
/// then one of those.
pub proof fn law_control_sequences_leave_no_trace(params: Seq<u8>, last: u8, rest: Seq<u8>)
    requires
        forall|i: int|
            0 <= i < params.len() ==> !(0x40 <= (#[trigger] params[i]) && params[i] <= 0x7e),
        0x40 <= last <= 0x7e,
    ensures
        visible(seq![0x1bu8] + (seq![0x5bu8] + params + seq![last]) + rest) == visible(rest),
{
    let body = seq![0x5bu8] + params + seq![last];
    let all = body + rest;
    let at = params.len() + 1;
    assert forall|i: int| 1 <= i < at implies !(0x40 <= (#[trigger] all[i]) && all[i] <= 0x7e) by {
        assert(all[i] == params[i - 1]);
    }
    assert(all[at as int] == last);
    lemma_control_end(all, at as int);
    assert(all[0] == 0x5b);
    lemma_escape_goes(body, rest);
}

proof fn lemma_control_end(rest: Seq<u8>, at: int)
    requires
        1 <= at < rest.len(),
        forall|i: int| 1 <= i < at ==> !(0x40 <= (#[trigger] rest[i]) && rest[i] <= 0x7e),
        0x40 <= rest[at] <= 0x7e,
    ensures
        control_end(rest) == at,
{
    lemma_stop(rest.len() as int, 1, |i: int| crate::screen::is_final(rest[i]), at);
}

proof fn lemma_stop(len: int, from: int, stop: spec_fn(int) -> bool, at: int)
    requires
        from <= at < len,
        forall|i: int| from <= i < at ==> !#[trigger] stop(i),
        stop(at),
    ensures
        crate::screen::first_stop(len, from, stop) == at,
    decreases at - from,
{
    if from < at {
        assert(!stop(from));
        lemma_stop(len, from + 1, stop, at);
    }
}

proof fn lemma_no_stop(len: int, from: int, stop: spec_fn(int) -> bool)
    requires
        from <= len,
        forall|i: int| from <= i < len ==> !#[trigger] stop(i),
    ensures
        crate::screen::first_stop(len, from, stop) == len,
    decreases len - from,
{
    if from < len {
        assert(!stop(from));
        lemma_no_stop(len, from + 1, stop);
    }
}

/// Whether the byte opens a sequence that runs to a terminator: `]`, `P`, `_` or
/// `^`.
pub open spec fn opens_text(byte: u8) -> bool {
    byte == 0x5d || byte == 0x50 || byte == 0x5f || byte == 0x5e
}

/// Whether the text holds a terminator: BEL, or `ESC \`.
pub open spec fn ends_text(text: Seq<u8>) -> bool {
    exists|i: int|
        0 <= i < text.len() && ((#[trigger] text[i]) == 0x07 || text[i] == 0x1b && i + 1
            < text.len() && text[i + 1] == 0x5c)
}

/// A string sequence leaves no trace: `ESC` and its opener, then a text without a
/// terminator, then BEL or `ESC \`.
pub proof fn law_string_sequences_leave_no_trace(opener: u8, text: Seq<u8>, rest: Seq<u8>)
    requires
        opens_text(opener),
        !ends_text(text),
    ensures
        visible(seq![0x1bu8] + (seq![opener] + text + seq![0x07u8]) + rest) == visible(rest),
        visible(seq![0x1bu8] + (seq![opener] + text + seq![0x1bu8, 0x5cu8]) + rest) == visible(
            rest,
        ),
{
    let at = text.len() + 1;
    let bell = seq![opener] + text + seq![0x07u8];
    let belled = bell + rest;
    lemma_text_end(belled, text, at as int);
    assert(belled[at as int] == 0x07);
    lemma_escape_goes(bell, rest);
    let ended = seq![opener] + text + seq![0x1bu8, 0x5cu8];
    let strung = ended + rest;
    lemma_text_end(strung, text, at as int);
    assert(strung[at as int] == 0x1b);
    lemma_escape_goes(ended, rest);
}

proof fn lemma_text_end(all: Seq<u8>, text: Seq<u8>, at: int)
    requires
        at == text.len() + 1,
        at < all.len(),
        opens_text(all[0]),
        forall|i: int| 0 <= i < text.len() ==> #[trigger] text[i] == all[i + 1],
        !ends_text(text),
        all[at] == 0x07 || (all[at] == 0x1b && at + 1 < all.len() && all[at + 1] == 0x5c),
    ensures
        string_end(all) == at,
{
    let stop = |i: int| crate::screen::terminates(all, i);
    assert forall|i: int| 1 <= i < at implies !#[trigger] stop(i) by {
        assert(text[i - 1] == all[i]);
        if i < text.len() {
            assert(text[i] == all[i + 1]);
        }
    }
    lemma_stop(all.len() as int, 1, stop, at);
}

/// Any other escape is two bytes long. One that is cut off hides the rest of its
/// frame, and an `ESC` at the end hides nothing else.
pub proof fn law_other_escapes(byte: u8, rest: Seq<u8>)
    requires
        byte != 0x5b,
        !opens_text(byte),
    ensures
        visible(seq![0x1bu8] + seq![byte] + rest) == visible(rest),
        visible(seq![0x1bu8]) == Seq::<u8>::empty(),
{
    assert((seq![byte] + rest)[0] == byte);
    lemma_escape_goes(seq![byte], rest);
    let lone = seq![0x1bu8];
    assert(lone.skip(1) =~= Seq::<u8>::empty());
    lemma_escape_span(lone.skip(1));
    assert(lone.skip(1 + escape_span(lone.skip(1))) =~= Seq::<u8>::empty());
    assert(visible(Seq::<u8>::empty()) =~= Seq::<u8>::empty());
}

/// A control or string sequence that is cut off hides the rest of its frame.
pub proof fn law_cut_off_sequences_hide_the_rest(opener: u8, rest: Seq<u8>)
    requires
        opener == 0x5b ==> forall|i: int|
            0 <= i < rest.len() ==> !(0x40 <= (#[trigger] rest[i]) && rest[i] <= 0x7e),
        opener != 0x5b ==> opens_text(opener) && !ends_text(rest),
    ensures
        visible(seq![0x1bu8] + (seq![opener] + rest)) == Seq::<u8>::empty(),
{
    let body = seq![opener] + rest;
    let bytes = seq![0x1bu8] + body;
    assert(bytes.skip(1) =~= body);
    assert(body[0] == opener);
    if opener == 0x5b {
        let stop = |i: int| crate::screen::is_final(body[i]);
        assert forall|i: int| 1 <= i < body.len() implies !#[trigger] stop(i) by {
            assert(body[i] == rest[i - 1]);
        }
        lemma_no_stop(body.len() as int, 1, stop);
    } else {
        let stop = |i: int| crate::screen::terminates(body, i);
        assert forall|i: int| 1 <= i < body.len() implies !#[trigger] stop(i) by {
            assert(body[i] == rest[i - 1]);
            if i < rest.len() {
                assert(body[i + 1] == rest[i]);
            }
        }
        lemma_no_stop(body.len() as int, 1, stop);
    }
    assert(bytes.skip(1 + body.len() as int) =~= Seq::<u8>::empty());
    assert(visible(Seq::<u8>::empty()) =~= Seq::<u8>::empty());
}

/// Plain text in front of a frame shows in front of what the frame shows.
pub proof fn law_text_before_a_frame_shows(text: Seq<u8>, frame: Seq<u8>)
    requires
        plain(text),
    ensures
        visible(text + frame) == text + visible(frame),
{
    law_printable_bytes_show(text);
    law_whole_frames_concatenate(text, frame);
}

/// A needle stands in a text exactly if the text is something, the needle, and
/// something.
pub proof fn law_occurs_means_it_stands_there(
    haystack: Seq<u8>,
    before: Seq<u8>,
    needle: Seq<u8>,
    after: Seq<u8>,
)
    ensures
        haystack == before + needle + after ==> occurs(haystack, needle),
        occurs(haystack, needle) ==> exists|i: int|
            {
                &&& 0 <= i
                &&& i + needle.len() <= haystack.len()
                &&& haystack == #[trigger] haystack.take(i) + needle + haystack.skip(
                    i + needle.len(),
                )
            },
{
    if haystack == before + needle + after {
        let i = before.len() as int;
        assert(haystack.subrange(i, i + needle.len()) =~= needle);
        assert(occurs_at(haystack, needle, i));
    }
    if occurs(haystack, needle) {
        let i = choose|i: int| occurs_at(haystack, needle, i);
        assert(haystack =~= haystack.take(i) + haystack.subrange(i, i + needle.len())
            + haystack.skip(i + needle.len()));
    }
}

/// The window holds the last 8192 bytes, or all where there are fewer.
pub proof fn law_window_holds_the_end(text: Seq<u8>)
    ensures
        text.len() <= 8192 ==> windowed(text) == text,
        text.len() > 8192 ==> windowed(text).len() == 8192 && forall|i: int|
            0 <= i < 8192 ==> #[trigger] windowed(text)[i] == text[text.len() - 8192 + i],
{
}

/// The letter marker of a number is five times one letter: the one that stands as
/// far behind `a` as the number modulo 26.
pub proof fn law_letter_markers(index: int, i: int)
    requires
        0 <= index,
        0 <= i < 5,
    ensures
        letter_marker(index).len() == 5,
        letter_marker(index)[i] as int == 97 + index % 26,
{
}

/// A number marker is written with the digits `0` to `9`: five of them, or more
/// where the number takes more.
pub proof fn law_number_markers(number: nat)
    ensures
        zero_padded(number, MARKER_LENGTH as nat).len() >= 5,
        number < 100_000 ==> zero_padded(number, MARKER_LENGTH as nat).len() == 5,
        forall|i: int|
            0 <= i < zero_padded(number, MARKER_LENGTH as nat).len() ==> 48 <= (#[trigger] zero_padded(
                number,
                MARKER_LENGTH as nat,
            )[i]) as int <= 57,
{
    let padded = zero_padded(number, MARKER_LENGTH as nat);
    let digits = decimal(number);
    let fill = padded.len() - digits.len();
    lemma_decimal_is_digits(number);
    if number < 100_000 {
        reveal_with_fuel(decimal, 6);
    }
    assert forall|i: int| 0 <= i < padded.len() implies 48 <= (#[trigger] padded[i]) as int <= 57 by {
        if i >= fill {
            assert(padded[i] == digits[i - fill]);
        }
    }
}

proof fn lemma_ascii_text_is_plain(text: Seq<char>)
    requires
        forall|i: int| 0 <= i < text.len() ==> 0x20 <= (#[trigger] text[i]) as int <= 0x7e,
    ensures
        encode_utf8(text).len() == text.len(),
        plain(encode_utf8(text)),
{
    assert(is_ascii_chars(text));
    is_ascii_chars_encode_utf8(text);
}

/// A frame that echoes a letter marker shows it, and the window then holds it,
/// whatever was shown before.
pub proof fn law_letter_echo_is_found(index: int, shown: Seq<u8>)
    requires
        0 <= index,
    ensures
        ({
            let marker = encode_utf8(letter_marker(index));
            &&& visible(marker) == marker
            &&& occurs(windowed(shown + visible(marker)), marker)
        }),
{
    let text = letter_marker(index);
    let marker = encode_utf8(text);
    assert forall|i: int| 0 <= i < text.len() implies 0x20 <= (#[trigger] text[i]) as int <= 0x7e by {
        law_letter_markers(index, i);
    }
    lemma_ascii_text_is_plain(text);
    law_printable_bytes_show(marker);
    law_recent_echo_is_found(shown, marker, Seq::empty());
    assert(marker + Seq::<u8>::empty() =~= marker);
}

/// A frame that echoes a number marker shows it, and the window then holds it,
/// whatever was shown before.
pub proof fn law_number_echo_is_found(number: nat, shown: Seq<u8>)
    requires
        zero_padded(number, MARKER_LENGTH as nat).len() <= 8192,
    ensures
        ({
            let marker = encode_utf8(zero_padded(number, MARKER_LENGTH as nat));
            &&& visible(marker) == marker
            &&& occurs(windowed(shown + visible(marker)), marker)
        }),
{
    let text = zero_padded(number, MARKER_LENGTH as nat);
    let marker = encode_utf8(text);
    law_number_markers(number);
    assert forall|i: int| 0 <= i < text.len() implies 0x20 <= (#[trigger] text[i]) as int <= 0x7e by {
        assert(48 <= zero_padded(number, MARKER_LENGTH as nat)[i] as int <= 57);
    }
    lemma_ascii_text_is_plain(text);
    law_printable_bytes_show(marker);
    law_recent_echo_is_found(shown, marker, Seq::empty());
    assert(marker + Seq::<u8>::empty() =~= marker);
}

} // verus!
