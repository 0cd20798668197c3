//! What a terminal frame shows: the text between the escape sequences, and the
//! markers looked for in it.
use crate::clock::Instant;
use crate::text::{decimal, zero_padded, zero_padded_text};
use vstd::prelude::*;
use vstd::slice::slice_subrange;
use vstd::string::StrSliceExecFns;
use vstd::string::StringExecFns;

verus! {

/// Rolling window of visible frame text searched for a marker echo. Frames are
/// diffs, so an echo can straddle two of them.
pub const VISIBLE_WINDOW: usize = 8192;

/// Characters in one marker. Long enough that no shell prompt or status text
/// can contain it by accident.
pub const MARKER_LENGTH: usize = 5;

pub const ESC: u8 = 0x1b;

/// Whether `needle` stands in `haystack` at `i`.
pub open spec fn occurs_at(haystack: Seq<u8>, needle: Seq<u8>, i: int) -> bool {
    &&& 0 <= i <= haystack.len() - needle.len()
    &&& haystack.subrange(i, i + needle.len()) == needle
}

/// Whether `needle` stands anywhere in `haystack`.
pub open spec fn occurs(haystack: Seq<u8>, needle: Seq<u8>) -> bool {
    exists|i: int| occurs_at(haystack, needle, i)
}

pub fn contains(haystack: &[u8], needle: &[u8]) -> (found: bool)
    requires
        needle@.len() > 0,
    ensures
        found == occurs(haystack@, needle@),
{
    if haystack.len() < needle.len() {
        return false;
    }
    let last: usize = haystack.len() - needle.len();
    let mut start: usize = 0;
    while start <= last
        invariant
            needle@.len() > 0,
            last + needle@.len() == haystack@.len(),
            start <= last + 1,
            forall|i: int| 0 <= i < start ==> !occurs_at(haystack@, needle@, i),
        decreases last + 1 - start,
    {
        let mut offset: usize = 0;
        while offset < needle.len() && haystack[start + offset] == needle[offset]
            invariant
                start <= last,
                last + needle.len() == haystack.len(),
                offset <= needle@.len(),
                forall|j: int| 0 <= j < offset ==> haystack@[start + j] == needle@[j],
            decreases needle@.len() - offset,
        {
            offset = offset + 1;
        }
        if offset == needle.len() {
            proof {
                assert(haystack@.subrange(start as int, start + needle@.len()) =~= needle@);
                assert(occurs_at(haystack@, needle@, start as int));
            }
            return true;
        }
        proof {
            if occurs_at(haystack@, needle@, start as int) {
                assert(haystack@.subrange(start as int, start + needle@.len())[offset as int]
                    == needle@[offset as int]);
            }
        }
        start = start + 1;
    }
    false
}

/// The end of a text, at most a window long.
pub open spec fn windowed(text: Seq<u8>) -> Seq<u8> {
    if text.len() > VISIBLE_WINDOW {
        text.skip(text.len() - VISIBLE_WINDOW)
    } else {
        text
    }
}

pub fn append_visible(buffer: &mut Vec<u8>, bytes: &[u8])
    ensures
        final(buffer)@ == windowed(old(buffer)@ + bytes@),
{
    buffer.extend_from_slice(bytes);
    assert(buffer@ =~= old(buffer)@ + bytes@);
    if buffer.len() > VISIBLE_WINDOW {
        let excess: usize = buffer.len() - VISIBLE_WINDOW;
        let kept = buffer.split_off(excess);
        *buffer = kept;
    }
}

/// The first index from `from` on where `stop` holds, or the length.
pub open spec fn first_stop(len: int, from: int, stop: spec_fn(int) -> bool) -> int
    decreases len - from,
{
    if from >= len {
        len
    } else if stop(from) {
        from
    } else {
        first_stop(len, from + 1, stop)
    }
}

/// Whether the byte ends a control sequence.
pub open spec fn is_final(byte: u8) -> bool {
    0x40 <= byte <= 0x7e
}

/// Whether the bytes open a string sequence: OSC, DCS, APC or PM.
pub open spec fn opens_string(byte: u8) -> bool {
    byte == 0x5d || byte == 0x50 || byte == 0x5f || byte == 0x5e
}

/// Whether a string sequence ends at `i`: with BEL, or with `ESC \`.
pub open spec fn terminates(rest: Seq<u8>, i: int) -> bool {
    ||| rest[i] == 0x07
    ||| rest[i] == ESC && i + 1 < rest.len() && rest[i + 1] == 0x5c
}

/// Where the control sequence that `rest` opens has its final byte.
pub open spec fn control_end(rest: Seq<u8>) -> int {
    first_stop(rest.len() as int, 1, |i: int| is_final(rest[i]))
}

/// Where the string sequence that `rest` opens has its terminator.
pub open spec fn string_end(rest: Seq<u8>) -> int {
    first_stop(rest.len() as int, 1, |i: int| terminates(rest, i))
}

/// How many of the bytes behind an `ESC` belong to its sequence. One that is cut
/// off reaches to the end.
pub open spec fn escape_span(rest: Seq<u8>) -> int {
    if rest.len() == 0 {
        0
    } else if rest[0] == 0x5b {
        if control_end(rest) < rest.len() {
            control_end(rest) + 1
        } else {
            rest.len() as int
        }
    } else if opens_string(rest[0]) {
        if string_end(rest) >= rest.len() {
            rest.len() as int
        } else if rest[string_end(rest)] == 0x07 {
            string_end(rest) + 1
        } else {
            string_end(rest) + 2
        }
    } else {
        1
    }
}

proof fn lemma_first_stop(len: int, from: int, stop: spec_fn(int) -> bool, at: int)
    requires
        from <= at <= len,
        forall|i: int| from <= i < at ==> !#[trigger] stop(i),
        at < len ==> stop(at),
    ensures
        first_stop(len, from, stop) == at,
    decreases at - from,
{
    if from < at {
        assert(!stop(from));
        lemma_first_stop(len, from + 1, stop, at);
    }
}

proof fn lemma_first_stop_found(len: int, from: int, stop: spec_fn(int) -> bool)
    requires
        from <= len,
    ensures
        from <= first_stop(len, from, stop) <= len,
        first_stop(len, from, stop) < len ==> stop(first_stop(len, from, stop)),
        forall|i: int| from <= i < first_stop(len, from, stop) ==> !#[trigger] stop(i),
    decreases len - from,
{
    if from < len && !stop(from) {
        lemma_first_stop_found(len, from + 1, stop);
    }
}

/// The span lies within the bytes, and takes in at least one where there is one.
pub proof fn lemma_escape_span(rest: Seq<u8>)
    ensures
        0 <= escape_span(rest) <= rest.len(),
        rest.len() > 0 ==> escape_span(rest) >= 1,
{
    if rest.len() > 0 {
        lemma_first_stop_found(rest.len() as int, 1, |i: int| is_final(rest[i]));
        lemma_first_stop_found(rest.len() as int, 1, |i: int| terminates(rest, i));
    }
}

/// Length of the escape sequence body after an `ESC`.
pub fn escape_length(rest: &[u8]) -> (length: usize)
    ensures
        length == escape_span(rest@),
        length <= rest@.len(),
{
    proof {
        lemma_escape_span(rest@);
    }
    if rest.len() == 0 {
        return 0;
    }
    let opener: u8 = rest[0];
    if opener == 0x5b {
        let ghost stop = |i: int| is_final(rest@[i]);
        let mut index: usize = 1;
        while index < rest.len() && !(0x40 <= rest[index] && rest[index] <= 0x7e)
            invariant
                1 <= index <= rest@.len(),
                forall|i: int| 1 <= i < index ==> !is_final(rest@[i]),
            decreases rest@.len() - index,
        {
            index = index + 1;
        }
        proof {
            lemma_first_stop(rest@.len() as int, 1, stop, index as int);
        }
        if index < rest.len() {
            index + 1
        } else {
            rest.len()
        }
    } else if opener == 0x5d || opener == 0x50 || opener == 0x5f || opener == 0x5e {
        let ghost stop = |i: int| terminates(rest@, i);
        let mut index: usize = 1;
        while index < rest.len()
            invariant
                1 <= index <= rest@.len(),
                opens_string(rest@[0]),
                stop == (|i: int| terminates(rest@, i)),
                forall|i: int| 1 <= i < index ==> !terminates(rest@, i),
            decreases rest@.len() - index,
        {
            if rest[index] == 0x07 {
                proof {
                    lemma_first_stop(rest@.len() as int, 1, stop, index as int);
                }
                return index + 1;
            }
            if rest[index] == ESC && index + 1 < rest.len() && rest[index + 1] == 0x5c {
                proof {
                    lemma_first_stop(rest@.len() as int, 1, stop, index as int);
                }
                return index + 2;
            }
            index = index + 1;
        }
        proof {
            lemma_first_stop(rest@.len() as int, 1, stop, rest@.len() as int);
        }
        rest.len()
    } else {
        1
    }
}

/// Whether the byte is a printable character.
pub open spec fn printable(byte: u8) -> bool {
    0x20 <= byte < 0x7f
}

/// The printable text of a frame, its escape sequences removed.
pub open spec fn visible(bytes: Seq<u8>) -> Seq<u8>
    decreases bytes.len(),
{
    if bytes.len() == 0 {
        seq![]
    } else if bytes[0] == ESC {
        proof {
            lemma_escape_span(bytes.skip(1));
        }
        visible(bytes.skip(1 + escape_span(bytes.skip(1))))
    } else if printable(bytes[0]) {
        seq![bytes[0]] + visible(bytes.skip(1))
    } else {
        visible(bytes.skip(1))
    }
}

/// Printable text of a frame with escape sequences removed. Frames are ANSI
/// diffs, and an echoed run may be split across cursor moves or style changes,
/// so a marker is only reliably contiguous once the escapes are gone.
pub fn visible_text(bytes: &[u8]) -> (out: Vec<u8>)
    ensures
        out@ == visible(bytes@),
{
    let mut out: Vec<u8> = Vec::with_capacity(bytes.len());
    let mut index: usize = 0;
    assert(bytes@.skip(0) =~= bytes@);
    assert(out@ + visible(bytes@) =~= visible(bytes@));
    while index < bytes.len()
        invariant
            index <= bytes@.len(),
            out@ + visible(bytes@.skip(index as int)) == visible(bytes@),
        decreases bytes@.len() - index,
    {
        let byte: u8 = bytes[index];
        let ghost left = bytes@.skip(index as int);
        assert(left.skip(1) =~= bytes@.skip(index + 1));
        if byte == ESC {
            let rest = slice_subrange(bytes, index + 1, bytes.len());
            assert(rest@ =~= left.skip(1));
            let length: usize = escape_length(rest);
            assert(left.skip(1 + length as int) =~= bytes@.skip(index + 1 + length));
            index = index + 1 + length;
        } else {
            let ghost before = out@;
            if 0x20 <= byte && byte < 0x7f {
                out.push(byte);
                assert(before + (seq![byte] + visible(left.skip(1))) =~= out@ + visible(
                    left.skip(1),
                ));
            }
            index = index + 1;
        }
    }
    assert(bytes@.skip(index as int) =~= Seq::<u8>::empty());
    assert(out@ + visible(bytes@.skip(index as int)) =~= out@);
    out
}

/// A terminal frame as it arrived.
pub struct FrameEvent {
    pub at: Instant,
    /// Length of its payload.
    pub bytes: usize,
    /// The text it shows.
    pub visible: Vec<u8>,
}

impl FrameEvent {
    pub fn new(at: Instant, payload: &[u8]) -> (event: FrameEvent)
        ensures
            event.at == at,
            event.bytes == payload@.len(),
            event.visible@ == visible(payload@),
    {
        FrameEvent { at, bytes: payload.len(), visible: visible_text(payload) }
    }
}

/// The letter of the `index`-th marker.
pub open spec fn marker_letter(index: int) -> char {
    (97 + index % 26) as char
}

/// The `index`-th letter marker.
pub open spec fn letter_marker(index: int) -> Seq<char> {
    Seq::new(MARKER_LENGTH as nat, |i: int| marker_letter(index))
}

/// Marker for the `index`-th keystroke: one letter repeated, cycling the
/// alphabet. Frames are diffs, and consecutive markers must differ in *every*
/// character; otherwise a server that coalesces the line-erase with the next
/// keystroke emits only the changed cell and the echo would be unrecognizable
/// rather than late.
pub fn marker_for(index: usize) -> (marker: String)
    ensures
        marker@ == letter_marker(index as int),
{
    let alphabet: &'static str = "abcdefghijklmnopqrstuvwxyz";
    let position: usize = index % 26;
    proof {
        reveal_strlit("abcdefghijklmnopqrstuvwxyz");
    }
    let letter = alphabet.substring_char(position, position + 1);
    proof {
        assert(letter@ =~= seq![marker_letter(index as int)]);
    }
    let mut marker = String::new();
    let mut written: usize = 0;
    while written < MARKER_LENGTH
        invariant
            written <= MARKER_LENGTH,
            letter@ == seq![marker_letter(index as int)],
            marker@ == Seq::new(written as nat, |i: int| marker_letter(index as int)),
        decreases MARKER_LENGTH - written,
    {
        marker.append(letter);
        written = written + 1;
        assert(marker@ =~= Seq::new(written as nat, |i: int| marker_letter(index as int)));
    }
    marker
}

/// Marker that reads as a number, for input typed while the path is dead.
pub fn digit_marker(number: u64) -> (marker: String)
    ensures
        marker@ == zero_padded(number as nat, MARKER_LENGTH as nat),
{
    zero_padded_text(number as u128, MARKER_LENGTH)
}


/// Appending in pieces or at once leaves the same window.
pub proof fn law_appends_compose(text: Seq<u8>, first: Seq<u8>, second: Seq<u8>)
    ensures
        windowed(windowed(text + first) + second) == windowed(text + (first + second)),
        windowed(text + first).len() <= VISIBLE_WINDOW,
{
    assert(windowed(windowed(text + first) + second) =~= windowed(text + (first + second)));
}

/// What the last appended bytes hold is still found, up to the window's length:
/// an echo that straddles two frames is seen once both are there.
pub proof fn law_recent_echo_is_found(text: Seq<u8>, marker: Seq<u8>, tail: Seq<u8>)
    requires
        marker.len() > 0,
        marker.len() + tail.len() <= VISIBLE_WINDOW,
    ensures
        occurs(windowed(text + (marker + tail)), marker),
{
    let whole = text + (marker + tail);
    let window = windowed(whole);
    let at = window.len() - tail.len() - marker.len();
    assert(window.subrange(at, at + marker.len()) =~= marker);
    assert(occurs_at(window, marker, at));
}

/// A frame shows printable characters only.
pub proof fn law_visible_is_printable(bytes: Seq<u8>)
    ensures
        forall|i: int| 0 <= i < visible(bytes).len() ==> printable(#[trigger] visible(bytes)[i]),
        visible(bytes).len() <= bytes.len(),
    decreases bytes.len(),
{
    if bytes.len() > 0 {
        if bytes[0] == ESC {
            lemma_escape_span(bytes.skip(1));
            law_visible_is_printable(bytes.skip(1 + escape_span(bytes.skip(1))));
        } else {
            law_visible_is_printable(bytes.skip(1));
        }
    }
}

/// Plain text shows as it is.
pub proof fn law_plain_text_is_unchanged(bytes: Seq<u8>)
    requires
        forall|i: int| 0 <= i < bytes.len() ==> printable(#[trigger] bytes[i]),
    ensures
        visible(bytes) == bytes,
    decreases bytes.len(),
{
    if bytes.len() > 0 {
        let rest = bytes.skip(1);
        assert forall|i: int| 0 <= i < rest.len() implies printable(#[trigger] rest[i]) by {
            assert(rest[i] == bytes[i + 1]);
        }
        law_plain_text_is_unchanged(rest);
        assert(seq![bytes[0]] + rest =~= bytes);
    }
    assert(visible(bytes) =~= bytes);
}

/// Whether the sequence that stands behind an `ESC` comes to its end in `rest`.
pub open spec fn complete(rest: Seq<u8>) -> bool {
    if rest.len() == 0 {
        false
    } else if rest[0] == 0x5b {
        control_end(rest) < rest.len()
    } else if opens_string(rest[0]) {
        string_end(rest) < rest.len()
    } else {
        true
    }
}

/// Whether the bytes break off outside any escape sequence.
pub open spec fn whole(bytes: Seq<u8>) -> bool
    decreases bytes.len(),
{
    if bytes.len() == 0 {
        true
    } else if bytes[0] == ESC {
        proof {
            lemma_escape_span(bytes.skip(1));
        }
        complete(bytes.skip(1)) && whole(bytes.skip(1 + escape_span(bytes.skip(1))))
    } else {
        whole(bytes.skip(1))
    }
}

proof fn lemma_complete_span(rest: Seq<u8>, more: Seq<u8>)
    requires
        complete(rest),
    ensures
        escape_span(rest + more) == escape_span(rest),
{
    let longer = rest + more;
    assert(longer[0] == rest[0]);
    if rest[0] == 0x5b {
        let stop = |i: int| is_final(rest[i]);
        let longer_stop = |i: int| is_final(longer[i]);
        lemma_first_stop_found(rest.len() as int, 1, stop);
        let end = control_end(rest);
        assert forall|i: int| 1 <= i < end implies !#[trigger] longer_stop(i) by {
            assert(!stop(i));
        }
        lemma_first_stop(longer.len() as int, 1, longer_stop, end);
    } else if opens_string(rest[0]) {
        let stop = |i: int| terminates(rest, i);
        let longer_stop = |i: int| terminates(longer, i);
        lemma_first_stop_found(rest.len() as int, 1, stop);
        let end = string_end(rest);
        assert forall|i: int| 1 <= i < end implies !#[trigger] longer_stop(i) by {
            assert(!stop(i));
        }
        lemma_first_stop(longer.len() as int, 1, longer_stop, end);
    }
}

/// Frames that break off between sequences show, one after the other, what they
/// show together.
pub proof fn law_whole_frames_concatenate(first: Seq<u8>, second: Seq<u8>)
    requires
        whole(first),
    ensures
        visible(first + second) == visible(first) + visible(second),
    decreases first.len(),
{
    let both = first + second;
    if first.len() == 0 {
        assert(both =~= second);
        assert(visible(first) + visible(second) =~= visible(second));
    } else if first[0] == ESC {
        let rest = first.skip(1);
        lemma_escape_span(rest);
        lemma_complete_span(rest, second);
        let span = escape_span(rest);
        assert(both.skip(1) =~= rest + second);
        assert(both.skip(1 + span) =~= first.skip(1 + span) + second);
        law_whole_frames_concatenate(first.skip(1 + span), second);
    } else {
        law_whole_frames_concatenate(first.skip(1), second);
        assert(both.skip(1) =~= first.skip(1) + second);
        assert(visible(both) =~= visible(first) + visible(second));
    }
}

/// A run of text that a complete escape sequence splits shows in one piece.
pub proof fn law_escapes_do_not_split_text(before: Seq<u8>, sequence: Seq<u8>, after: Seq<u8>)
    requires
        forall|i: int| 0 <= i < before.len() ==> printable(#[trigger] before[i]),
        forall|i: int| 0 <= i < after.len() ==> printable(#[trigger] after[i]),
        complete(sequence),
        escape_span(sequence) == sequence.len(),
    ensures
        visible(before + (seq![ESC] + sequence) + after) == before + after,
{
    let escape = seq![ESC] + sequence;
    assert(escape.skip(1) =~= sequence);
    assert(escape.skip(1 + sequence.len() as int) =~= Seq::<u8>::empty());
    assert(escape[0] == ESC);
    assert(whole(Seq::<u8>::empty()));
    assert(whole(escape));
    assert(visible(Seq::<u8>::empty()) =~= Seq::<u8>::empty());
    assert(visible(escape) =~= Seq::<u8>::empty());
    lemma_plain_is_whole(before);
    law_plain_text_is_unchanged(before);
    law_plain_text_is_unchanged(after);
    law_whole_frames_concatenate(escape, after);
    law_whole_frames_concatenate(before, escape + after);
    assert(before + escape + after =~= before + (escape + after));
    assert(before + (Seq::<u8>::empty() + after) =~= before + after);
}

proof fn lemma_plain_is_whole(bytes: Seq<u8>)
    requires
        forall|i: int| 0 <= i < bytes.len() ==> printable(#[trigger] bytes[i]),
    ensures
        whole(bytes),
    decreases bytes.len(),
{
    if bytes.len() > 0 {
        let rest = bytes.skip(1);
        assert forall|i: int| 0 <= i < rest.len() implies printable(#[trigger] rest[i]) by {
            assert(rest[i] == bytes[i + 1]);
        }
        lemma_plain_is_whole(rest);
    }
}

/// Consecutive markers differ in every character.
pub proof fn law_consecutive_markers_differ_everywhere(index: int, i: int, j: int)
    requires
        0 <= index,
        0 <= i < MARKER_LENGTH,
        0 <= j < MARKER_LENGTH,
    ensures
        letter_marker(index)[i] != letter_marker(index + 1)[j],
        letter_marker(index).len() == MARKER_LENGTH,
{
}

/// The markers cycle through the alphabet.
pub proof fn law_markers_cycle(index: int)
    requires
        0 <= index,
    ensures
        letter_marker(index + 26) == letter_marker(index),
{
    assert(letter_marker(index + 26) =~= letter_marker(index));
}

/// A number written in decimal has digits only.
pub proof fn lemma_decimal_is_digits(n: nat)
    ensures
        decimal(n).len() >= 1,
        forall|i: int|
            0 <= i < decimal(n).len() ==> '0' <= #[trigger] decimal(n)[i] && decimal(n)[i] <= '9',
    decreases n,
{
    if n >= 10 {
        lemma_decimal_is_digits(n / 10);
    }
}

/// A number marker shares no character with any letter marker, so neither can be
/// taken for the other.
pub proof fn law_digit_markers_are_not_letters(number: nat, index: int, i: int, j: int)
    requires
        0 <= index,
        0 <= i < zero_padded(number, MARKER_LENGTH as nat).len(),
        0 <= j < MARKER_LENGTH,
    ensures
        zero_padded(number, MARKER_LENGTH as nat)[i] != letter_marker(index)[j],
        zero_padded(number, MARKER_LENGTH as nat).len() >= MARKER_LENGTH,
{
    lemma_decimal_is_digits(number);
    let padded = zero_padded(number, MARKER_LENGTH as nat);
    let fill = padded.len() - decimal(number).len();
    if i >= fill {
        assert(padded[i] == decimal(number)[i - fill]);
    }
}

} // verus!
