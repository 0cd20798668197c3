use herdr::clock::Instant;
use herdr::metrics::{ArmMetrics, MarkerWait, Screen};
use herdr::screen::{
    append_visible, contains, digit_marker, escape_length, marker_for, visible_text, FrameEvent,
    VISIBLE_WINDOW,
};

fn at(nanos: u128) -> Instant {
    Instant { nanos }
}

#[test]
fn a_needle_is_found_wherever_it_lies() {
    assert!(contains(b"aaaaabbbbb", b"aaaaa"));
    assert!(contains(b"xaaaab", b"aaaab"));
    assert!(contains(b"ab", b"ab"));
    assert!(!contains(b"aaaa", b"aaaaa"));
    assert!(!contains(b"abab", b"bb"));
    assert!(!contains(b"", b"a"));
}

#[test]
fn the_window_forgets_the_oldest_text() {
    let mut buffer = vec![b'a'; VISIBLE_WINDOW - 1];
    append_visible(&mut buffer, b"b");
    assert_eq!(buffer.len(), VISIBLE_WINDOW);
    assert_eq!(buffer[0], b'a');
    append_visible(&mut buffer, b"cd");
    assert_eq!(buffer.len(), VISIBLE_WINDOW);
    assert_eq!(&buffer[VISIBLE_WINDOW - 3..], b"bcd");
    append_visible(&mut buffer, &vec![b'z'; 2 * VISIBLE_WINDOW]);
    assert_eq!(buffer, vec![b'z'; VISIBLE_WINDOW]);
}

#[test]
fn appending_in_pieces_is_appending_at_once() {
    let mut pieces = vec![b'a'; VISIBLE_WINDOW - 2];
    let mut whole = pieces.clone();
    append_visible(&mut pieces, b"bcd");
    append_visible(&mut pieces, b"efgh");
    append_visible(&mut whole, b"bcdefgh");
    assert_eq!(pieces, whole);
}

#[test]
fn escape_sequences_are_measured() {
    assert_eq!(escape_length(b""), 0);
    assert_eq!(escape_length(b"7rest"), 1);
    assert_eq!(escape_length(b"[31mred"), 4);
    assert_eq!(escape_length(b"[12;3"), 5);
    assert_eq!(escape_length(b"]0;title\x07text"), 9);
    assert_eq!(escape_length(b"Pq\x1b\\text"), 4);
    assert_eq!(escape_length(b"_never ended"), 12);
    assert_eq!(escape_length(b"^a\x1bb\x07"), 5);
    assert_eq!(escape_length(b"]x\x1b"), 3);
}

#[test]
fn visible_text_drops_escapes_and_controls() {
    assert_eq!(visible_text(b"plain text~"), b"plain text~".to_vec());
    assert_eq!(visible_text(b"a\x1b[31ma\x1b[0maaa"), b"aaaaa".to_vec());
    assert_eq!(visible_text(b"\x1b]0;title\x07ok\r\n\x7f\x80"), b"ok".to_vec());
    assert_eq!(visible_text(b"end\x1b"), b"end".to_vec());
    assert_eq!(visible_text(b""), Vec::<u8>::new());
}

#[test]
fn whole_frames_show_the_same_one_by_one_and_together() {
    let first: &[u8] = b"ab\x1b[1;1H";
    let second: &[u8] = b"cd\x1b(x";
    let mut apart = visible_text(first);
    apart.extend(visible_text(second));
    let together = visible_text(&[first, second].concat());
    assert_eq!(apart, together);
    // A frame cut inside an escape sequence does not.
    let mut cut = visible_text(b"ab\x1b[3");
    cut.extend(visible_text(b"1mcd"));
    assert_ne!(cut, visible_text(b"ab\x1b[31mcd"));
}

#[test]
fn markers_cycle_the_alphabet_and_never_share_a_letter_with_the_next() {
    assert_eq!(marker_for(0), "aaaaa");
    assert_eq!(marker_for(25), "zzzzz");
    assert_eq!(marker_for(26), "aaaaa");
    assert_eq!(marker_for(59), "hhhhh");
    for index in 0..60 {
        let one = marker_for(index);
        let next = marker_for(index + 1);
        assert!(one.chars().all(|c| !next.contains(c)));
    }
}

#[test]
fn number_markers_are_filled_with_zeros() {
    assert_eq!(digit_marker(5), "00005");
    assert_eq!(digit_marker(20), "00020");
    assert_eq!(digit_marker(123_456), "123456");
    assert_eq!(digit_marker(0), "00000");
    assert!(digit_marker(5).chars().all(|c| c.is_ascii_digit()));
}

#[test]
fn an_echo_is_found_across_frames_and_used_up() {
    let mut screen = Screen::new();
    let mut metrics = ArmMetrics::new("arm");
    let first = FrameEvent::new(at(10), b"$ aa\x1b[31m");
    let second = FrameEvent::new(at(20), b"a\x1b[0maa");
    assert_eq!(first.bytes, 9);
    screen.next_frame(&first, &mut metrics);
    assert_eq!(
        screen.wait_for_marker("aaaaa", at(10), at(99)),
        MarkerWait::AwaitFrame(at(99))
    );
    screen.next_frame(&second, &mut metrics);
    assert_eq!(
        screen.wait_for_marker("aaaaa", at(20), at(99)),
        MarkerWait::Seen(at(20))
    );
    assert!(screen.visible.is_empty());
    assert_eq!(
        screen.wait_for_marker("aaaaa", at(20), at(99)),
        MarkerWait::AwaitFrame(at(99))
    );
    assert_eq!(metrics.frames, 2);
    assert_eq!(metrics.frame_bytes, 16);
    screen.next_frame(&first, &mut metrics);
    screen.clear();
    assert!(screen.visible.is_empty());
}

#[test]
fn a_search_says_when_the_first_frame_with_the_echo_arrived() {
    let frames = [
        FrameEvent::new(at(10), b"$ "),
        FrameEvent::new(at(20), b"bb"),
        FrameEvent::new(at(30), b"bbb"),
        FrameEvent::new(at(40), b"bbbbb"),
    ];
    let mut screen = Screen::new();
    let mut metrics = ArmMetrics::new("arm");
    let mut seen = at(5);
    let mut taken = 0;
    let found = loop {
        match screen.wait_for_marker("bbbbb", seen, at(99)) {
            MarkerWait::Seen(at) => break at,
            MarkerWait::AwaitFrame(deadline) => {
                assert_eq!(deadline, at(99));
                screen.next_frame(&frames[taken], &mut metrics);
                seen = frames[taken].at;
                taken += 1;
            }
        }
    };
    assert_eq!(found, at(30));
    assert_eq!(taken, 3);
    assert_eq!(metrics.frames, 3);
    assert_eq!(metrics.frame_bytes, 7);
    assert_eq!(metrics.lost, 0);
}
