use byte_cursor::Cursor;

#[test]
fn skip_ascii_whitespace() {
    let mut cursor = Cursor::new(b"a\n\t\x0C\r");

    cursor.skip_ascii_whitespace();
    assert_eq!(cursor.peek(), Some(b'a'));

    cursor.advance();
    cursor.skip_ascii_whitespace();

    assert_eq!(cursor.peek(), None)
}

#[test]
fn position() {
    let slice = b"abc";
    let mut cursor = Cursor::new(slice);

    cursor.advance();

    let position = cursor.position();

    cursor.advance();

    assert_eq!(&slice[1..2], position.slice_to(cursor.position()));
}

#[test]
fn bytes_consumed() {
    let mut cursor = Cursor::new(b"ab");
    assert_eq!(cursor.bytes_consumed(), 0);
    cursor.advance();
    assert_eq!(cursor.bytes_consumed(), 1);
    cursor.advance();
    assert_eq!(cursor.bytes_consumed(), 2);
}

#[test]
fn next_lfn() {
    let mut cursor = Cursor::new("A\r\nB\nC\rD".as_bytes());
    assert_eq!(cursor.next_lfn(), Some(b'A'));
    assert_eq!(cursor.next_lfn(), Some(b'\n'));
    assert_eq!(cursor.next_lfn(), Some(b'B'));
    assert_eq!(cursor.next_lfn(), Some(b'\n'));
    assert_eq!(cursor.next_lfn(), Some(b'C'));
    assert_eq!(cursor.next_lfn(), Some(b'\n'));
    assert_eq!(cursor.next_lfn(), Some(b'D'));
    assert_eq!(cursor.next_lfn(), None);
    assert_eq!(cursor.next_lfn(), None);
}

#[test]
fn next() {
    let mut cursor = Cursor::new("AB".as_bytes());
    assert_eq!(cursor.next(), Some(b'A'));
    assert_eq!(cursor.next(), Some(b'B'));
    assert_eq!(cursor.next(), None);
}

#[test]
fn peek() {
    let mut cursor = Cursor::new("AB".as_bytes());
    assert_eq!(cursor.peek(), Some(b'A'));
    assert_eq!(cursor.peek(), Some(b'A'));

    cursor.advance_unchecked();
    assert_eq!(cursor.peek(), Some(b'B'));

    cursor.advance_unchecked();
    assert_eq!(cursor.peek(), None);
}

#[test]
fn peek_n() {
    let cursor = Cursor::new("AB".as_bytes());

    assert_eq!(cursor.peek_n(0), Some(b'A'));
    assert_eq!(cursor.peek_n(1), Some(b'B'));
    assert_eq!(cursor.peek_n(2), None);
}

#[test]
fn bytes_remaining() {
    let mut cursor = Cursor::new("AB".as_bytes());
    assert_eq!(cursor.bytes_remaining(), 2);
    cursor.advance();
    assert_eq!(cursor.bytes_remaining(), 1);
    cursor.advance();
    assert_eq!(cursor.bytes_remaining(), 0);
}

#[test]
fn has_next() {
    let mut cursor = Cursor::new("A".as_bytes());
    assert_eq!(cursor.has_next(), true);

    cursor.advance_unchecked();
    assert_eq!(cursor.has_next(), false);
}

#[test]
fn advance_char() {
    let mut cursor = Cursor::new("AB€C".as_bytes());

    assert_eq!(cursor.advance_char(), Ok(()));
    assert_eq!(cursor.peek(), Some(b'B'));

    cursor.advance_char().unwrap();
    cursor.advance_char().unwrap();
    assert_eq!(cursor.peek(), Some(b'C'));

    cursor.advance_char().unwrap();
    assert_eq!(cursor.peek(), None);
}

#[test]
fn advance_char_over_two_and_three_byte_characters() {
    let mut cursor = Cursor::new("ABâ‚¬C".as_bytes());

    assert_eq!(cursor.advance_char(), Ok(()));
    assert_eq!(cursor.peek(), Some(b'B'));
    assert_eq!(cursor.advance_char(), Ok(()));
    assert_eq!(cursor.bytes_consumed(), 2);

    assert_eq!(cursor.advance_char(), Ok(()));
    assert_eq!(cursor.bytes_consumed(), 4);
    assert_eq!(cursor.advance_char(), Ok(()));
    assert_eq!(cursor.bytes_consumed(), 7);
    assert_eq!(cursor.advance_char(), Ok(()));
    assert_eq!(cursor.bytes_consumed(), 9);
    assert_eq!(cursor.peek(), Some(b'C'));

    assert_eq!(cursor.advance_char(), Ok(()));
    assert_eq!(cursor.peek(), None);
}

#[test]
fn empty_buffer_is_at_end() {
    let mut cursor = Cursor::new(b"");
    assert_eq!(cursor.has_next(), false);
    assert_eq!(cursor.peek(), None);
    assert_eq!(cursor.peek_n(0), None);
    assert_eq!(cursor.next(), None);
    assert_eq!(cursor.next_lfn(), None);
    assert_eq!(cursor.advance_char(), Ok(()));
    cursor.advance();
    cursor.skip_ascii_whitespace();
    assert_eq!(cursor.bytes_consumed(), 0);
    assert_eq!(cursor.bytes_remaining(), 0);
}

#[test]
fn advance_saturates_at_end() {
    let mut cursor = Cursor::new(b"x");
    cursor.advance();
    cursor.advance();
    cursor.advance();
    assert_eq!(cursor.bytes_consumed(), 1);
    assert_eq!(cursor.bytes_remaining(), 0);
}

#[test]
fn unchecked_operations_within_bounds() {
    let mut cursor = Cursor::new(b"abcdef");
    assert_eq!(cursor.peek_unchecked(), b'a');
    assert_eq!(cursor.peek_n_unchecked(2), b'c');
    assert_eq!(cursor.next_unchecked(), b'a');
    assert_eq!(cursor.bytes_consumed(), 1);
    cursor.advance_n_unchecked(3);
    assert_eq!(cursor.bytes_consumed(), 4);
    assert_eq!(cursor.peek_unchecked(), b'e');
    cursor.advance_n_unchecked(0);
    assert_eq!(cursor.bytes_consumed(), 4);
    cursor.advance_n_unchecked(2);
    assert_eq!(cursor.has_next(), false);
}

#[test]
fn peek_n_far_ahead_is_absent() {
    let mut cursor = Cursor::new(b"abc");
    cursor.advance();
    assert_eq!(cursor.peek_n(1), Some(b'c'));
    assert_eq!(cursor.peek_n(2), None);
    assert_eq!(cursor.peek_n(usize::MAX), None);
    assert_eq!(cursor.bytes_consumed(), 1);
}

#[test]
fn next_lfn_crlf_is_one_line_feed_of_two_bytes() {
    let mut cursor = Cursor::new(b"\r\n");
    assert_eq!(cursor.next_lfn(), Some(b'\n'));
    assert_eq!(cursor.bytes_consumed(), 2);
    assert_eq!(cursor.next_lfn(), None);
}

#[test]
fn next_lfn_lone_cr_is_one_line_feed_of_one_byte() {
    let mut cursor = Cursor::new(b"\r");
    assert_eq!(cursor.next_lfn(), Some(b'\n'));
    assert_eq!(cursor.bytes_consumed(), 1);
    assert_eq!(cursor.next_lfn(), None);
}

#[test]
fn next_lfn_lone_lf_is_one_line_feed_of_one_byte() {
    let mut cursor = Cursor::new(b"\n");
    assert_eq!(cursor.next_lfn(), Some(b'\n'));
    assert_eq!(cursor.bytes_consumed(), 1);
    assert_eq!(cursor.next_lfn(), None);
}

#[test]
fn next_lfn_cr_cr_lf_is_two_line_feeds() {
    let mut cursor = Cursor::new(b"\r\r\nx");
    assert_eq!(cursor.next_lfn(), Some(b'\n'));
    assert_eq!(cursor.bytes_consumed(), 1);
    assert_eq!(cursor.next_lfn(), Some(b'\n'));
    assert_eq!(cursor.bytes_consumed(), 3);
    assert_eq!(cursor.next_lfn(), Some(b'x'));
}

#[test]
fn next_does_not_normalize() {
    let mut cursor = Cursor::new(b"\r\n");
    assert_eq!(cursor.next(), Some(b'\r'));
    assert_eq!(cursor.next(), Some(b'\n'));
    assert_eq!(cursor.next(), None);
}

#[test]
fn skip_ascii_whitespace_takes_every_kind() {
    let mut cursor = Cursor::new(b" \t\n\x0B\x0C\rz ");
    cursor.skip_ascii_whitespace();
    assert_eq!(cursor.bytes_consumed(), 6);
    assert_eq!(cursor.peek(), Some(b'z'));
    cursor.skip_ascii_whitespace();
    assert_eq!(cursor.bytes_consumed(), 6);
}

#[test]
fn skip_ascii_whitespace_stops_at_other_control_bytes() {
    let mut cursor = Cursor::new(b" \x00 ");
    cursor.skip_ascii_whitespace();
    assert_eq!(cursor.bytes_consumed(), 1);
    let mut other = Cursor::new(b"\x1F");
    other.skip_ascii_whitespace();
    assert_eq!(other.bytes_consumed(), 0);
    let mut high = Cursor::new(b"\xA0");
    high.skip_ascii_whitespace();
    assert_eq!(high.bytes_consumed(), 0);
}

#[test]
fn consumed_and_remaining_add_up_to_the_length() {
    let bytes: &[u8] = b"a\r\nb\xC3\xA9\xE2\x82\xAC\xF0\x9F\x98\x80 \t\xFFz\xE2\x82";
    let mut cursor = Cursor::new(bytes);
    assert_eq!(cursor.bytes_consumed() + cursor.bytes_remaining(), bytes.len());
    cursor.advance();
    assert_eq!(cursor.bytes_consumed() + cursor.bytes_remaining(), bytes.len());
    cursor.next_lfn();
    assert_eq!(cursor.bytes_consumed() + cursor.bytes_remaining(), bytes.len());
    cursor.next();
    assert_eq!(cursor.bytes_consumed() + cursor.bytes_remaining(), bytes.len());
    while cursor.has_next() {
        let _ = cursor.advance_char();
        assert_eq!(cursor.bytes_consumed() + cursor.bytes_remaining(), bytes.len());
        cursor.skip_ascii_whitespace();
        assert_eq!(cursor.bytes_consumed() + cursor.bytes_remaining(), bytes.len());
    }
    cursor.advance();
    assert_eq!(cursor.bytes_consumed(), bytes.len());
    assert_eq!(cursor.bytes_remaining(), 0);
}

#[test]
fn slice_between_positions_is_what_was_consumed() {
    let bytes = b"0123456789";
    for start in 0..=bytes.len() {
        for count in 0..=(bytes.len() - start) {
            let mut cursor = Cursor::new(bytes);
            cursor.advance_n_unchecked(start);
            let before = cursor.position();
            for _ in 0..count {
                cursor.advance();
            }
            let after = cursor.position();
            let slice = before.slice_to(after);
            assert_eq!(slice.len(), count);
            assert_eq!(slice, &bytes[start..start + count]);
        }
    }
}

#[test]
fn slice_to_same_position_is_empty() {
    let mut cursor = Cursor::new(b"abc");
    cursor.advance();
    let here = cursor.position();
    assert_eq!(here.slice_to(cursor.position()), b"");
    assert!(here == cursor.position());
}

#[test]
fn slice_to_spans_a_whole_character() {
    let text = "x\u{20ac}y";
    let mut cursor = Cursor::new(text.as_bytes());
    cursor.advance();
    let before = cursor.position();
    cursor.advance_char().unwrap();
    assert_eq!(before.slice_to(cursor.position()), "\u{20ac}".as_bytes());
}

#[test]
fn clone_keeps_buffer_and_place() {
    let mut cursor = Cursor::new(b"abc");
    cursor.advance();
    let mut copy = cursor.clone();
    assert!(copy == cursor);
    copy.advance();
    assert!(copy != cursor);
    assert_eq!(cursor.peek(), Some(b'b'));
    assert_eq!(copy.peek(), Some(b'c'));
}
