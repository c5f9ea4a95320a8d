use byte_cursor::encoding::{
    is_ascii_whitespace, is_continuation_byte, utf8_char_width, UTF8_CHAR_WIDTH,
};
use byte_cursor::{Cursor, Error};

fn step(bytes: &[u8]) -> (Result<(), Error>, usize) {
    let mut cursor = Cursor::new(bytes);
    let outcome = cursor.advance_char();
    (outcome, cursor.bytes_consumed())
}

#[test]
fn width_of_every_lead_byte() {
    for byte in 0x00..=0x7Fu8 {
        assert_eq!(utf8_char_width(byte), 1);
    }
    for byte in 0x80..=0xBFu8 {
        assert_eq!(utf8_char_width(byte), 0);
    }
    for byte in 0xC0..=0xDFu8 {
        assert_eq!(utf8_char_width(byte), 2);
    }
    for byte in 0xE0..=0xEFu8 {
        assert_eq!(utf8_char_width(byte), 3);
    }
    for byte in 0xF0..=0xF7u8 {
        assert_eq!(utf8_char_width(byte), 4);
    }
    for byte in 0xF8..=0xFFu8 {
        assert_eq!(utf8_char_width(byte), 0);
    }
}

#[test]
fn width_table_agrees_with_the_classification() {
    assert_eq!(UTF8_CHAR_WIDTH.len(), 256);
    for byte in 0x00..=0xFFu8 {
        assert_eq!(UTF8_CHAR_WIDTH[byte as usize], utf8_char_width(byte));
    }
    assert_eq!(UTF8_CHAR_WIDTH[0x41], 1);
    assert_eq!(UTF8_CHAR_WIDTH[0xA9], 0);
    assert_eq!(UTF8_CHAR_WIDTH[0xC3], 2);
    assert_eq!(UTF8_CHAR_WIDTH[0xE2], 3);
    assert_eq!(UTF8_CHAR_WIDTH[0xF0], 4);
    assert_eq!(UTF8_CHAR_WIDTH[0xFF], 0);
}

#[test]
fn continuation_bytes_are_0x80_to_0xbf() {
    for byte in 0x00..=0xFFu8 {
        assert_eq!(is_continuation_byte(byte), (0x80..=0xBF).contains(&byte));
    }
}

#[test]
fn whitespace_bytes() {
    for byte in 0x00..=0xFFu8 {
        let expected = matches!(byte, 0x20 | 0x09 | 0x0A | 0x0B | 0x0C | 0x0D);
        assert_eq!(is_ascii_whitespace(byte), expected);
    }
}

#[test]
fn valid_text_is_walked_to_its_end() {
    let texts = [
        "",
        "plain ascii",
        "h\u{e9}llo w\u{f6}rld",
        "\u{20ac}\u{20ac}\u{20ac}",
        "\u{1f600} and \u{10ffff} and \u{0}",
        "line\r\nline\nline\rend\r",
        "\u{07ff}\u{0800}\u{ffff}\u{10000}\u{80}",
    ];
    for text in texts {
        let bytes = text.as_bytes();
        let mut cursor = Cursor::new(bytes);
        let mut total = 0;
        while cursor.has_next() {
            let before = cursor.bytes_consumed();
            assert_eq!(cursor.advance_char(), Ok(()));
            assert!(cursor.bytes_consumed() > before);
            total += cursor.bytes_consumed() - before;
        }
        assert_eq!(total, bytes.len());
        assert_eq!(cursor.bytes_consumed(), bytes.len());
        assert_eq!(cursor.advance_char(), Ok(()));
        assert_eq!(cursor.bytes_consumed(), bytes.len());
    }
}

#[test]
fn one_step_per_character() {
    let text = "a\u{e9}\u{20ac}\u{1f600}z";
    let mut cursor = Cursor::new(text.as_bytes());
    let mut ends = Vec::new();
    while cursor.has_next() {
        cursor.advance_char().unwrap();
        ends.push(cursor.bytes_consumed());
    }
    assert_eq!(ends, vec![1, 3, 6, 10, 11]);
}

#[test]
fn crlf_is_one_step() {
    let mut cursor = Cursor::new(b"\r\n\r\n\n\rx");
    assert_eq!(cursor.advance_char(), Ok(()));
    assert_eq!(cursor.bytes_consumed(), 2);
    assert_eq!(cursor.advance_char(), Ok(()));
    assert_eq!(cursor.bytes_consumed(), 4);
    assert_eq!(cursor.advance_char(), Ok(()));
    assert_eq!(cursor.bytes_consumed(), 5);
    assert_eq!(cursor.advance_char(), Ok(()));
    assert_eq!(cursor.bytes_consumed(), 6);
    assert_eq!(cursor.advance_char(), Ok(()));
    assert_eq!(cursor.bytes_consumed(), 7);
}

#[test]
fn lone_cr_at_end_is_one_step() {
    assert_eq!(step(b"\r"), (Ok(()), 1));
}

#[test]
fn continuation_byte_as_lead_byte() {
    for byte in 0x80..=0xBFu8 {
        assert_eq!(step(&[byte, b'a']), (Err(Error::EncounteredContinuationByte), 1));
        assert_eq!(step(&[byte]), (Err(Error::EncounteredContinuationByte), 1));
    }
}

#[test]
fn byte_announcing_no_length_as_lead_byte() {
    for byte in 0xF8..=0xFFu8 {
        assert_eq!(
            step(&[byte, 0x80, 0x80, 0x80, 0x80]),
            (Err(Error::EncounteredContinuationByte), 1)
        );
    }
}

#[test]
fn lead_bytes_at_the_edges_of_their_ranges() {
    assert_eq!(step(&[0xC0, 0x80]), (Ok(()), 2));
    assert_eq!(step(&[0xDF, 0xBF]), (Ok(()), 2));
    assert_eq!(step(&[0xE0, 0x80, 0x80]), (Ok(()), 3));
    assert_eq!(step(&[0xEF, 0xBF, 0xBF]), (Ok(()), 3));
    assert_eq!(step(&[0xF0, 0x80, 0x80, 0x80]), (Ok(()), 4));
    assert_eq!(step(&[0xF7, 0xBF, 0xBF, 0xBF]), (Ok(()), 4));
    assert_eq!(step(&[0x7F, 0x80]), (Ok(()), 1));
}

#[test]
fn missing_second_of_two() {
    assert_eq!(step(&[0xC3]), (Err(Error::Missing2ndOf2), 1));
}

#[test]
fn missing_second_of_three() {
    assert_eq!(step(&[0xE2]), (Err(Error::Missing2ndOf3), 1));
}

#[test]
fn missing_third_of_three() {
    assert_eq!(step(&[0xE2, 0x82]), (Err(Error::Missing3rdOf3), 2));
}

#[test]
fn missing_second_of_four() {
    assert_eq!(step(&[0xF0]), (Err(Error::Missing2ndOf4), 1));
}

#[test]
fn missing_third_of_four() {
    assert_eq!(step(&[0xF0, 0x9F]), (Err(Error::Missing3rdOf4), 2));
}

#[test]
fn missing_fourth_of_four() {
    assert_eq!(step(&[0xF0, 0x9F, 0x98]), (Err(Error::Missing4thOf4), 3));
}

#[test]
fn truncated_sequences_of_every_lead_byte() {
    for lead in 0xC0..=0xF7u8 {
        let width = utf8_char_width(lead) as usize;
        for present in 1..width {
            let mut bytes = vec![lead];
            for k in 1..present {
                bytes.push(0x80 + k as u8);
            }
            let expected = match (present + 1, width) {
                (2, 2) => Error::Missing2ndOf2,
                (2, 3) => Error::Missing2ndOf3,
                (3, 3) => Error::Missing3rdOf3,
                (2, 4) => Error::Missing2ndOf4,
                (3, 4) => Error::Missing3rdOf4,
                (4, 4) => Error::Missing4thOf4,
                _ => unreachable!(),
            };
            assert_eq!(step(&bytes), (Err(expected), present));
        }
    }
}

#[test]
fn invalid_second_of_two() {
    assert_eq!(step(&[0xC3, b'a']), (Err(Error::Invalid2ndOf2), 2));
    assert_eq!(step(&[0xC3, 0xC3]), (Err(Error::Invalid2ndOf2), 2));
    assert_eq!(step(&[0xC3, 0x7F]), (Err(Error::Invalid2ndOf2), 2));
    assert_eq!(step(&[0xC3, 0xC0]), (Err(Error::Invalid2ndOf2), 2));
}

#[test]
fn invalid_second_of_three() {
    assert_eq!(step(&[0xE2, b'a', 0x82]), (Err(Error::Invalid2ndOf3), 2));
}

#[test]
fn invalid_third_of_three() {
    assert_eq!(step(&[0xE2, 0x82, b'a']), (Err(Error::Invalid3rdOf3), 3));
}

#[test]
fn invalid_second_of_four() {
    assert_eq!(step(&[0xF0, 0xFF, 0x98, 0x80]), (Err(Error::Invalid2ndOf4), 2));
}

#[test]
fn invalid_third_of_four() {
    assert_eq!(step(&[0xF0, 0x9F, b' ', 0x80]), (Err(Error::Invalid3rdOf4), 3));
}

#[test]
fn invalid_fourth_of_four() {
    assert_eq!(step(&[0xF0, 0x9F, 0x98, 0x00]), (Err(Error::Invalid4thOf4), 4));
}

#[test]
fn invalid_byte_read_normalized_takes_crlf_whole() {
    assert_eq!(step(&[0xC3, b'\r', b'\n', b'a']), (Err(Error::Invalid2ndOf2), 3));
    assert_eq!(step(&[0xC3, b'\r', b'a']), (Err(Error::Invalid2ndOf2), 2));
    assert_eq!(step(&[0xC3, b'\n', b'\r']), (Err(Error::Invalid2ndOf2), 2));
    assert_eq!(step(&[0xE2, 0x82, b'\r', b'\n']), (Err(Error::Invalid3rdOf3), 4));
    assert_eq!(step(&[0xF0, 0x9F, 0x98, b'\r', b'\n', b'z']), (Err(Error::Invalid4thOf4), 5));
}

#[test]
fn cursor_stays_behind_the_bytes_examined_after_an_error() {
    let mut cursor = Cursor::new(&[0xE2, 0x82, b'a', b'b']);
    assert_eq!(cursor.advance_char(), Err(Error::Invalid3rdOf3));
    assert_eq!(cursor.peek(), Some(b'b'));
    assert_eq!(cursor.advance_char(), Ok(()));
    assert_eq!(cursor.peek(), None);
}

#[test]
fn advance_char_unchecked_goes_by_the_lead_byte_alone() {
    let text = "a\u{e9}\u{20ac}\u{1f600}";
    let mut cursor = Cursor::new(text.as_bytes());
    cursor.advance_char_unchecked();
    assert_eq!(cursor.bytes_consumed(), 1);
    cursor.advance_char_unchecked();
    assert_eq!(cursor.bytes_consumed(), 3);
    cursor.advance_char_unchecked();
    assert_eq!(cursor.bytes_consumed(), 6);
    cursor.advance_char_unchecked();
    assert_eq!(cursor.bytes_consumed(), 10);

    let mut stray = Cursor::new(&[0x80, b'a']);
    stray.advance_char_unchecked();
    assert_eq!(stray.bytes_consumed(), 0);

    let mut unchecked = Cursor::new(&[0xC3, b'a', b'b']);
    unchecked.advance_char_unchecked();
    assert_eq!(unchecked.bytes_consumed(), 2);
}

#[test]
fn errors_are_ordered_as_declared() {
    let all = [
        Error::EncounteredContinuationByte,
        Error::Missing2ndOf2,
        Error::Invalid2ndOf2,
        Error::Missing2ndOf3,
        Error::Invalid2ndOf3,
        Error::Missing3rdOf3,
        Error::Invalid3rdOf3,
        Error::Missing2ndOf4,
        Error::Invalid2ndOf4,
        Error::Missing3rdOf4,
        Error::Invalid3rdOf4,
        Error::Missing4thOf4,
        Error::Invalid4thOf4,
    ];
    for i in 0..all.len() {
        for j in 0..all.len() {
            assert_eq!(all[i] < all[j], i < j);
            assert_eq!(all[i] == all[j], i == j);
        }
    }
    let mut sorted =
        vec![Error::Invalid4thOf4, Error::Missing2ndOf2, Error::EncounteredContinuationByte];
    sorted.sort();
    assert_eq!(
        sorted,
        vec![Error::EncounteredContinuationByte, Error::Missing2ndOf2, Error::Invalid4thOf4]
    );
}
