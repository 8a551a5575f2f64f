use rich_py::offsets::{boundaries, byte_at, byte_offset, char_at, span_byte_range, text_byte_offset};

#[test]
fn boundaries_of_ascii_and_wide_text() {
    assert_eq!(boundaries("abc"), vec![0, 1, 2, 3]);
    assert_eq!(boundaries(""), vec![0]);
    // 'é' takes two bytes, '€' three, '𝄞' four.
    assert_eq!(boundaries("aé€𝄞"), vec![0, 1, 3, 6, 10]);
}

#[test]
fn byte_offset_past_the_end_is_none() {
    assert_eq!(byte_offset("héllo", 0), Some(0));
    assert_eq!(byte_offset("héllo", 2), Some(3));
    assert_eq!(byte_offset("héllo", 5), Some(6));
    assert_eq!(byte_offset("héllo", 6), None);
}

#[test]
fn python_style_negative_index() {
    assert_eq!(text_byte_offset("héllo", -1), 5);
    assert_eq!(text_byte_offset("héllo", -5), 0);
    assert_eq!(text_byte_offset("héllo", -9), 0);
    assert_eq!(text_byte_offset("héllo", 2), 3);
    assert_eq!(text_byte_offset("héllo", 40), 6);
}

#[test]
fn byte_at_clamps_to_the_end() {
    let b = boundaries("aé");
    assert_eq!(byte_at(&b, 1), 1);
    assert_eq!(byte_at(&b, 2), 3);
    assert_eq!(byte_at(&b, 7), 3);
}

#[test]
fn char_at_counts_boundaries_before() {
    let b = boundaries("aé€");
    assert_eq!(char_at(&b, 0), 0);
    assert_eq!(char_at(&b, 1), 1);
    // Inside 'é' (bytes 1..3): counts it.
    assert_eq!(char_at(&b, 2), 2);
    assert_eq!(char_at(&b, 3), 2);
    assert_eq!(char_at(&b, 6), 3);
    assert_eq!(char_at(&b, 99), 4);
}

#[test]
fn char_byte_round_trip_on_every_character() {
    let b = boundaries("añ€𝄞z");
    for i in 0..b.len() {
        assert_eq!(char_at(&b, byte_at(&b, i)), i);
    }
}

#[test]
fn span_past_the_line_is_dropped() {
    assert_eq!(span_byte_range("fé", 0, 2), (0, 3));
    assert_eq!(span_byte_range("fé", 1, 3), (usize::MAX, usize::MAX));
}
