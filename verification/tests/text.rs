use git_open::text::{chars_of, find_char, is_whitespace, scan, trim_bounds};

#[test]
fn chars_of_gives_the_characters_in_order() {
    assert_eq!(chars_of("aé\u{1F600}z"), vec!['a', 'é', '\u{1F600}', 'z']);
    assert_eq!(chars_of(""), Vec::<char>::new());
}

#[test]
fn find_char_gives_the_first_place_in_the_range() {
    let v: Vec<char> = "a:b:c".chars().collect();
    assert_eq!(find_char(&v, ':', 0, 5), 1);
    assert_eq!(find_char(&v, ':', 2, 5), 3);
    assert_eq!(find_char(&v, ':', 4, 5), 5);
    assert_eq!(find_char(&v, ':', 0, 1), 1);
    assert_eq!(find_char(&v, '@', 0, 5), 5);
    assert_eq!(find_char(&v, ':', 2, 2), 2);
}

#[test]
fn white_space_is_what_the_standard_library_calls_so() {
    let mut count = 0;
    for code in 0..=0x10FFFFu32 {
        if let Some(c) = char::from_u32(code) {
            assert_eq!(is_whitespace(c), c.is_whitespace(), "U+{:04X}", code);
            if is_whitespace(c) {
                count += 1;
            }
        }
    }
    assert_eq!(count, 25);
}

#[test]
fn scan_stops_at_the_first_character_of_the_kind() {
    let v: Vec<char> = "  ab \tc".chars().collect();
    assert_eq!(scan(&v, 0, false), 2);
    assert_eq!(scan(&v, 2, false), 2);
    assert_eq!(scan(&v, 2, true), 4);
    assert_eq!(scan(&v, 4, false), 6);
    assert_eq!(scan(&v, 6, true), 7);
    assert_eq!(scan(&v, 7, true), 7);
}

#[test]
fn trim_bounds_agree_with_trim() {
    for s in ["", " ", "a", "  a b  ", "\t\nx\r\n", "\u{3000}é\u{a0}", "x  ", "  x"] {
        let v: Vec<char> = s.chars().collect();
        let (from, to) = trim_bounds(&v);
        let trimmed: String = v[from..to].iter().collect();
        assert_eq!(trimmed, s.trim());
    }
    let blank: Vec<char> = "   ".chars().collect();
    assert_eq!(trim_bounds(&blank), (3, 3));
}
