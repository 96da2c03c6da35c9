use rustier_chess::utils::coordinate_to_bit;
use rustier_chess::utils::text::chars_of;
use rustier_chess::utils::text::runs;
use rustier_chess::utils::text::string_of;
use rustier_chess::utils::text::words;

#[test]
fn test_coordinate_to_bit() {
    assert_eq!(coordinate_to_bit("a1"), 0);
    assert_eq!(coordinate_to_bit("h8"), 63);
}

#[test]
fn test_coordinates_count_along_the_ranks() {
    assert_eq!(coordinate_to_bit("b1"), 1);
    assert_eq!(coordinate_to_bit("h1"), 7);
    assert_eq!(coordinate_to_bit("a2"), 8);
    assert_eq!(coordinate_to_bit("e4"), 28);
    assert_eq!(coordinate_to_bit("a8"), 56);
    assert_eq!(coordinate_to_bit("g8"), 62);
}

fn strings(parts: &Vec<Vec<char>>) -> Vec<String> {
    parts.iter().map(string_of).collect()
}

#[test]
fn test_words_are_parted_by_white_space() {
    assert_eq!(
        strings(&words(&chars_of("go depth 3"))),
        vec!["go", "depth", "3"]
    );
    assert_eq!(
        strings(&words(&chars_of("\tgo\t\tdepth \r\n 3\n"))),
        vec!["go", "depth", "3"]
    );
    assert_eq!(
        strings(&words(&chars_of("position\u{a0}startpos\u{2003}moves"))),
        vec!["position", "startpos", "moves"]
    );
    assert!(words(&chars_of("")).is_empty());
    assert!(words(&chars_of(" \t \n")).is_empty());
    assert_eq!(strings(&words(&chars_of("a/b,c"))), vec!["a/b,c"]);
}

#[test]
fn test_runs_are_what_the_marks_part() {
    let text = chars_of("abcdef");
    let none = vec![false; 6];
    assert_eq!(strings(&runs(&text, &none)), vec!["abcdef"]);
    let all = vec![true; 6];
    assert!(runs(&text, &all).is_empty());
    let some = vec![true, false, false, true, true, false];
    assert_eq!(strings(&runs(&text, &some)), vec!["bc", "f"]);
    let ends = vec![false, true, false, false, false, true];
    assert_eq!(strings(&runs(&text, &ends)), vec!["a", "cde"]);
}

fn has_white_space_property(c: char) -> bool {
    matches!(
        c as u32,
        0x9..=0xd
            | 0x20
            | 0x85
            | 0xa0
            | 0x1680
            | 0x2000..=0x200a
            | 0x2028
            | 0x2029
            | 0x202f
            | 0x205f
            | 0x3000
    )
}

#[test]
fn test_every_character_parts_words_or_does_not() {
    let mut parting = 0;
    for code in 0..=0x10ffffu32 {
        if let Some(c) = char::from_u32(code) {
            let found = words(&vec!['a', c, 'b']);
            if has_white_space_property(c) {
                parting += 1;
                assert_eq!(strings(&found), vec!["a", "b"], "U+{:04X}", code);
            } else {
                assert_eq!(found, vec![vec!['a', c, 'b']], "U+{:04X}", code);
            }
        }
    }
    assert_eq!(parting, 25);
    // a space of no width and the mark of the byte order are no white space
    assert_eq!(words(&chars_of("a\u{200b}b\u{feff}c")).len(), 1);
}
