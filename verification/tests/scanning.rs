use exspork::text::{characters, is_space};

#[test]
fn whitespace_is_space_tab_and_line_ends() {
    assert!(is_space(' '));
    assert!(is_space('\t'));
    assert!(is_space('\r'));
    assert!(is_space('\n'));
    assert!(!is_space('a'));
    assert!(!is_space('\u{a0}'));
    assert!(!is_space('_'));
}

#[test]
fn characters_are_those_of_the_text() {
    assert_eq!(characters(""), Vec::<char>::new());
    assert_eq!(characters("a ü数"), vec!['a', ' ', 'ü', '数']);
}
