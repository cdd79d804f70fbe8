use freshgit::text::{
    append_chars, chars_between, chars_of, is_one_of, same_chars, same_text, split_bytes,
    split_chars, string_of,
};

#[test]
fn chars_of_gives_every_character() {
    assert_eq!(chars_of("a:é"), vec!['a', ':', 'é']);
    assert_eq!(chars_of(""), Vec::<char>::new());
}

#[test]
fn string_of_cuts_a_range() {
    let cs = chars_of("hello world");
    assert_eq!(string_of(&cs, 6, 11), "world");
    assert_eq!(string_of(&cs, 3, 3), "");
}

#[test]
fn append_chars_adds_to_the_end() {
    let cs = chars_of("hello world");
    let mut dest = String::from("say ");
    append_chars(&mut dest, &cs, 0, 5);
    assert_eq!(dest, "say hello");
}

#[test]
fn split_chars_gives_one_more_piece_than_separators() {
    let cs = chars_of("a b:c");
    let seps = vec![' ', ':'];
    assert_eq!(split_chars(&cs, &seps), vec![(0, 1), (2, 3), (4, 5)]);
}

#[test]
fn split_chars_keeps_empty_pieces() {
    let cs = chars_of("::a ");
    let seps = vec![' ', ':'];
    assert_eq!(split_chars(&cs, &seps), vec![(0, 0), (1, 1), (2, 3), (4, 4)]);
}

#[test]
fn split_chars_of_nothing_is_one_empty_piece() {
    let cs = chars_of("");
    let seps = vec!['/'];
    assert_eq!(split_chars(&cs, &seps), vec![(0, 0)]);
}

#[test]
fn split_bytes_cuts_at_the_separator() {
    assert_eq!(split_bytes(b"ab\ncd\n", 10), vec![(0, 2), (3, 5), (6, 6)]);
    assert_eq!(split_bytes(b"", 10), vec![(0, 0)]);
}

#[test]
fn is_one_of_tests_membership() {
    let seps = vec![' ', ':'];
    assert!(is_one_of(&seps, ':'));
    assert!(is_one_of(&seps, ' '));
    assert!(!is_one_of(&seps, '\t'));
}

#[test]
fn same_chars_compares_a_range() {
    let a = chars_of("repo.git");
    let b = chars_of(".git");
    assert!(same_chars(&a, 4, 8, &b));
    assert!(!same_chars(&a, 3, 8, &b));
    assert!(!same_chars(&a, 0, 4, &b));
}

#[test]
fn same_text_compares_whole_texts() {
    assert!(same_text("a/b", "a/b"));
    assert!(!same_text("a/b", "a/B"));
    assert!(!same_text("a/b", "a/b/"));
    assert!(same_text("", ""));
}

#[test]
fn chars_between_cuts_a_range() {
    let cs = chars_of("hello world");
    assert_eq!(chars_between(&cs, 0, 5), chars_of("hello"));
    assert_eq!(chars_between(&cs, 11, 11), Vec::<char>::new());
}
