use freshgit::resolver::{
    clone_item, column_cells, lookup, read_lists, read_repo_lists, repository_column,
    resolve_locator, resolve_locators, resolve_table, text_lines, ListFile, ListFormat,
};
use freshgit::work::WorkItem;

fn clone(locator: &str, destination: &str) -> WorkItem {
    WorkItem::Clone {
        remote_locator: locator.to_string(),
        destination_path: destination.to_string(),
    }
}

fn list_file(path: &str, content: &[u8]) -> ListFile {
    ListFile { path: path.to_string(), is_file: true, content: Some(content.to_vec()) }
}

#[test]
fn plain_and_tabular_lists_resolve_to_the_same_pair() {
    let plain = read_lists("/srv", b"https://example.com/org/repo.git\n", "txt");
    let table = read_lists("/srv", b"repository\nhttps://example.com/org/repo.git\n", "csv");
    let expected = vec![clone("https://example.com/org/repo.git", "/srv/org/repo")];
    assert_eq!(plain, Some(expected.clone()));
    assert_eq!(table, Some(expected));
}

#[test]
fn one_malformed_line_among_three_valid_ones_is_passed_over() {
    let content = b"https://example.com/a/one.git\nthis is no locator\nhttps://example.com/a/two.git\nhttps://example.com/a/three\n";
    let items = read_lists("/srv", content, "txt");
    assert_eq!(
        items,
        Some(vec![
            clone("https://example.com/a/one.git", "/srv/a/one"),
            clone("https://example.com/a/two.git", "/srv/a/two"),
            clone("https://example.com/a/three", "/srv/a/three"),
        ])
    );
}

#[test]
fn a_list_without_any_locator_gives_none() {
    assert_eq!(read_lists("/srv", b"", "txt"), None);
    assert_eq!(read_lists("/srv", b"\n\nnothing here\n", "txt"), None);
    assert_eq!(read_lists("/srv", b"repository\n", "csv"), None);
    assert_eq!(read_lists("/srv", b"", "csv"), None);
}

#[test]
fn any_extension_but_csv_is_read_as_lines() {
    let content = b"https://example.com/org/repo.git\n";
    let expected = Some(vec![clone("https://example.com/org/repo.git", "/srv/org/repo")]);
    assert_eq!(read_lists("/srv", content, ""), expected);
    assert_eq!(read_lists("/srv", content, "txt"), expected);
    assert_eq!(read_lists("/srv", content, "list"), expected);
    assert_eq!(read_lists("/srv", content, "CSV"), expected);
}

#[test]
fn list_format_goes_by_the_extension() {
    assert_eq!(ListFormat::from_extension("csv"), ListFormat::Table);
    assert_eq!(ListFormat::from_extension("txt"), ListFormat::Lines);
    assert_eq!(ListFormat::from_extension(""), ListFormat::Lines);
    assert_eq!(ListFormat::from_extension("csvx"), ListFormat::Lines);
    assert_eq!(ListFormat::from_extension("tsv"), ListFormat::Lines);
}

#[test]
fn the_locator_is_the_url_as_the_parser_writes_it() {
    let item = resolve_locator("/srv", "HTTPS://Example.COM:443/Org/Repo.git?x=1#frag");
    assert_eq!(item, Some(clone("https://example.com/Org/Repo.git?x=1#frag", "/srv/Org/Repo")));
}

#[test]
fn the_destination_goes_by_the_path_of_the_url() {
    let item = resolve_locator("/srv", "https://example.com/a/../b/./c.git");
    assert_eq!(item, Some(clone("https://example.com/b/c.git", "/srv/b/c")));
    let item = resolve_locator("/srv", "https://example.com/with space/r.git");
    assert_eq!(item, Some(clone("https://example.com/with%20space/r.git", "/srv/with%20space/r")));
}

#[test]
fn a_url_without_path_is_cloned_into_the_root() {
    let item = resolve_locator("/srv", "https://example.com");
    assert_eq!(item, Some(clone("https://example.com/", "/srv")));
}

#[test]
fn a_url_of_another_scheme_is_taken_as_it_is() {
    let item = resolve_locator("/srv", "ssh://git@example.com/org/repo.git");
    assert_eq!(item, Some(clone("ssh://git@example.com/org/repo.git", "/srv/org/repo")));
    let item = resolve_locator("/srv", "mailto:someone@example.com");
    assert_eq!(item, Some(clone("mailto:someone@example.com", "/srv/someone@example.com")));
}

#[test]
fn a_text_that_is_no_url_gives_no_item() {
    assert_eq!(resolve_locator("/srv", ""), None);
    assert_eq!(resolve_locator("/srv", "org/repo.git"), None);
    assert_eq!(resolve_locator("/srv", "git@example.com:org/repo.git"), None);
    assert_eq!(resolve_locator("/srv", "https://"), None);
}

#[test]
fn clone_item_derives_the_destination() {
    let item = clone_item("/srv", "https://example.com/x/y.git".to_string(), "/x/y.git");
    assert_eq!(item, clone("https://example.com/x/y.git", "/srv/x/y"));
}

#[test]
fn resolve_locators_keeps_the_order_of_the_lines() {
    let lines = vec![
        "https://example.com/b.git".to_string(),
        "???".to_string(),
        "https://example.com/a.git".to_string(),
    ];
    assert_eq!(
        resolve_locators("r", &lines),
        vec![clone("https://example.com/b.git", "r/b"), clone("https://example.com/a.git", "r/a")]
    );
}

#[test]
fn lines_end_at_line_feeds() {
    assert_eq!(text_lines(b"a\nb"), vec!["a", "b"]);
    assert_eq!(text_lines(b"a\nb\n"), vec!["a", "b"]);
    assert_eq!(text_lines(b"a\n\nb\n"), vec!["a", "", "b"]);
    assert_eq!(text_lines(b"\n"), vec![""]);
    assert_eq!(text_lines(b""), Vec::<String>::new());
}

#[test]
fn a_carriage_return_before_the_line_feed_is_dropped() {
    assert_eq!(text_lines(b"a\r\nb\r\n"), vec!["a", "b"]);
    assert_eq!(text_lines(b"a\r\r\n"), vec!["a\r"]);
    assert_eq!(text_lines(b"a\rb\n"), vec!["a\rb"]);
    assert_eq!(text_lines(b"a\r"), vec!["a\r"]);
}

#[test]
fn a_line_that_is_not_utf8_reads_as_empty() {
    assert_eq!(text_lines(b"\xff\xfe\nok\n"), vec!["", "ok"]);
    assert_eq!(text_lines(b"ok\n\xc3"), vec!["ok", ""]);
    assert_eq!(text_lines("grüß\n".as_bytes()), vec!["grüß"]);
}

#[test]
fn a_line_that_is_not_utf8_does_not_stop_the_others() {
    let mut content = b"https://example.com/a.git\n".to_vec();
    content.extend_from_slice(b"https://example.com/\xff.git\n");
    content.extend_from_slice(b"https://example.com/b.git\n");
    assert_eq!(
        read_lists("r", &content, "txt"),
        Some(vec![clone("https://example.com/a.git", "r/a"), clone("https://example.com/b.git", "r/b")])
    );
}

#[test]
fn the_repository_column_is_found_among_others() {
    let content = b"name,repository,stars\nfirst,https://example.com/o/first.git,3\nsecond,https://example.com/o/second,5\n";
    assert_eq!(
        read_lists("/srv", content, "csv"),
        Some(vec![
            clone("https://example.com/o/first.git", "/srv/o/first"),
            clone("https://example.com/o/second", "/srv/o/second"),
        ])
    );
}

#[test]
fn quoted_cells_are_read_as_the_table_reader_reads_them() {
    let content = b"repository,note\n\"https://example.com/o/r.git\",\"a, b\"\n";
    assert_eq!(
        read_lists("/srv", content, "csv"),
        Some(vec![clone("https://example.com/o/r.git", "/srv/o/r")])
    );
}

#[test]
fn a_record_of_another_length_is_passed_over() {
    let content = b"name,repository\nx,https://example.com/o/a.git\nonly-one-field\ny,https://example.com/o/b.git\n";
    assert_eq!(
        read_lists("/srv", content, "csv"),
        Some(vec![
            clone("https://example.com/o/a.git", "/srv/o/a"),
            clone("https://example.com/o/b.git", "/srv/o/b"),
        ])
    );
}

#[test]
fn a_cell_that_is_no_url_is_passed_over() {
    let content = b"repository\nnot a url\nhttps://example.com/o/a.git\n";
    assert_eq!(
        read_lists("/srv", content, "csv"),
        Some(vec![clone("https://example.com/o/a.git", "/srv/o/a")])
    );
}

#[test]
fn a_table_without_a_repository_column_gives_none() {
    let content = b"name,url\nx,https://example.com/o/a.git\n";
    assert_eq!(read_lists("/srv", content, "csv"), None);
}

#[test]
fn a_table_with_two_repository_columns_gives_none() {
    let content = b"repository,repository\nhttps://example.com/o/a.git,https://example.com/o/b.git\n";
    assert_eq!(read_lists("/srv", content, "csv"), None);
}

#[test]
fn a_header_that_is_not_utf8_gives_none() {
    let content = b"repository,\xff\nhttps://example.com/o/a.git,x\n";
    assert_eq!(read_lists("/srv", content, "csv"), None);
}

#[test]
fn repository_column_wants_exactly_one_header_of_that_name() {
    let headers = |names: &[&str]| names.iter().map(|n| n.to_string()).collect::<Vec<String>>();
    assert_eq!(repository_column(&headers(&["repository"])), Some(0));
    assert_eq!(repository_column(&headers(&["a", "b", "repository"])), Some(2));
    assert_eq!(repository_column(&headers(&["a", "b"])), None);
    assert_eq!(repository_column(&headers(&[])), None);
    assert_eq!(repository_column(&headers(&["repository", "x", "repository"])), None);
    assert_eq!(repository_column(&headers(&["Repository"])), None);
    assert_eq!(repository_column(&headers(&["repository "])), None);
}

#[test]
fn column_cells_takes_the_cell_of_every_record_that_has_one() {
    let rows = vec![
        Some(vec!["a".to_string(), "b".to_string()]),
        None,
        Some(vec!["c".to_string()]),
        Some(Vec::new()),
        Some(vec!["d".to_string(), "e".to_string(), "f".to_string()]),
    ];
    assert_eq!(column_cells(&rows, 1), vec!["b", "e"]);
    assert_eq!(column_cells(&rows, 0), vec!["a", "c", "d"]);
    assert_eq!(column_cells(&rows, 5), Vec::<String>::new());
}

#[test]
fn resolve_table_reads_the_repository_column() {
    let headers = vec!["id".to_string(), "repository".to_string()];
    let rows = vec![
        Some(vec!["1".to_string(), "https://example.com/o/a.git".to_string()]),
        None,
        Some(vec!["2".to_string(), "nothing".to_string()]),
    ];
    assert_eq!(
        resolve_table("/srv", &headers, &rows),
        vec![clone("https://example.com/o/a.git", "/srv/o/a")]
    );
    let headers = vec!["id".to_string(), "url".to_string()];
    assert_eq!(resolve_table("/srv", &headers, &rows), Vec::new());
}

#[test]
fn lookup_finds_the_first_file_of_that_path() {
    let files = vec![
        list_file("a.txt", b"1"),
        list_file("b.csv", b"2"),
        list_file("a.txt", b"3"),
    ];
    assert_eq!(lookup(&files, "a.txt"), Some(&files[0]));
    assert_eq!(lookup(&files, "b.csv"), Some(&files[1]));
    assert_eq!(lookup(&files, "c.txt"), None);
    assert_eq!(lookup(&Vec::new(), "a.txt"), None);
}

#[test]
fn repo_lists_come_in_the_order_of_the_declaration() {
    let files = vec![
        list_file("b.csv", b"repository\nhttps://example.com/o/b.git\n"),
        list_file("a.txt", b"https://example.com/o/a.git\nhttps://example.com/o/a2.git\n"),
    ];
    let declared = vec!["a.txt".to_string(), "b.csv".to_string()];
    assert_eq!(
        read_repo_lists("/srv", &declared, &files),
        vec![
            clone("https://example.com/o/a.git", "/srv/o/a"),
            clone("https://example.com/o/a2.git", "/srv/o/a2"),
            clone("https://example.com/o/b.git", "/srv/o/b"),
        ]
    );
}

#[test]
fn a_list_file_that_is_missing_or_unreadable_contributes_nothing() {
    let mut unreadable = list_file("locked.txt", b"");
    unreadable.content = None;
    let files = vec![unreadable, list_file("a.txt", b"https://example.com/o/a.git\n")];
    let declared =
        vec!["locked.txt".to_string(), "gone.txt".to_string(), "a.txt".to_string()];
    assert_eq!(
        read_repo_lists("/srv", &declared, &files),
        vec![clone("https://example.com/o/a.git", "/srv/o/a")]
    );
}

#[test]
fn a_file_declared_twice_is_read_twice() {
    let files = vec![list_file("a.txt", b"https://example.com/o/a.git\n")];
    let declared = vec!["a.txt".to_string(), "a.txt".to_string()];
    assert_eq!(
        read_repo_lists("/srv", &declared, &files),
        vec![
            clone("https://example.com/o/a.git", "/srv/o/a"),
            clone("https://example.com/o/a.git", "/srv/o/a"),
        ]
    );
}

#[test]
fn the_shape_of_a_declared_file_goes_by_the_extension_of_its_path() {
    let table = b"repository\nhttps://example.com/o/a.git\n";
    let files = vec![
        list_file("lists/repos.csv", table),
        list_file("lists/repos.txt", table),
        list_file("lists.csv/repos", table),
        list_file(".csv", table),
    ];
    let declared = |path: &str| vec![path.to_string()];
    assert_eq!(
        read_repo_lists("/srv", &declared("lists/repos.csv"), &files),
        vec![clone("https://example.com/o/a.git", "/srv/o/a")]
    );
    // read as lines, the header is no URL and the locator is
    assert_eq!(
        read_repo_lists("/srv", &declared("lists/repos.txt"), &files),
        vec![clone("https://example.com/o/a.git", "/srv/o/a")]
    );
    assert_eq!(
        read_repo_lists("/srv", &declared("lists.csv/repos"), &files),
        vec![clone("https://example.com/o/a.git", "/srv/o/a")]
    );
    assert_eq!(
        read_repo_lists("/srv", &declared(".csv"), &files),
        vec![clone("https://example.com/o/a.git", "/srv/o/a")]
    );
}

#[test]
fn a_table_read_as_lines_gives_other_items_than_read_as_a_table() {
    let table = b"name,repository\nx,https://example.com/o/a.git\n";
    let files = vec![list_file("repos.csv", table), list_file("repos.txt", table)];
    assert_eq!(
        read_repo_lists("/srv", &vec!["repos.csv".to_string()], &files),
        vec![clone("https://example.com/o/a.git", "/srv/o/a")]
    );
    assert_eq!(read_repo_lists("/srv", &vec!["repos.txt".to_string()], &files), Vec::new());
}
