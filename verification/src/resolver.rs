//! The repositories to clone: from the content of list files, read as
//! lines or as a table, to the clones of a batch.
//!
//! Every line or cell that is a URL gives one clone, in the order of the
//! files and of their lines; what is no URL is passed over. Nothing is
//! taken out: a locator that is listed twice, or two locators with the
//! same destination, give two items.

use crate::outside::{
    csv_header, csv_rows, parse_url, parsed_url, read_csv_header, read_csv_rows, utf8_text,
};
use crate::paths::{destination, destination_of, extension, extension_of};
use crate::text::{
    chars_of, one_of, pieces, ranges_within, same_chars, same_text, split, split_bytes, texts,
};
use crate::work::{item_models, WorkItem, WorkItemModel};
use vstd::prelude::*;
use vstd::slice::slice_subrange;
use vstd::utf8::{decode_utf8, valid_utf8};

verus! {

/// The byte that ends a line.
pub open spec fn newline() -> Seq<u8> {
    seq![10u8]
}

/// `line` without one trailing carriage return, where it has one.
pub open spec fn without_cr(line: Seq<u8>) -> Seq<u8> {
    if line.len() > 0 && line.last() == 13u8 {
        line.drop_last()
    } else {
        line
    }
}

/// The text of a line: its bytes decoded, or nothing where they are not
/// valid UTF-8.
pub open spec fn line_text(line: Seq<u8>) -> Seq<char> {
    if valid_utf8(line) {
        decode_utf8(line)
    } else {
        Seq::<char>::empty()
    }
}

/// The lines of a file as text. Every line feed ends a line, which loses
/// one carriage return before the line feed if there is one; what follows
/// the last line feed is a line of its own unless it is empty.
pub open spec fn lines_of(content: Seq<u8>) -> Seq<Seq<char>> {
    let parts = split(content, one_of(newline()));
    let ended = Seq::new((parts.len() - 1) as nat, |i: int| line_text(without_cr(parts[i])));
    if parts.last().len() == 0 {
        ended
    } else {
        ended.push(line_text(parts.last()))
    }
}

/// The work item that a text gives under `root`: none where
/// `url::Url::parse` refuses the text, else the clone of that URL into the
/// destination derived from its path.
pub open spec fn entry_for(root: Seq<char>, text: Seq<char>) -> Option<WorkItemModel> {
    match parsed_url(text) {
        Some((locator, url_path)) => Some(
            WorkItemModel::Clone {
                remote_locator: locator,
                destination_path: destination_of(root, url_path),
            },
        ),
        None => None,
    }
}

/// The work items that a sequence of texts gives under `root`, in order;
/// a text that is no URL gives none and does not touch the others.
pub open spec fn entries_for(root: Seq<char>, lines: Seq<Seq<char>>) -> Seq<WorkItemModel>
    decreases lines.len(),
{
    if lines.len() == 0 {
        Seq::empty()
    } else {
        let before = entries_for(root, lines.drop_last());
        match entry_for(root, lines.last()) {
            Some(item) => before.push(item),
            None => before,
        }
    }
}

/// The lines of a file as text.
pub fn text_lines(content: &[u8]) -> (r: Vec<String>)
    ensures
        texts(r@) == lines_of(content@),
{
    let ranges = split_bytes(content, 10u8);
    let ghost parts = split(content@, one_of(newline()));
    let last = ranges.len() - 1;
    let mut out: Vec<String> = Vec::new();
    let mut k: usize = 0;
    while k < last
        invariant
            k <= last,
            last == ranges@.len() - 1,
            ranges_within(ranges@, content@.len()),
            pieces(content@, ranges@) == parts,
            out@.len() == k,
            forall|j: int| 0 <= j < k ==> (#[trigger] out@[j])@ == line_text(without_cr(parts[j])),
        decreases last - k,
    {
        let (from, to) = ranges[k];
        let mut end = to;
        if from < to && content[to - 1] == 13u8 {
            end = to - 1;
        }
        let line = slice_subrange(content, from, end);
        proof {
            let piece = content@.subrange(from as int, to as int);
            assert(line@ == without_cr(piece));
        }
        let text = match utf8_text(line) {
            Some(text) => text,
            None => String::new(),
        };
        out.push(text);
        k = k + 1;
    }
    let (from, to) = ranges[last];
    if from < to {
        let line = slice_subrange(content, from, to);
        let text = match utf8_text(line) {
            Some(text) => text,
            None => String::new(),
        };
        out.push(text);
    }
    out
}

/// The clone of the repository at `remote_locator`, whose path is
/// `url_path`, into its destination under `sd`.
pub fn clone_item(sd: &str, remote_locator: String, url_path: &str) -> (r: WorkItem)
    ensures
        r@ == (WorkItemModel::Clone {
            remote_locator: remote_locator@,
            destination_path: destination_of(sd@, url_path@),
        }),
{
    let destination_path = destination(sd, url_path);
    WorkItem::Clone { remote_locator, destination_path }
}

/// The work item that `text` gives under `sd`, if it is a URL.
pub fn resolve_locator(sd: &str, text: &str) -> (r: Option<WorkItem>)
    ensures
        match r {
            Some(item) => entry_for(sd@, text@) == Some(item@),
            None => entry_for(sd@, text@).is_none(),
        },
{
    match parse_url(text) {
        Some((locator, url_path)) => Some(clone_item(sd, locator, url_path.as_str())),
        None => None,
    }
}

/// The work items that `lines` give under `sd`, in order.
pub fn resolve_locators(sd: &str, lines: &Vec<String>) -> (r: Vec<WorkItem>)
    ensures
        item_models(r@) == entries_for(sd@, texts(lines@)),
{
    let mut out: Vec<WorkItem> = Vec::new();
    let mut k: usize = 0;
    let ghost all = texts(lines@);
    while k < lines.len()
        invariant
            k <= lines@.len(),
            all == texts(lines@),
            item_models(out@) == entries_for(sd@, all.take(k as int)),
        decreases lines@.len() - k,
    {
        proof {
            assert(all.take(k + 1).drop_last() == all.take(k as int));
        }
        match resolve_locator(sd, lines[k].as_str()) {
            Some(item) => out.push(item),
            None => {},
        }
        k = k + 1;
    }
    proof {
        assert(all.take(k as int) == all);
    }
    out
}

/// The shape of a list file.
#[derive(Clone, Copy, Debug, PartialEq, Eq, Structural)]
pub enum ListFormat {
    /// One locator per line.
    Lines,
    /// A header row with a column named `repository`, then one record per
    /// locator.
    Table,
}

/// The extension of a tabular list file.
pub open spec fn table_extension() -> Seq<char> {
    seq!['c', 's', 'v']
}

/// The name of the column that holds the locators of a tabular list file.
pub open spec fn repository_header() -> Seq<char> {
    seq!['r', 'e', 'p', 'o', 's', 'i', 't', 'o', 'r', 'y']
}

/// The shape that a file with the given extension is read in: a table for
/// `csv`, lines for any other extension and for none.
pub open spec fn format_of(extension: Seq<char>) -> ListFormat {
    if extension == table_extension() {
        ListFormat::Table
    } else {
        ListFormat::Lines
    }
}

/// The indices of the headers equal to `name`, in rising order.
pub open spec fn columns_named(headers: Seq<Seq<char>>, name: Seq<char>) -> Seq<int>
    decreases headers.len(),
{
    if headers.len() == 0 {
        Seq::empty()
    } else {
        let before = columns_named(headers.drop_last(), name);
        if headers.last() == name {
            before.push(headers.len() - 1)
        } else {
            before
        }
    }
}

/// The column of the locators: the index of the header `repository` where
/// exactly one header has that name, else none.
pub open spec fn repository_column_of(headers: Seq<Seq<char>>) -> Option<int> {
    let columns = columns_named(headers, repository_header());
    if columns.len() == 1 {
        Some(columns[0])
    } else {
        None
    }
}

/// The cells of column `column`, one for each record that was read without
/// error and is long enough to have that column, in order.
pub open spec fn cells_of(rows: Seq<Option<Seq<Seq<char>>>>, column: int) -> Seq<Seq<char>>
    decreases rows.len(),
{
    if rows.len() == 0 {
        Seq::empty()
    } else {
        let before = cells_of(rows.drop_last(), column);
        match rows.last() {
            Some(fields) => if 0 <= column < fields.len() {
                before.push(fields[column])
            } else {
                before
            },
            None => before,
        }
    }
}

/// The work items that a table gives under `root`: those of the cells of
/// its `repository` column, or none where the header does not name exactly
/// one such column.
pub open spec fn table_entries(
    root: Seq<char>,
    headers: Seq<Seq<char>>,
    rows: Seq<Option<Seq<Seq<char>>>>,
) -> Seq<WorkItemModel> {
    match repository_column_of(headers) {
        Some(column) => entries_for(root, cells_of(rows, column)),
        None => Seq::empty(),
    }
}

/// The work items that the content of a list file gives under `root` when
/// read in the given shape.
pub open spec fn listed(root: Seq<char>, content: Seq<u8>, format: ListFormat) -> Seq<
    WorkItemModel,
> {
    match format {
        ListFormat::Lines => entries_for(root, lines_of(content)),
        ListFormat::Table => match csv_header(content) {
            Some(headers) => table_entries(root, headers, csv_rows(content)),
            None => Seq::empty(),
        },
    }
}

impl ListFormat {
    /// The shape that a file with the given extension is read in.
    pub fn from_extension(extension: &str) -> (r: ListFormat)
        ensures
            r == format_of(extension@),
    {
        let cs = chars_of(extension);
        let csv = vec!['c', 's', 'v'];
        assert(cs@.subrange(0, cs@.len() as int) == cs@);
        if same_chars(&cs, 0, cs.len(), &csv) {
            ListFormat::Table
        } else {
            ListFormat::Lines
        }
    }
}

/// The column of the locators among the headers of a table.
pub fn repository_column(headers: &Vec<String>) -> (r: Option<usize>)
    ensures
        match r {
            Some(column) => repository_column_of(texts(headers@)) == Some(column as int),
            None => repository_column_of(texts(headers@)).is_none(),
        },
{
    let name = vec!['r', 'e', 'p', 'o', 's', 'i', 't', 'o', 'r', 'y'];
    let ghost all = texts(headers@);
    let mut found: Option<usize> = None;
    let mut many = false;
    let mut k: usize = 0;
    while k < headers.len()
        invariant
            k <= headers@.len(),
            all == texts(headers@),
            name@ == repository_header(),
            many ==> columns_named(all.take(k as int), repository_header()).len() >= 2,
            !many ==> match found {
                Some(column) => columns_named(all.take(k as int), repository_header()) == seq![
                    column as int,
                ],
                None => columns_named(all.take(k as int), repository_header()).len() == 0,
            },
        decreases headers@.len() - k,
    {
        let cs = chars_of(headers[k].as_str());
        proof {
            assert(all.take(k + 1).drop_last() == all.take(k as int));
            assert(cs@.subrange(0, cs@.len() as int) == cs@);
        }
        if same_chars(&cs, 0, cs.len(), &name) {
            if found.is_some() {
                many = true;
            } else {
                found = Some(k);
            }
        }
        k = k + 1;
    }
    proof {
        assert(all.take(k as int) == all);
    }
    if many {
        None
    } else {
        found
    }
}

/// The cells of column `column` of the records that have one.
pub fn column_cells(rows: &Vec<Option<Vec<String>>>, column: usize) -> (r: Vec<String>)
    ensures
        texts(r@) == cells_of(rows.deep_view(), column as int),
{
    let ghost all = rows.deep_view();
    let mut out: Vec<String> = Vec::new();
    let mut k: usize = 0;
    while k < rows.len()
        invariant
            k <= rows@.len(),
            all == rows.deep_view(),
            texts(out@) == cells_of(all.take(k as int), column as int),
        decreases rows@.len() - k,
    {
        proof {
            assert(all.take(k + 1).drop_last() == all.take(k as int));
        }
        match &rows[k] {
            Some(fields) => {
                if column < fields.len() {
                    out.push(fields[column].clone());
                }
            },
            None => {},
        }
        k = k + 1;
    }
    proof {
        assert(all.take(k as int) == all);
    }
    out
}

/// The work items that a table with the given header and records gives
/// under `sd`.
pub fn resolve_table(sd: &str, headers: &Vec<String>, rows: &Vec<Option<Vec<String>>>) -> (r: Vec<
    WorkItem,
>)
    ensures
        item_models(r@) == table_entries(sd@, texts(headers@), rows.deep_view()),
{
    match repository_column(headers) {
        Some(column) => {
            let cells = column_cells(rows, column);
            resolve_locators(sd, &cells)
        },
        None => Vec::new(),
    }
}

/// Reads the content of one list file, whose name has the given extension,
/// into the work items that it gives under `sd`. Gives `None` where the
/// file yields no work item.
pub fn read_lists(sd: &str, content: &[u8], ext: &str) -> (r: Option<Vec<WorkItem>>)
    ensures
        match r {
            Some(items) => items@.len() > 0 && item_models(items@) == listed(
                sd@,
                content@,
                format_of(ext@),
            ),
            None => listed(sd@, content@, format_of(ext@)).len() == 0,
        },
{
    let items = match ListFormat::from_extension(ext) {
        ListFormat::Lines => {
            let lines = text_lines(content);
            resolve_locators(sd, &lines)
        },
        ListFormat::Table => {
            match read_csv_header(content) {
                Some(headers) => {
                    let rows = read_csv_rows(content);
                    proof {
                        assert(headers.deep_view() == texts(headers@));
                    }
                    resolve_table(sd, &headers, &rows)
                },
                None => Vec::new(),
            }
        },
    };
    if items.len() > 0 {
        Some(items)
    } else {
        None
    }
}

/// What was found of one list file on disk.
#[derive(Clone, Debug, PartialEq, Eq)]
pub struct ListFile {
    /// The path of the file, as the configuration declares it.
    pub path: String,
    /// Whether the path names an existing regular file.
    pub is_file: bool,
    /// What the file holds, or `None` where it could not be read.
    pub content: Option<Vec<u8>>,
}

/// What a [`ListFile`] holds, as sequences.
pub struct ListFileModel {
    pub path: Seq<char>,
    pub is_file: bool,
    pub content: Option<Seq<u8>>,
}

impl View for ListFile {
    type V = ListFileModel;

    open spec fn view(&self) -> ListFileModel {
        ListFileModel {
            path: self.path@,
            is_file: self.is_file,
            content: match self.content {
                Some(bytes) => Some(bytes@),
                None => None,
            },
        }
    }
}

/// The models of a sequence of list files, in the same order.
pub open spec fn list_file_models(files: Seq<ListFile>) -> Seq<ListFileModel> {
    Seq::new(files.len(), |i: int| files[i]@)
}

/// The first of `files` with the given path, if there is one.
pub open spec fn lookup_of(files: Seq<ListFileModel>, path: Seq<char>) -> Option<ListFileModel>
    decreases files.len(),
{
    if files.len() == 0 {
        None
    } else {
        match lookup_of(files.drop_last(), path) {
            Some(file) => Some(file),
            None => if files.last().path == path {
                Some(files.last())
            } else {
                None
            },
        }
    }
}

/// The work items that one declared list file gives under `root`: those
/// listed in its content, read in the shape that the extension of its path
/// calls for, or none where the file was not found or could not be read.
pub open spec fn contribution_of(root: Seq<char>, file: Option<ListFileModel>) -> Seq<
    WorkItemModel,
> {
    match file {
        Some(file) => match file.content {
            Some(content) => listed(root, content, format_of(extension_of(file.path))),
            None => Seq::empty(),
        },
        None => Seq::empty(),
    }
}

/// The work items that the declared list files give under `root`: the
/// contribution of each, in the order of the declaration.
pub open spec fn repo_lists_of(
    root: Seq<char>,
    declared: Seq<Seq<char>>,
    files: Seq<ListFileModel>,
) -> Seq<WorkItemModel>
    decreases declared.len(),
{
    if declared.len() == 0 {
        Seq::empty()
    } else {
        repo_lists_of(root, declared.drop_last(), files) + contribution_of(
            root,
            lookup_of(files, declared.last()),
        )
    }
}

/// The first of `files` with the given path, if there is one.
pub fn lookup<'a>(files: &'a Vec<ListFile>, path: &str) -> (r: Option<&'a ListFile>)
    ensures
        match r {
            Some(file) => lookup_of(list_file_models(files@), path@) == Some(file@),
            None => lookup_of(list_file_models(files@), path@).is_none(),
        },
{
    let ghost all = list_file_models(files@);
    let mut k: usize = 0;
    while k < files.len()
        invariant
            k <= files@.len(),
            all == list_file_models(files@),
            lookup_of(all.take(k as int), path@).is_none(),
        decreases files@.len() - k,
    {
        proof {
            assert(all.take(k + 1).drop_last() == all.take(k as int));
        }
        if same_text(files[k].path.as_str(), path) {
            proof {
                lemma_lookup_stays(all, k + 1, path@);
            }
            return Some(&files[k]);
        }
        k = k + 1;
    }
    proof {
        assert(all.take(k as int) == all);
    }
    None
}

/// What a lookup finds among the first `n` files, it finds among all.
proof fn lemma_lookup_stays(files: Seq<ListFileModel>, n: int, path: Seq<char>)
    requires
        0 <= n <= files.len(),
        lookup_of(files.take(n), path).is_some(),
    ensures
        lookup_of(files, path) == lookup_of(files.take(n), path),
    decreases files.len() - n,
{
    if n < files.len() {
        assert(files.take(n + 1).drop_last() == files.take(n));
        lemma_lookup_stays(files, n + 1, path);
    } else {
        assert(files.take(n) == files);
    }
}

/// Reads the declared list files `fl`, each looked up by its path among
/// `files`, into the work items that they give under `sd`.
pub fn read_repo_lists(sd: &str, fl: &Vec<String>, files: &Vec<ListFile>) -> (r: Vec<WorkItem>)
    ensures
        item_models(r@) == repo_lists_of(sd@, texts(fl@), list_file_models(files@)),
{
    let ghost declared = texts(fl@);
    let ghost found = list_file_models(files@);
    let mut out: Vec<WorkItem> = Vec::new();
    let mut k: usize = 0;
    while k < fl.len()
        invariant
            k <= fl@.len(),
            declared == texts(fl@),
            found == list_file_models(files@),
            item_models(out@) == repo_lists_of(sd@, declared.take(k as int), found),
        decreases fl@.len() - k,
    {
        proof {
            assert(declared.take(k + 1).drop_last() == declared.take(k as int));
        }
        let listed_here = match lookup(files, fl[k].as_str()) {
            Some(file) => match &file.content {
                Some(content) => {
                    let ext = extension(file.path.as_str());
                    read_lists(sd, content.as_slice(), ext.as_str())
                },
                None => None,
            },
            None => None,
        };
        match listed_here {
            Some(mut items) => out.append(&mut items),
            None => {},
        }
        k = k + 1;
    }
    proof {
        assert(declared.take(k as int) == declared);
    }
    out
}

/// How many of the texts `url::Url::parse` accepts.
pub open spec fn url_count(lines: Seq<Seq<char>>) -> nat
    decreases lines.len(),
{
    if lines.len() == 0 {
        0
    } else {
        url_count(lines.drop_last()) + if parsed_url(lines.last()).is_some() {
            1nat
        } else {
            0nat
        }
    }
}

/// A table of one column named `repository`, with one record for each of
/// `cells`, all read without error.
pub open spec fn single_column(cells: Seq<Seq<char>>) -> Seq<Option<Seq<Seq<char>>>> {
    Seq::new(cells.len(), |i: int| Some(seq![cells[i]]))
}

/// The work items of two lists of texts, one after the other, are those of
/// the first list followed by those of the second.
pub proof fn lemma_entries_concat(root: Seq<char>, a: Seq<Seq<char>>, b: Seq<Seq<char>>)
    ensures
        entries_for(root, a + b) == entries_for(root, a) + entries_for(root, b),
    decreases b.len(),
{
    if b.len() > 0 {
        assert((a + b).drop_last() == a + b.drop_last());
        lemma_entries_concat(root, a, b.drop_last());
    }
}

/// Every text that is a URL gives one work item, and no other text gives
/// any: among three URLs and one malformed line, three items come out.
pub proof fn lemma_entries_count(root: Seq<char>, lines: Seq<Seq<char>>)
    ensures
        entries_for(root, lines).len() == url_count(lines),
    decreases lines.len(),
{
    if lines.len() > 0 {
        lemma_entries_count(root, lines.drop_last());
    }
}

/// A line that is no URL is passed over: the work items are those of the
/// list without that line.
pub proof fn lemma_malformed_line_is_skipped(root: Seq<char>, lines: Seq<Seq<char>>, i: int)
    requires
        0 <= i < lines.len(),
        parsed_url(lines[i]).is_none(),
    ensures
        entries_for(root, lines) == entries_for(root, lines.remove(i)),
{
    let head = lines.take(i);
    let tail = lines.skip(i + 1);
    let line = seq![lines[i]];
    assert(lines == head + line + tail);
    lemma_entries_concat(root, head + line, tail);
    lemma_entries_concat(root, head, line);
    lemma_entries_concat(root, head, tail);
    assert(entries_for(root, line) == Seq::<WorkItemModel>::empty()) by {
        assert(line.drop_last() == Seq::<Seq<char>>::empty());
        assert(entries_for(root, Seq::<Seq<char>>::empty()) == Seq::<WorkItemModel>::empty());
    }
}

/// A table whose only column is named `repository` gives the same work
/// items as a list file with the cells of that column as its lines.
pub proof fn lemma_single_column_table_is_list(root: Seq<char>, cells: Seq<Seq<char>>)
    ensures
        table_entries(root, seq![repository_header()], single_column(cells)) == entries_for(
            root,
            cells,
        ),
{
    let headers = seq![repository_header()];
    assert(columns_named(headers, repository_header()) == seq![0int]) by {
        assert(columns_named(headers.drop_last(), repository_header()) == Seq::<int>::empty());
    }
    lemma_single_column_cells(cells);
}

/// The cells of the first column of a table of one column are the cells
/// that it was made of.
proof fn lemma_single_column_cells(cells: Seq<Seq<char>>)
    ensures
        cells_of(single_column(cells), 0) == cells,
    decreases cells.len(),
{
    if cells.len() > 0 {
        lemma_single_column_cells(cells.drop_last());
        assert(single_column(cells).drop_last() == single_column(cells.drop_last()));
    }
}

} // verus!
