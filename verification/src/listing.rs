//! The listing that is shown when the resolver asks: a heading, a blank line,
//! and one row for each project, sorted by name in two aligned columns.

use itertools::Itertools;
use vstd::prelude::*;
use vstd::string::*;
use crate::projects::{views, Project, ProjectMap, Row};
use crate::text::{
    decimal,
    decimal_text,
    pad_right,
    padded,
    prefix_replaced,
    lemma_text_lt_irreflexive,
    lemma_text_lt_transitive,
    text_lt,
    text_strip_prefix,
    texts,
};

verus! {

/// The order of pairs of strings: by the name, and between equal names by the
/// path.
pub open spec fn row_le(a: Row, b: Row) -> bool {
    text_lt(a.0, b.0) || (a.0 == b.0 && (a.1 == b.1 || text_lt(a.1, b.1)))
}

/// `rows` are the bindings of `projects`, each once, in ascending order of
/// their names.
pub open spec fn lists(rows: Seq<Row>, projects: Map<Seq<char>, Seq<char>>) -> bool {
    &&& rows.len() == projects.dom().len()
    &&& forall|i: int|
        0 <= i < rows.len() ==> projects.contains_key((#[trigger] rows[i]).0) && projects[rows[i].0]
            == rows[i].1
    &&& forall|name: Seq<char>|
        projects.contains_key(name) ==> exists|i: int|
            0 <= i < rows.len() && (#[trigger] rows[i]).0 == name
    &&& forall|i: int, j: int|
        0 <= i < j < rows.len() ==> text_lt((#[trigger] rows[i]).0, (#[trigger] rows[j]).0)
}

/// The listing of `projects`: its bindings in ascending order of their names.
pub open spec fn sorted_rows(projects: Map<Seq<char>, Seq<char>>) -> Seq<Row> {
    choose|rows: Seq<Row>| lists(rows, projects)
}

proof fn lemma_without_last(rows: Seq<Row>, projects: Map<Seq<char>, Seq<char>>)
    requires
        projects.dom().finite(),
        lists(rows, projects),
        rows.len() > 0,
    ensures
        lists(rows.drop_last(), projects.remove(rows.last().0)),
        projects.remove(rows.last().0).dom().finite(),
{
    let last = rows.last().0;
    let fewer = projects.remove(last);
    let front = rows.drop_last();
    assert(projects.contains_key(rows[rows.len() - 1].0));
    assert(fewer.dom() =~= projects.dom().remove(last));
    lemma_text_lt_irreflexive(last);
    assert forall|i: int| 0 <= i < front.len() implies fewer.contains_key((#[trigger] front[i]).0)
        && fewer[front[i].0] == front[i].1 by {
        assert(front[i] == rows[i]);
        assert(text_lt(rows[i].0, rows[rows.len() - 1].0));
    }
    assert forall|name: Seq<char>| fewer.contains_key(name) implies exists|i: int|
        0 <= i < front.len() && (#[trigger] front[i]).0 == name by {
        let i = choose|i: int| 0 <= i < rows.len() && (#[trigger] rows[i]).0 == name;
        assert(front[i] == rows[i]);
    }
    assert forall|i: int, j: int| 0 <= i < j < front.len() implies text_lt(
        (#[trigger] front[i]).0,
        (#[trigger] front[j]).0,
    ) by {
        assert(front[i] == rows[i]);
        assert(front[j] == rows[j]);
    }
}

proof fn lemma_last_is_greatest(rows: Seq<Row>, projects: Map<Seq<char>, Seq<char>>, name: Seq<char>)
    requires
        lists(rows, projects),
        projects.contains_key(name),
    ensures
        rows.len() > 0,
        name == rows.last().0 || text_lt(name, rows.last().0),
{
    let i = choose|i: int| 0 <= i < rows.len() && (#[trigger] rows[i]).0 == name;
    if i < rows.len() - 1 {
        assert(text_lt(rows[i].0, rows[rows.len() - 1].0));
    }
}

/// A map has one listing only: the order of the names leaves no choice.
pub proof fn lemma_listing_unique(a: Seq<Row>, b: Seq<Row>, projects: Map<Seq<char>, Seq<char>>)
    requires
        projects.dom().finite(),
        lists(a, projects),
        lists(b, projects),
    ensures
        a == b,
    decreases a.len(),
{
    if a.len() == 0 {
        assert(a =~= b);
    } else {
        assert(projects.contains_key(a[a.len() - 1].0));
        assert(projects.contains_key(b[b.len() - 1].0));
        lemma_last_is_greatest(a, projects, b.last().0);
        lemma_last_is_greatest(b, projects, a.last().0);
        if a.last().0 != b.last().0 {
            lemma_text_lt_transitive(a.last().0, b.last().0, a.last().0);
            lemma_text_lt_irreflexive(a.last().0);
        }
        lemma_without_last(a, projects);
        lemma_without_last(b, projects);
        lemma_listing_unique(a.drop_last(), b.drop_last(), projects.remove(a.last().0));
        assert(a.last() == b.last());
        assert(a =~= a.drop_last().push(a.last()));
        assert(b =~= b.drop_last().push(b.last()));
    }
}

/// Calls `Itertools::sorted` on the entries as pairs of strings, name first.
/// The contract says what its documentation and source show: all the elements
/// come back, each as often as it went in, in ascending order, which for pairs
/// of strings is `row_le`.
#[verifier::external_body]
fn sorted_entries(entries: &Vec<Project>) -> (sorted: Vec<Project>)
    ensures
        views(sorted@).to_multiset() == views(entries@).to_multiset(),
        forall|i: int, j: int|
            0 <= i < j < sorted@.len() ==> row_le((#[trigger] sorted@[i])@, (#[trigger] sorted@[j])@),
{
    entries
        .iter()
        .map(|project| (project.name.clone(), project.path.clone()))
        .sorted()
        .map(|(name, path)| Project { name, path })
        .collect()
}

/// The projects sorted by name.
pub fn sorted_projects(projects: &ProjectMap) -> (rows: Vec<Project>)
    requires
        projects.wf(),
    ensures
        lists(views(rows@), projects@),
        views(rows@) == sorted_rows(projects@),
{
    let entries = projects.entries();
    let rows = sorted_entries(entries);
    proof {
        let given = views(entries@);
        let sorted = views(rows@);
        broadcast use vstd::seq_lib::group_to_multiset_ensures;

        assert(given.no_duplicates()) by {
            assert forall|i: int, j: int|
                0 <= i < given.len() && 0 <= j < given.len() && i != j implies given[i]
                != given[j] by {
                if i < j {
                    assert(entries@[i].name@ != entries@[j].name@);
                } else {
                    assert(entries@[j].name@ != entries@[i].name@);
                }
            }
        }
        given.lemma_multiset_has_no_duplicates();
        sorted.lemma_multiset_has_no_duplicates_conv();
        assert(sorted.len() == given.len()) by {
            assert(sorted.to_multiset().len() == sorted.len());
            assert(given.to_multiset().len() == given.len());
        }
        assert forall|i: int| 0 <= i < sorted.len() implies projects@.contains_key(
            (#[trigger] sorted[i]).0,
        ) && projects@[sorted[i].0] == sorted[i].1 by {
            assert(sorted.contains(sorted[i]));
            assert(sorted.to_multiset().count(sorted[i]) > 0);
            assert(given.contains(sorted[i]));
            let j = choose|j: int| 0 <= j < given.len() && given[j] == sorted[i];
            assert(given[j] == entries@[j]@);
        }
        assert forall|name: Seq<char>| projects@.contains_key(name) implies exists|i: int|
            0 <= i < sorted.len() && (#[trigger] sorted[i]).0 == name by {
            let j = choose|j: int| 0 <= j < entries@.len() && (#[trigger] entries@[j]).name@ == name;
            assert(given[j] == entries@[j]@);
            assert(given.contains(given[j]));
            assert(given.to_multiset().count(given[j]) > 0);
            assert(sorted.contains(given[j]));
            let i = choose|i: int| 0 <= i < sorted.len() && sorted[i] == given[j];
            assert(sorted[i].0 == name);
        }
        assert forall|i: int, j: int| 0 <= i < j < sorted.len() implies text_lt(
            (#[trigger] sorted[i]).0,
            (#[trigger] sorted[j]).0,
        ) by {
            assert(row_le(rows@[i]@, rows@[j]@));
            assert(sorted[i] == rows@[i]@);
            assert(sorted[j] == rows@[j]@);
            if sorted[i].0 == sorted[j].0 {
                assert(sorted[i] == sorted[j]);
            }
        }
        assert(lists(sorted, projects@));
        projects.lemma_finite();
        lemma_listing_unique(sorted, sorted_rows(projects@), projects@);
    }
    rows
}

/// The heading of a listing of `count` projects: the prompt where there is
/// one, else the count with "project" in singular or plural.
pub open spec fn heading_spec(count: nat, prompt: Seq<char>) -> Seq<char> {
    if prompt.len() > 0 {
        prompt
    } else if count != 1 {
        decimal(count) + " projects found"@
    } else {
        decimal(count) + " project found"@
    }
}

/// The heading of a listing of `count` projects.
pub fn heading(count: usize, prompt: &str) -> (text: String)
    ensures
        text@ == heading_spec(count as nat, prompt@),
{
    if !prompt.is_empty() {
        String::from_str(prompt)
    } else {
        let mut text = decimal_text(count);
        if count != 1 {
            text.append(" projects found");
        } else {
            text.append(" project found");
        }
        text
    }
}

/// The marker that stands for the home directory in a shown path.
pub open spec fn home_marker() -> Seq<char> {
    "~"@
}

/// `path` as it is shown: where it begins with the home directory, that
/// prefix is replaced by `~`; any other path is shown as it is.
pub open spec fn shown_path(path: Seq<char>, home: Seq<char>) -> Seq<char> {
    prefix_replaced(path, home, home_marker())
}

/// `path` with the home directory in front of it shortened to `~`.
pub fn tilde_path(path: &str, home: &str) -> (shown: String)
    ensures
        shown@ == (if home@.is_prefix_of(path@) {
            home_marker() + path@.skip(home@.len() as int)
        } else {
            path@
        }),
{
    match text_strip_prefix(path, home) {
        Some(tail) => {
            let mut shown = String::from_str("~");
            shown.append(tail);
            shown
        },
        None => String::from_str(path),
    }
}

/// The length of `name` in bytes of UTF-8, as a `usize`.
pub open spec fn name_width(name: Seq<char>) -> usize {
    vstd::utf8::encode_utf8(name).len() as usize
}

/// The greatest `name_width` among the names of `rows`; 0 for none.
pub open spec fn widest(rows: Seq<Row>) -> usize
    decreases rows.len(),
{
    if rows.len() == 0 {
        0
    } else if name_width(rows.last().0) > widest(rows.drop_last()) {
        name_width(rows.last().0)
    } else {
        widest(rows.drop_last())
    }
}

/// The widest name is as wide as one of the listed names and no listed name is
/// wider: the width of a listing follows from its own rows and nothing else.
pub proof fn lemma_widest(rows: Seq<Row>)
    ensures
        forall|i: int| 0 <= i < rows.len() ==> name_width((#[trigger] rows[i]).0) <= widest(rows),
        rows.len() > 0 ==> exists|i: int|
            0 <= i < rows.len() && name_width((#[trigger] rows[i]).0) == widest(rows),
        rows.len() == 0 ==> widest(rows) == 0,
    decreases rows.len(),
{
    if rows.len() > 0 {
        let front = rows.drop_last();
        lemma_widest(front);
        assert forall|i: int| 0 <= i < rows.len() implies name_width((#[trigger] rows[i]).0)
            <= widest(rows) by {
            if i < front.len() {
                assert(front[i] == rows[i]);
            }
        }
        if name_width(rows.last().0) > widest(front) {
            assert(name_width(rows[rows.len() - 1].0) == widest(rows));
        } else if front.len() > 0 {
            let i = choose|i: int|
                0 <= i < front.len() && name_width((#[trigger] front[i]).0) == widest(front);
            assert(front[i] == rows[i]);
            assert(name_width(rows[i].0) == widest(rows));
        } else {
            assert(name_width(rows[rows.len() - 1].0) == widest(rows));
        }
    }
}

/// The width of the name column: two more than the widest name of `rows`, and
/// never more than a `usize` holds.
pub open spec fn column_width(rows: Seq<Row>) -> usize {
    if widest(rows) > usize::MAX - 2 {
        usize::MAX
    } else {
        (widest(rows) + 2) as usize
    }
}

/// Every name of `rows` is ASCII, and short enough to have two added to its
/// length.
pub open spec fn plain_names(rows: Seq<Row>) -> bool {
    forall|i: int|
        0 <= i < rows.len() ==> vstd::utf8::is_ascii_chars((#[trigger] rows[i]).0) && rows[i].0.len()
            + 2 <= usize::MAX
}

/// In a listing of ASCII names the paths begin in one column, two after the
/// longest name of that listing: the column width is the length of the longest
/// name plus two, and every name is filled up to exactly that width. The width
/// follows from the names of these rows alone.
pub proof fn lemma_path_column(rows: Seq<Row>)
    requires
        plain_names(rows),
        rows.len() > 0,
    ensures
        forall|i: int| 0 <= i < rows.len() ==> (#[trigger] rows[i]).0.len() + 2 <= column_width(rows),
        exists|i: int| 0 <= i < rows.len() && (#[trigger] rows[i]).0.len() + 2 == column_width(rows),
        forall|i: int|
            0 <= i < rows.len() ==> padded((#[trigger] rows[i]).0, column_width(rows) as nat).len()
                == column_width(rows),
{
    lemma_widest(rows);
    assert forall|i: int| 0 <= i < rows.len() implies name_width((#[trigger] rows[i]).0)
        == rows[i].0.len() by {
        vstd::utf8::is_ascii_chars_encode_utf8(rows[i].0);
    }
    let longest = choose|i: int|
        0 <= i < rows.len() && name_width((#[trigger] rows[i]).0) == widest(rows);
    assert(rows[longest].0.len() + 2 == column_width(rows));
    assert forall|i: int| 0 <= i < rows.len() implies padded(
        (#[trigger] rows[i]).0,
        column_width(rows) as nat,
    ).len() == column_width(rows) by {
        assert(name_width(rows[i].0) <= widest(rows));
    }
}

/// The width of the name column of a listing of `rows`.
pub fn name_column_width(rows: &Vec<Project>) -> (width: usize)
    ensures
        width == column_width(views(rows@)),
{
    let mut most: usize = 0;
    let mut i: usize = 0;
    let ghost all = views(rows@);
    while i < rows.len()
        invariant
            i <= rows@.len(),
            all == views(rows@),
            most == widest(all.take(i as int)),
        decreases rows@.len() - i,
    {
        let length = rows[i].name.as_str().len();
        proof {
            assert(all.take(i + 1).drop_last() =~= all.take(i as int));
            assert(all.take(i + 1).last() == rows@[i as int]@);
        }
        if length > most {
            most = length;
        }
        i += 1;
    }
    proof {
        assert(all.take(i as int) =~= all);
    }
    if most > usize::MAX - 2 {
        usize::MAX
    } else {
        most + 2
    }
}

/// One row: the name in bold, filled up to the column's width, then the path
/// with the home directory shortened.
pub open spec fn row_spec(row: Row, width: nat, home: Seq<char>) -> Seq<char> {
    "\x1b[1m"@ + padded(row.0, width) + "\x1b[0m"@ + shown_path(row.1, home)
}

/// The row of `project` in a listing whose name column is `width` wide.
pub fn row_text(project: &Project, width: usize, home: &str) -> (text: String)
    ensures
        text@ == row_spec(project@, width as nat, home@),
{
    let mut text = String::from_str("\x1b[1m");
    let name = pad_right(project.name.as_str(), width);
    text.append(name.as_str());
    text.append("\x1b[0m");
    let shown = tilde_path(project.path.as_str(), home);
    text.append(shown.as_str());
    text
}

/// The lines of a listing of `rows` in the order given: the heading, a blank
/// line, and each row under a column width taken from these rows alone.
pub open spec fn listing_spec(rows: Seq<Row>, prompt: Seq<char>, home: Seq<char>) -> Seq<Seq<char>> {
    seq![heading_spec(rows.len(), prompt), Seq::<char>::empty()] + Seq::new(
        rows.len(),
        |i: int| row_spec(rows[i], column_width(rows) as nat, home),
    )
}

/// The lines of a listing of `rows`, in the order given.
pub fn render_rows(rows: &Vec<Project>, prompt: &str, home: &str) -> (lines: Vec<String>)
    ensures
        texts(lines@) == listing_spec(views(rows@), prompt@, home@),
{
    let width = name_column_width(rows);
    let mut lines: Vec<String> = Vec::new();
    lines.push(heading(rows.len(), prompt));
    lines.push(String::new());
    let ghost all = views(rows@);
    let ghost top = seq![heading_spec(all.len(), prompt@), Seq::<char>::empty()];
    proof {
        assert(texts(lines@) =~= top + Seq::new(
            0,
            |i: int| row_spec(all[i], column_width(all) as nat, home@),
        ));
    }
    let mut i: usize = 0;
    while i < rows.len()
        invariant
            i <= rows@.len(),
            all == views(rows@),
            width == column_width(all),
            top == seq![heading_spec(all.len(), prompt@), Seq::<char>::empty()],
            texts(lines@) == top + Seq::new(
                i as nat,
                |k: int| row_spec(all[k], column_width(all) as nat, home@),
            ),
        decreases rows@.len() - i,
    {
        let ghost before = texts(lines@);
        lines.push(row_text(&rows[i], width, home));
        proof {
            assert(texts(lines@) =~= before.push(row_spec(all[i as int], width as nat, home@)));
            assert(texts(lines@) =~= top + Seq::new(
                (i + 1) as nat,
                |k: int| row_spec(all[k], column_width(all) as nat, home@),
            ));
        }
        i += 1;
    }
    lines
}

/// The lines of the listing of `projects`: the heading, a blank line, and the
/// projects sorted by name.
pub fn listing_lines(projects: &ProjectMap, prompt: &str, home: &str) -> (lines: Vec<String>)
    requires
        projects.wf(),
    ensures
        lists(sorted_rows(projects@), projects@),
        texts(lines@) == listing_spec(sorted_rows(projects@), prompt@, home@),
        lines@.len() == projects@.len() + 2,
        lines@[0]@ == heading_spec(projects@.len(), prompt@),
{
    let rows = sorted_projects(projects);
    let lines = render_rows(&rows, prompt, home);
    proof {
        let shown = views(rows@);
        assert(lists(shown, projects@));
        assert(texts(lines@).len() == lines@.len());
        assert(listing_spec(shown, prompt@, home@).len() == shown.len() + 2);
        assert(listing_spec(shown, prompt@, home@)[0] == heading_spec(shown.len(), prompt@));
        assert(texts(lines@)[0] == lines@[0]@);
    }
    lines
}

} // verus!
