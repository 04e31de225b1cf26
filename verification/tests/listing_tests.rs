use fast::listing::{heading, listing_lines, name_column_width, render_rows, row_text, sorted_projects, tilde_path};
use fast::projects::{Project, ProjectMap};
use fast::resolve::{select_project, Selection};
use fast::text::{decimal_text, pad_right, without_newline};

fn map_of(pairs: &[(&str, &str)]) -> ProjectMap {
    let mut projects = ProjectMap::new();
    for (name, path) in pairs {
        projects.insert(name.to_string(), path.to_string());
    }
    projects
}

fn project(name: &str, path: &str) -> Project {
    Project { name: name.to_string(), path: path.to_string() }
}

#[test]
fn column_width_follows_the_listed_names() {
    let both = listing_lines(&map_of(&[("x", "/1"), ("longname", "/2")]), "", "/home/u");
    assert_eq!(
        both,
        vec![
            "2 projects found".to_string(),
            "".to_string(),
            "\x1b[1mlongname  \x1b[0m/2".to_string(),
            "\x1b[1mx         \x1b[0m/1".to_string(),
        ]
    );
    let alone = listing_lines(&map_of(&[("x", "/1")]), "", "/home/u");
    assert_eq!(
        alone,
        vec!["1 project found".to_string(), "".to_string(), "\x1b[1mx  \x1b[0m/1".to_string()]
    );
}

#[test]
fn listing_under_a_prompt() {
    let shown = listing_lines(
        &map_of(&[("web", "/home/u/web"), ("api", "/srv/api")]),
        "Which project should be loaded?",
        "/home/u",
    );
    assert_eq!(
        shown,
        vec![
            "Which project should be loaded?".to_string(),
            "".to_string(),
            "\x1b[1mapi  \x1b[0m/srv/api".to_string(),
            "\x1b[1mweb  \x1b[0m~/web".to_string(),
        ]
    );
}

#[test]
fn listing_of_nothing_has_only_the_heading() {
    assert_eq!(
        listing_lines(&ProjectMap::new(), "", "/home/u"),
        vec!["0 projects found".to_string(), "".to_string()]
    );
}

#[test]
fn projects_are_sorted_by_name() {
    let projects = map_of(&[("web", "/1"), ("Zeta", "/2"), ("api", "/3"), ("apiserver", "/4"), ("a", "/5")]);
    let names: Vec<String> = sorted_projects(&projects).into_iter().map(|p| p.name).collect();
    assert_eq!(names, vec!["Zeta", "a", "api", "apiserver", "web"]);
    let paths: Vec<String> = sorted_projects(&projects).into_iter().map(|p| p.path).collect();
    assert_eq!(paths, vec!["/2", "/5", "/3", "/4", "/1"]);
}

#[test]
fn headings() {
    assert_eq!(heading(0, ""), "0 projects found");
    assert_eq!(heading(1, ""), "1 project found");
    assert_eq!(heading(2, ""), "2 projects found");
    assert_eq!(heading(120, ""), "120 projects found");
    assert_eq!(heading(1, "Which?"), "Which?");
}

#[test]
fn decimal_texts() {
    assert_eq!(decimal_text(0), "0");
    assert_eq!(decimal_text(7), "7");
    assert_eq!(decimal_text(10), "10");
    assert_eq!(decimal_text(4096), "4096");
    assert_eq!(decimal_text(usize::MAX), usize::MAX.to_string());
}

#[test]
fn padding() {
    assert_eq!(pad_right("ab", 5), "ab   ");
    assert_eq!(pad_right("abcde", 5), "abcde");
    assert_eq!(pad_right("abcdef", 5), "abcdef");
    assert_eq!(pad_right("", 2), "  ");
    assert_eq!(pad_right("é", 3), format!("{: <3}", "é"));
}

#[test]
fn only_a_home_prefix_is_shortened() {
    assert_eq!(tilde_path("/home/u/code/x", "/home/u"), "~/code/x");
    assert_eq!(tilde_path("/home/u/x/home/u", "/home/u"), "~/x/home/u");
    assert_eq!(tilde_path("/srv/home/u/x", "/home/u"), "/srv/home/u/x");
    assert_eq!(tilde_path("/mnt/home/u/x", "/home/u"), "/mnt/home/u/x");
    assert_eq!(tilde_path("home/u/x", "/home/u"), "home/u/x");
    assert_eq!(tilde_path("/home", "/home/u"), "/home");
    assert_eq!(tilde_path("/srv/x", "/home/u"), "/srv/x");
    assert_eq!(tilde_path("/home/u", "/home/u"), "~");
}

#[test]
fn rows() {
    assert_eq!(row_text(&project("api", "/home/u/api"), 6, "/home/u"), "\x1b[1mapi   \x1b[0m~/api");
    assert_eq!(row_text(&project("api", "/srv"), 0, "/home/u"), "\x1b[1mapi\x1b[0m/srv");
}

#[test]
fn width_counts_bytes_and_adds_two() {
    assert_eq!(name_column_width(&vec![]), 2);
    assert_eq!(name_column_width(&vec![project("abc", "/1"), project("a", "/2")]), 5);
    assert_eq!(name_column_width(&vec![project("é", "/1")]), 4);
}

#[test]
fn rows_are_rendered_in_the_order_given() {
    let rows = vec![project("b", "/2"), project("aaa", "/1")];
    assert_eq!(
        render_rows(&rows, "", "/nowhere"),
        vec![
            "2 projects found".to_string(),
            "".to_string(),
            "\x1b[1mb    \x1b[0m/2".to_string(),
            "\x1b[1maaa  \x1b[0m/1".to_string(),
        ]
    );
}

#[test]
fn names_are_ordered_by_code_point() {
    let projects = map_of(&[("\u{e9}t\u{e9}", "/1"), ("z", "/2"), ("ab", "/3"), ("a", "/4"), ("B", "/6")]);
    let names: Vec<String> = sorted_projects(&projects).into_iter().map(|p| p.name).collect();
    assert_eq!(names, vec!["B", "a", "ab", "z", "\u{e9}t\u{e9}"]);
}

#[test]
fn narrowed_listing_shows_only_the_candidates() {
    let projects = map_of(&[("web-a", "/1"), ("web-b", "/2"), ("api", "/3"), ("a-very-long-name", "/4")]);
    match select_project("web", &projects, "Which project should be loaded?") {
        Selection::Ask { candidates, heading } => {
            assert_eq!(
                listing_lines(&candidates, &heading, "/home/u"),
                vec![
                    "2 projects found".to_string(),
                    "".to_string(),
                    "\x1b[1mweb-a  \x1b[0m/1".to_string(),
                    "\x1b[1mweb-b  \x1b[0m/2".to_string(),
                ]
            );
        }
        other => panic!("unexpected {:?}", other),
    }
}

#[test]
fn home_inside_a_listed_path_stays() {
    let shown = listing_lines(&map_of(&[("a", "/mnt/home/u/x"), ("b", "/home/u/y")]), "", "/home/u");
    assert_eq!(
        shown,
        vec![
            "2 projects found".to_string(),
            "".to_string(),
            "\x1b[1ma  \x1b[0m/mnt/home/u/x".to_string(),
            "\x1b[1mb  \x1b[0m~/y".to_string(),
        ]
    );
}

#[test]
fn only_the_newline_at_the_end_is_dropped() {
    assert_eq!(without_newline("api\n"), "api");
    assert_eq!(without_newline("api"), "api");
    assert_eq!(without_newline("api \n"), "api ");
    assert_eq!(without_newline("api\n\n"), "api\n");
    assert_eq!(without_newline("\n"), "");
    assert_eq!(without_newline(""), "");
    assert_eq!(without_newline("api\t"), "api\t");
    assert_eq!(without_newline("\u{e9}t\u{e9}\n"), "\u{e9}t\u{e9}");
}
