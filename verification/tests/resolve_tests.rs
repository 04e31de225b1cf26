use fast::projects::{Project, ProjectMap};
use fast::resolve::{begin, resolve, select_project, Progress, ResolutionError, Selection};

fn map_of(pairs: &[(&str, &str)]) -> ProjectMap {
    let mut projects = ProjectMap::new();
    for (name, path) in pairs {
        projects.insert(name.to_string(), path.to_string());
    }
    projects
}

fn lines(answers: &[&str]) -> Vec<String> {
    answers.iter().map(|line| line.to_string()).collect()
}

fn pair(found: Result<Project, ResolutionError>) -> Result<(String, String), ResolutionError> {
    found.map(|project| (project.name, project.path))
}

fn ok(name: &str, path: &str) -> Result<(String, String), ResolutionError> {
    Ok((name.to_string(), path.to_string()))
}

#[test]
fn exact_name_wins_over_substring_matches() {
    let projects = map_of(&[("api", "/a"), ("apiserver", "/b")]);
    assert_eq!(pair(resolve("api", &projects, "Which?", &lines(&[]))), ok("api", "/a"));
    match select_project("api", &projects, "Which?") {
        Selection::Found(project) => {
            assert_eq!(project.name, "api");
            assert_eq!(project.path, "/a");
        }
        other => panic!("unexpected {:?}", other),
    }
}

#[test]
fn exact_name_wins_whatever_the_insertion_order() {
    let projects = map_of(&[("apiserver", "/b"), ("myapi", "/c"), ("api", "/a")]);
    assert_eq!(pair(resolve("api", &projects, "", &lines(&[]))), ok("api", "/a"));
}

#[test]
fn query_that_nothing_holds_fails_with_no_match() {
    let projects = map_of(&[("api", "/a"), ("web", "/w")]);
    assert_eq!(pair(resolve("zzz", &projects, "Which?", &lines(&[]))), Err(ResolutionError::NoMatch));
    assert_eq!(pair(resolve("API", &projects, "Which?", &lines(&["api"]))), Err(ResolutionError::NoMatch));
}

#[test]
fn single_substring_match_is_returned() {
    let projects = map_of(&[("frontend", "/f")]);
    assert_eq!(pair(resolve("front", &projects, "Which?", &lines(&[]))), ok("frontend", "/f"));
    assert_eq!(pair(resolve("tend", &projects, "Which?", &lines(&[]))), ok("frontend", "/f"));
    assert_eq!(pair(resolve("onte", &projects, "Which?", &lines(&[]))), ok("frontend", "/f"));
}

#[test]
fn single_substring_match_among_others() {
    let projects = map_of(&[("frontend", "/f"), ("backend", "/b"), ("docs", "/d")]);
    assert_eq!(pair(resolve("back", &projects, "", &lines(&[]))), ok("backend", "/b"));
}

#[test]
fn empty_map_fails_with_no_projects_and_asks_nothing() {
    let projects = ProjectMap::new();
    for query in ["", "x", "api"] {
        assert_eq!(
            pair(resolve(query, &projects, "Which?", &lines(&["x"]))),
            Err(ResolutionError::NoProjects)
        );
        match select_project(query, &projects, "Which?") {
            Selection::Failed(ResolutionError::NoProjects) => {}
            other => panic!("unexpected {:?}", other),
        }
    }
}

#[test]
fn ambiguous_query_narrows_to_the_matches() {
    let projects = map_of(&[("web-a", "/1"), ("web-b", "/2"), ("api", "/3")]);
    match select_project("web", &projects, "Which project should be loaded?") {
        Selection::Ask { candidates, heading } => {
            assert_eq!(heading, "");
            assert_eq!(candidates.len(), 2);
            assert_eq!(candidates.get("web-a"), Some(&"/1".to_string()));
            assert_eq!(candidates.get("web-b"), Some(&"/2".to_string()));
            assert!(!candidates.contains_key("api"));
        }
        other => panic!("unexpected {:?}", other),
    }
    assert_eq!(
        pair(resolve("web", &projects, "Which project should be loaded?", &lines(&["web-a"]))),
        ok("web-a", "/1")
    );
    assert_eq!(pair(resolve("web", &projects, "", &lines(&["-b"]))), ok("web-b", "/2"));
}

#[test]
fn ambiguous_query_can_narrow_several_times() {
    let projects = map_of(&[("web-a1", "/1"), ("web-a2", "/2"), ("web-b", "/3"), ("api", "/4")]);
    assert_eq!(
        pair(resolve("web", &projects, "", &lines(&["web-a", "2"]))),
        ok("web-a2", "/2")
    );
    assert_eq!(
        pair(resolve("web", &projects, "", &lines(&["api"]))),
        Err(ResolutionError::NoMatch)
    );
}

#[test]
fn empty_query_asks_over_the_whole_map_under_the_prompt() {
    let projects = map_of(&[("web", "/1"), ("api", "/2")]);
    match select_project("", &projects, "Which project should be loaded?") {
        Selection::Ask { candidates, heading } => {
            assert_eq!(heading, "Which project should be loaded?");
            assert_eq!(candidates.len(), 2);
            assert_eq!(candidates.get("web"), Some(&"/1".to_string()));
            assert_eq!(candidates.get("api"), Some(&"/2".to_string()));
        }
        other => panic!("unexpected {:?}", other),
    }
    assert_eq!(pair(resolve("", &projects, "Which?", &lines(&["ap"]))), ok("api", "/2"));
    assert_eq!(pair(resolve("", &projects, "Which?", &lines(&["", "", "web"]))), ok("web", "/1"));
}

#[test]
fn question_without_an_answer_is_an_input_error() {
    let projects = map_of(&[("web-a", "/1"), ("web-b", "/2")]);
    assert_eq!(pair(resolve("", &projects, "Which?", &lines(&[]))), Err(ResolutionError::InputError));
    assert_eq!(pair(resolve("web", &projects, "Which?", &lines(&[]))), Err(ResolutionError::InputError));
    assert_eq!(
        pair(resolve("web", &projects, "Which?", &lines(&[""]))),
        Err(ResolutionError::InputError)
    );
}

#[test]
fn resolving_twice_gives_the_same() {
    let projects = map_of(&[("web-a", "/1"), ("web-b", "/2"), ("api", "/3")]);
    let answers = lines(&["web-b"]);
    let first = pair(resolve("web", &projects, "Which?", &answers));
    let second = pair(resolve("web", &projects, "Which?", &answers));
    assert_eq!(first, ok("web-b", "/2"));
    assert_eq!(first, second);
    assert_eq!(projects.len(), 3);
    assert_eq!(projects.get("web-b"), Some(&"/2".to_string()));
    let (name, _) = first.unwrap();
    assert_eq!(pair(resolve(&name, &projects, "Which?", &lines(&[]))), ok("web-b", "/2"));
}

#[test]
fn matching_is_case_sensitive_and_anywhere() {
    let projects = map_of(&[("Web", "/1"), ("web", "/2"), ("myweb", "/3")]);
    let hits = projects.matching("web");
    assert_eq!(hits.len(), 2);
    assert!(hits.contains_key("web"));
    assert!(hits.contains_key("myweb"));
    assert!(!hits.contains_key("Web"));
    assert_eq!(projects.matching("").len(), 3);
    assert_eq!(projects.matching("x").len(), 0);
}

#[test]
fn error_messages() {
    assert_eq!(ResolutionError::NoProjects.message(), "No saved projects found");
    assert_eq!(ResolutionError::NoMatch.message(), "No matching project found");
    assert_eq!(ResolutionError::InputError.message(), "Failed to read input");
}

#[test]
fn insert_overwrites_and_remove_unbinds() {
    let mut projects = map_of(&[("a", "/1"), ("b", "/2")]);
    projects.insert("a".to_string(), "/3".to_string());
    assert_eq!(projects.len(), 2);
    assert_eq!(projects.get("a"), Some(&"/3".to_string()));
    projects.remove("a");
    assert_eq!(projects.len(), 1);
    assert_eq!(projects.get("a"), None);
    assert!(projects.contains_key("b"));
    projects.remove("zzz");
    assert_eq!(projects.len(), 1);
    assert!(!projects.is_empty());
    projects.remove("b");
    assert!(projects.is_empty());
}

#[test]
fn from_entries_binds_in_order() {
    let entries = vec![
        Project { name: "a".to_string(), path: "/1".to_string() },
        Project { name: "b".to_string(), path: "/2".to_string() },
        Project { name: "a".to_string(), path: "/3".to_string() },
    ];
    let projects = ProjectMap::from_entries(entries).unwrap();
    assert_eq!(projects.len(), 2);
    assert_eq!(projects.get("a"), Some(&"/3".to_string()));
    assert_eq!(projects.get("b"), Some(&"/2".to_string()));
    let copy = projects.copied();
    assert!(copy.same_bindings(&projects));
    let other = map_of(&[("a", "/3"), ("b", "/4")]);
    assert!(!other.same_bindings(&projects));
    assert!(!map_of(&[("a", "/3")]).same_bindings(&projects));
    assert!(map_of(&[("b", "/2"), ("a", "/3")]).same_bindings(&projects));
}

#[test]
fn empty_name_is_never_bound() {
    let mut projects = map_of(&[("a", "/1")]);
    assert!(!projects.insert("".to_string(), "/2".to_string()));
    assert_eq!(projects.len(), 1);
    assert!(!projects.contains_key(""));
    assert!(projects.insert("b".to_string(), "/2".to_string()));
    assert!(projects.insert("a".to_string(), "/3".to_string()));
    assert_eq!(projects.len(), 2);
    assert_eq!(projects.get("a"), Some(&"/3".to_string()));
    let entries = vec![
        Project { name: "a".to_string(), path: "/1".to_string() },
        Project { name: "".to_string(), path: "/2".to_string() },
    ];
    assert!(ProjectMap::from_entries(entries).is_none());
    assert!(ProjectMap::from_entries(vec![]).unwrap().is_empty());
}

#[test]
fn session_narrows_and_takes_the_path_from_the_first_map() {
    let projects = map_of(&[("web-a", "/1"), ("web-b", "/2"), ("api", "/3")]);
    let pending = match begin("web", &projects, "Which project should be loaded?") {
        Progress::Waiting(pending) => pending,
        other => panic!("unexpected {:?}", other),
    };
    assert_eq!(pending.heading, "");
    assert_eq!(pending.candidates.len(), 2);
    assert!(pending.candidates.contains_key("web-a"));
    assert!(pending.candidates.contains_key("web-b"));
    assert!(pending.projects.same_bindings(&projects));
    match pending.answer("web-a") {
        Progress::Done(Ok(found)) => {
            assert_eq!(found.name, "web-a");
            assert_eq!(found.path, "/1");
        }
        other => panic!("unexpected {:?}", other),
    }
}

#[test]
fn session_asks_again_under_no_heading() {
    let projects = map_of(&[("web-a", "/1"), ("web-b", "/2"), ("api", "/3")]);
    let first = match begin("", &projects, "Which?") {
        Progress::Waiting(pending) => pending,
        other => panic!("unexpected {:?}", other),
    };
    assert_eq!(first.heading, "Which?");
    assert_eq!(first.candidates.len(), 3);
    let second = match first.answer("") {
        Progress::Waiting(pending) => pending,
        other => panic!("unexpected {:?}", other),
    };
    assert_eq!(second.heading, "");
    assert_eq!(second.candidates.len(), 3);
    let third = match second.answer("web") {
        Progress::Waiting(pending) => pending,
        other => panic!("unexpected {:?}", other),
    };
    assert_eq!(third.heading, "");
    assert_eq!(third.candidates.len(), 2);
    assert_eq!(third.projects.len(), 3);
    match third.answer("api") {
        Progress::Done(Err(ResolutionError::NoMatch)) => {}
        other => panic!("unexpected {:?}", other),
    }
}

#[test]
fn session_ends_at_once_where_nothing_is_to_ask() {
    let projects = map_of(&[("api", "/a"), ("apiserver", "/b")]);
    match begin("api", &projects, "Which?") {
        Progress::Done(Ok(found)) => assert_eq!((found.name.as_str(), found.path.as_str()), ("api", "/a")),
        other => panic!("unexpected {:?}", other),
    }
    match begin("zzz", &projects, "Which?") {
        Progress::Done(Err(ResolutionError::NoMatch)) => {}
        other => panic!("unexpected {:?}", other),
    }
    match begin("", &ProjectMap::new(), "Which?") {
        Progress::Done(Err(ResolutionError::NoProjects)) => {}
        other => panic!("unexpected {:?}", other),
    }
}
