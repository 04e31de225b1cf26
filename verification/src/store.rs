//! The stored form of the project map: one JSON object, a member for each
//! project, the name as the key and the path as the value.

use std::collections::HashMap;
use vstd::prelude::*;
use vstd::string::*;
use crate::projects::{bindings, lemma_bindings_hold, views, Project, ProjectMap};

verus! {

/// The error of the JSON reader and writer.
#[verifier::external_type_specification]
#[verifier::external_body]
pub struct ExJsonError(serde_json::Error);

/// What the JSON reader makes of `text` when it is asked for a map from
/// strings to strings: the map, or nothing where it refuses the text.
pub uninterp spec fn json_bindings(text: Seq<char>) -> Option<Map<Seq<char>, Seq<char>>>;

/// The project map that a stored text holds: what the JSON reader makes of
/// it, unless that binds the empty name, which is no project name.
pub open spec fn stored_map(text: Seq<char>) -> Option<Map<Seq<char>, Seq<char>>> {
    match json_bindings(text) {
        Some(map) => if map.contains_key(Seq::<char>::empty()) {
            None
        } else {
            Some(map)
        },
        None => None,
    }
}

/// Why a stored map could not be read or written.
#[derive(Clone, Copy, Debug, PartialEq, Eq, Structural)]
pub enum StoreError {
    /// The text is no JSON object of strings, or it binds the empty name.
    Corrupt,
    /// The map could not be written so that it reads back as the same map.
    Unwritable,
}

/// Calls `serde_json::from_str` for a `HashMap<String, String>` and hands its
/// entries out, in the order in which the hash map walks them. The contract
/// gives the outcome a name: the entries bind what `json_bindings` says of the
/// text, and an error comes exactly where `json_bindings` has nothing. The keys
/// of a hash map differ from each other, so the order does not matter to the
/// map that the entries bind.
#[verifier::external_body]
fn decode_entries(text: &str) -> (decoded: Result<Vec<Project>, serde_json::Error>)
    ensures
        match decoded {
            Ok(entries) => json_bindings(text@) == Some(bindings(views(entries@))),
            Err(_) => json_bindings(text@) is None,
        },
{
    let parsed: Result<HashMap<String, String>, serde_json::Error> = serde_json::from_str(text);
    parsed.map(|map| map.into_iter().map(|(name, path)| Project { name, path }).collect())
}

/// Calls `serde_json::to_string` on the entries as a `HashMap` from names to
/// paths. Nothing is claimed of the text: the order of its members is the
/// order in which the hash map walks them.
#[verifier::external_body]
fn encode_entries(entries: &Vec<Project>) -> (encoded: Result<String, serde_json::Error>) {
    let map: HashMap<&str, &str> = entries.iter().map(
        |project| (project.name.as_str(), project.path.as_str()),
    ).collect();
    serde_json::to_string(&map)
}

/// Reads a stored map. A text that binds the empty name is refused like one
/// that is no JSON object of strings.
pub fn read_projects(text: &str) -> (loaded: Result<ProjectMap, StoreError>)
    ensures
        match loaded {
            Ok(projects) => projects.wf() && stored_map(text@) == Some(projects@),
            Err(error) => stored_map(text@) is None && error == StoreError::Corrupt,
        },
{
    match decode_entries(text) {
        Ok(entries) => {
            let ghost rows = views(entries@);
            match ProjectMap::from_entries(entries) {
                Some(projects) => {
                    proof {
                        projects.lemma_names_not_empty();
                    }
                    Ok(projects)
                },
                None => {
                    proof {
                        let i = choose|i: int| 0 <= i < rows.len() && !((#[trigger] rows[i]).0.len() > 0);
                        assert(rows[i].0 =~= Seq::<char>::empty());
                        lemma_bindings_hold(rows, i);
                    }
                    Err(StoreError::Corrupt)
                },
            }
        },
        Err(_) => Err(StoreError::Corrupt),
    }
}

/// Decides whether `text`, as the writer gave it, may be stored for
/// `projects`: only where it reads back as the same map.
pub fn checked_text(projects: &ProjectMap, text: String) -> (stored: Result<String, StoreError>)
    requires
        projects.wf(),
    ensures
        match stored {
            Ok(accepted) => accepted@ == text@ && stored_map(text@) == Some(projects@),
            Err(error) => stored_map(text@) != Some(projects@) && error == StoreError::Unwritable,
        },
{
    match read_projects(text.as_str()) {
        Ok(back) => {
            if back.same_bindings(projects) {
                Ok(text)
            } else {
                Err(StoreError::Unwritable)
            }
        },
        Err(_) => Err(StoreError::Unwritable),
    }
}

/// Writes `projects` as text to store. A text that comes back reads as the
/// same map.
pub fn write_projects(projects: &ProjectMap) -> (stored: Result<String, StoreError>)
    requires
        projects.wf(),
    ensures
        match stored {
            Ok(text) => stored_map(text@) == Some(projects@),
            Err(error) => error == StoreError::Unwritable,
        },
{
    match encode_entries(projects.entries()) {
        Ok(text) => checked_text(projects, text),
        Err(_) => Err(StoreError::Unwritable),
    }
}

} // verus!
