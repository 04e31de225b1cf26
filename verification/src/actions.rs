//! What the commands decide once a project is chosen: whether the map changes,
//! what is asked first, and what is handed to the shell.

use vstd::prelude::*;
use vstd::string::*;
use crate::projects::ProjectMap;
use crate::resolve::ResolutionError;
use crate::text::{decimal, decimal_text, same_text};

verus! {

/// A question, as it is put to the user: the message and the choice.
pub open spec fn confirm_spec(message: Seq<char>) -> Seq<char> {
    message + " (y/N)? "@
}

/// The prompt that asks the user to confirm `message`.
pub fn confirm_prompt(message: &str) -> (prompt: String)
    ensures
        prompt@ == confirm_spec(message@),
{
    let mut prompt = String::from_str(message);
    prompt.append(" (y/N)? ");
    prompt
}

/// Whether `answer`, a line that the user typed at a question, confirms: only
/// a single `y` does.
pub fn user_confirms(answer: &str) -> (confirmed: bool)
    ensures
        confirmed == (answer@ == "y"@),
{
    same_text(answer, "y")
}

/// The question before a project named `name` is overwritten.
pub open spec fn overwrite_spec(name: Seq<char>) -> Seq<char> {
    "Project named \""@ + name + "\" already exists. Overwrite"@
}

/// The question to put before `name` is saved: one where the name is taken
/// already, none where it is free.
pub fn overwrite_question(projects: &ProjectMap, name: &str) -> (question: Option<String>)
    requires
        projects.wf(),
    ensures
        match question {
            Some(message) => projects@.contains_key(name@) && message@ == overwrite_spec(name@),
            None => !projects@.contains_key(name@),
        },
{
    if projects.contains_key(name) {
        let mut message = String::from_str("Project named \"");
        message.append(name);
        message.append("\" already exists. Overwrite");
        Some(message)
    } else {
        None
    }
}

/// What became of a request to save a project.
#[derive(Clone, Copy, Debug, PartialEq, Eq, Structural)]
pub enum SaveOutcome {
    /// The name is bound to the directory now, and the map has to be stored.
    Saved,
    /// The name is taken and the user did not confirm: nothing has changed.
    Declined,
    /// The name is empty, which is no project name: nothing has changed.
    EmptyName,
}

/// What saving under `name` comes to: an empty name is refused, a free name is
/// saved, a taken name is saved only where the user has confirmed.
pub open spec fn save_spec(projects: Map<Seq<char>, Seq<char>>, name: Seq<char>, confirmed: bool) -> SaveOutcome {
    if name.len() == 0 {
        SaveOutcome::EmptyName
    } else if !projects.contains_key(name) || confirmed {
        SaveOutcome::Saved
    } else {
        SaveOutcome::Declined
    }
}

/// Saves `directory` under `name`. An empty name is never bound. A name that
/// is taken is overwritten only where the user has confirmed. In every case
/// but `Saved` the map stays as it is.
pub fn save_project(projects: &mut ProjectMap, name: String, directory: String, confirmed: bool) -> (outcome:
    SaveOutcome)
    requires
        old(projects).wf(),
    ensures
        final(projects).wf(),
        outcome == save_spec(old(projects)@, name@, confirmed),
        outcome == SaveOutcome::Saved ==> final(projects)@ == old(projects)@.insert(
            name@,
            directory@,
        ),
        outcome != SaveOutcome::Saved ==> final(projects)@ == old(projects)@,
        !final(projects)@.contains_key(Seq::<char>::empty()),
{
    proof {
        projects.lemma_names_not_empty();
    }
    if name.as_str().is_empty() {
        SaveOutcome::EmptyName
    } else if !projects.contains_key(name.as_str()) || confirmed {
        projects.insert(name, directory);
        SaveOutcome::Saved
    } else {
        SaveOutcome::Declined
    }
}

/// The question before the project named `name` is deleted.
pub open spec fn delete_spec(name: Seq<char>) -> Seq<char> {
    "Delete \""@ + name + "\""@
}

/// The question to put before `name` is deleted.
pub fn delete_question(name: &str) -> (message: String)
    ensures
        message@ == delete_spec(name@),
{
    let mut message = String::from_str("Delete \"");
    message.append(name);
    message.append("\"");
    message
}

/// Deletes the project named `name` where the user has confirmed; otherwise
/// the map stays as it is. The result says whether the map has to be stored.
pub fn delete_project(projects: &mut ProjectMap, name: &str, confirmed: bool) -> (deleted: bool)
    requires
        old(projects).wf(),
    ensures
        final(projects).wf(),
        deleted == confirmed,
        confirmed ==> final(projects)@ == old(projects)@.remove(name@),
        !confirmed ==> final(projects)@ == old(projects)@,
{
    if confirmed {
        projects.remove(name);
    }
    confirmed
}

/// The question before all `count` projects are removed.
pub open spec fn reset_spec(count: nat) -> Seq<char> {
    "Remove "@ + decimal(count) + " saved projects"@
}

/// The question to put before every project is removed. There is nothing to
/// remove, and nothing to ask, where the map is empty.
pub fn reset_question(projects: &ProjectMap) -> (question: Result<String, ResolutionError>)
    requires
        projects.wf(),
    ensures
        match question {
            Ok(message) => projects@.len() > 0 && message@ == reset_spec(projects@.len()),
            Err(error) => projects@.len() == 0 && error == ResolutionError::NoProjects,
        },
{
    if projects.is_empty() {
        Err(ResolutionError::NoProjects)
    } else {
        let mut message = String::from_str("Remove ");
        message.append(decimal_text(projects.len()).as_str());
        message.append(" saved projects");
        Ok(message)
    }
}

/// A command for the shell that wraps the program: the program to run and the
/// path, in single quotes.
pub open spec fn shell_spec(command: Seq<char>, path: Seq<char>) -> Seq<char> {
    command + " '"@ + path + "'"@
}

/// The line that tells the wrapping shell to run `command` on `path`.
pub fn shell_command(command: &str, path: &str) -> (line: String)
    ensures
        line@ == shell_spec(command@, path@),
{
    let mut line = String::from_str(command);
    line.append(" '");
    line.append(path);
    line.append("'");
    line
}

/// How a project is opened.
#[derive(Clone, Copy, Debug, PartialEq, Eq, Structural)]
pub enum Opener {
    /// Run the start script in the project's directory.
    StartScript,
    /// Open the workspace file with the system.
    Workspace,
    /// Open the project file with the system.
    ProjectFile,
    /// Nothing in the directory can be opened.
    Nothing,
}

/// How to open a project, from what its directory holds: a start script comes
/// first, then a workspace file, then a project file.
pub fn choose_opener(has_start_script: bool, has_workspace: bool, has_project_file: bool) -> (opener:
    Opener)
    ensures
        opener == (if has_start_script {
            Opener::StartScript
        } else if has_workspace {
            Opener::Workspace
        } else if has_project_file {
            Opener::ProjectFile
        } else {
            Opener::Nothing
        }),
{
    if has_start_script {
        Opener::StartScript
    } else if has_workspace {
        Opener::Workspace
    } else if has_project_file {
        Opener::ProjectFile
    } else {
        Opener::Nothing
    }
}

} // verus!
