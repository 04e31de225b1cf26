//! The resolver: from a query and a project map to exactly one project, asking
//! again whenever the query is empty or fits several names.

use vstd::prelude::*;
use vstd::string::*;
use crate::projects::{names_holding, Project, ProjectMap};
use crate::text::{is_substring, lemma_empty_is_substring, lemma_substring_length, texts};

verus! {

/// Why a resolution ended without a project.
#[derive(Clone, Copy, Debug, PartialEq, Eq, Structural)]
pub enum ResolutionError {
    /// The map holds no project at all.
    NoProjects,
    /// A non-empty query fits no name, neither exactly nor as a substring.
    NoMatch,
    /// No line could be read when the resolver had to ask.
    InputError,
}

impl ResolutionError {
    /// The text of the error, as it is shown to the user.
    pub fn message(&self) -> (text: String)
        ensures
            text@ == resolution_message(*self),
    {
        match self {
            ResolutionError::NoProjects => String::from_str("No saved projects found"),
            ResolutionError::NoMatch => String::from_str("No matching project found"),
            ResolutionError::InputError => String::from_str("Failed to read input"),
        }
    }
}

/// The text of the error, as it is shown to the user.
pub open spec fn resolution_message(error: ResolutionError) -> Seq<char> {
    match error {
        ResolutionError::NoProjects => "No saved projects found"@,
        ResolutionError::NoMatch => "No matching project found"@,
        ResolutionError::InputError => "Failed to read input"@,
    }
}

/// What one round of resolution decides.
#[derive(Debug)]
pub enum Selection {
    /// The query settles on this project.
    Found(Project),
    /// The caller shows `candidates` under `heading` (no heading when empty),
    /// reads one line and resolves that line against `candidates`.
    Ask { candidates: ProjectMap, heading: String },
    /// The resolution ends here.
    Failed(ResolutionError),
}

/// The mathematical content of a `Selection`.
pub enum Step {
    Found(Seq<char>, Seq<char>),
    Ask(Map<Seq<char>, Seq<char>>, Seq<char>),
    Failed(ResolutionError),
}

impl View for Selection {
    type V = Step;

    open spec fn view(&self) -> Step {
        match self {
            Selection::Found(project) => Step::Found(project.name@, project.path@),
            Selection::Ask { candidates, heading } => Step::Ask(candidates@, heading@),
            Selection::Failed(error) => Step::Failed(*error),
        }
    }
}

impl Selection {
    /// The candidates of a question form a well-formed map.
    pub open spec fn wf(&self) -> bool {
        match self {
            Selection::Ask { candidates, heading } => candidates.wf(),
            _ => true,
        }
    }
}

/// The projects of `projects` whose name holds `query`.
pub open spec fn candidates_of(projects: Map<Seq<char>, Seq<char>>, query: Seq<char>) -> Map<
    Seq<char>,
    Seq<char>,
> {
    projects.restrict(names_holding(query))
}

/// One round of resolution. In this order: an empty map fails; an empty query
/// asks over the whole map under the caller's prompt; a query that is a name
/// finds it; otherwise the names that hold the query decide: none fails, one is
/// found, several are asked about without a heading.
pub open spec fn select_spec(
    query: Seq<char>,
    projects: Map<Seq<char>, Seq<char>>,
    prompt: Seq<char>,
) -> Step {
    let hits = candidates_of(projects, query);
    if projects.dom() =~= Set::<Seq<char>>::empty() {
        Step::Failed(ResolutionError::NoProjects)
    } else if query.len() == 0 {
        Step::Ask(projects, prompt)
    } else if projects.contains_key(query) {
        Step::Found(query, projects[query])
    } else if hits.dom() =~= Set::<Seq<char>>::empty() {
        Step::Failed(ResolutionError::NoMatch)
    } else if hits.dom().len() == 1 {
        Step::Found(hits.dom().choose(), hits[hits.dom().choose()])
    } else {
        Step::Ask(hits, Seq::<char>::empty())
    }
}

/// A whole resolution, where `answers` are the lines read at the questions, in
/// order. A question with no line left to read ends in `InputError`. The path
/// of a project found after a question is the one that `projects` binds to its
/// name.
pub open spec fn resolve_spec(
    query: Seq<char>,
    projects: Map<Seq<char>, Seq<char>>,
    prompt: Seq<char>,
    answers: Seq<Seq<char>>,
) -> Result<(Seq<char>, Seq<char>), ResolutionError>
    decreases answers.len(),
{
    match select_spec(query, projects, prompt) {
        Step::Found(name, path) => Ok((name, path)),
        Step::Failed(error) => Err(error),
        Step::Ask(candidates, heading) => if answers.len() == 0 {
            Err(ResolutionError::InputError)
        } else {
            match resolve_spec(answers[0], candidates, Seq::<char>::empty(), answers.drop_first()) {
                Ok((name, path)) => Ok((name, projects[name])),
                Err(error) => Err(error),
            }
        },
    }
}

/// A finite set with one element holds nothing else.
proof fn lemma_one_element(s: Set<Seq<char>>, a: Seq<char>, b: Seq<char>)
    requires
        s.finite(),
        s.len() == 1,
        s.contains(a),
        s.contains(b),
    ensures
        a == b,
{
    if a != b {
        assert(s.remove(a).len() == 0);
        assert(s.remove(a).contains(b));
    }
}

/// One round of resolution of `query` against `projects`. Nothing is read or
/// printed: a `Selection::Ask` tells the caller to do so.
pub fn select_project(query: &str, projects: &ProjectMap, prompt: &str) -> (selection: Selection)
    requires
        projects.wf(),
    ensures
        selection.wf(),
        selection@ == select_spec(query@, projects@, prompt@),
{
    proof {
        projects.lemma_finite();
    }
    if projects.is_empty() {
        return Selection::Failed(ResolutionError::NoProjects);
    }
    assert(!(projects@.dom() =~= Set::<Seq<char>>::empty())) by {
        if projects@.dom() =~= Set::<Seq<char>>::empty() {
            assert(projects@.dom().len() == 0);
        }
    }
    if query.is_empty() {
        return Selection::Ask { candidates: projects.copied(), heading: String::from_str(prompt) };
    }
    match projects.get(query) {
        Some(path) => {
            return Selection::Found(Project { name: String::from_str(query), path: path.clone() });
        },
        None => {},
    }
    let hits = projects.matching(query);
    proof {
        hits.lemma_finite();
    }
    let count = hits.len();
    if count == 0 {
        assert(hits@.dom() =~= Set::<Seq<char>>::empty());
        Selection::Failed(ResolutionError::NoMatch)
    } else if count == 1 {
        let only = &hits.entries()[0];
        proof {
            assert(hits@.dom().contains(only.name@));
            assert(hits@.dom().contains(hits@.dom().choose()));
            lemma_one_element(hits@.dom(), only.name@, hits@.dom().choose());
        }
        Selection::Found(Project { name: only.name.clone(), path: only.path.clone() })
    } else {
        assert(!(hits@.dom() =~= Set::<Seq<char>>::empty())) by {
            if hits@.dom() =~= Set::<Seq<char>>::empty() {
                assert(hits@.dom().len() == 0);
            }
        }
        Selection::Ask { candidates: hits, heading: String::new() }
    }
}

/// A sub-map: every binding of `part` is a binding of `whole`.
pub open spec fn is_submap(part: Map<Seq<char>, Seq<char>>, whole: Map<Seq<char>, Seq<char>>) -> bool {
    forall|name: Seq<char>| #[trigger]
        part.contains_key(name) ==> whole.contains_key(name) && whole[name] == part[name]
}

/// A question never widens the choice: what is asked about is a finite,
/// non-empty sub-map of the map that was resolved against.
pub proof fn lemma_question_narrows(
    query: Seq<char>,
    projects: Map<Seq<char>, Seq<char>>,
    prompt: Seq<char>,
)
    requires
        projects.dom().finite(),
    ensures
        match select_spec(query, projects, prompt) {
            Step::Ask(candidates, heading) => {
                &&& is_submap(candidates, projects)
                &&& candidates.dom().finite()
                &&& candidates.dom().len() <= projects.dom().len()
                &&& candidates.dom().len() > 0
                &&& query.len() == 0 ==> candidates == projects && heading == prompt
                &&& query.len() > 0 ==> heading.len() == 0 && candidates.dom().len() >= 2
                    && forall|name: Seq<char>|
                    candidates.contains_key(name) <==> projects.contains_key(name) && is_substring(
                        query,
                        name,
                    )
            },
            Step::Found(name, path) => projects.contains_key(name) && projects[name] == path
                && name.len() > 0 && is_substring(query, name),
            Step::Failed(error) => error != ResolutionError::InputError,
        },
{
    let hits = candidates_of(projects, query);
    assert(hits.dom() =~= projects.dom().intersect(names_holding(query)));
    vstd::set_lib::lemma_len_intersect(projects.dom(), names_holding(query));
    if projects.dom() =~= Set::<Seq<char>>::empty() {
    } else if query.len() == 0 {
        if projects.dom().len() == 0 {
            assert(projects.dom() =~= Set::<Seq<char>>::empty());
        }
    } else if projects.contains_key(query) {
        crate::text::lemma_substring_of_itself(query);
    } else if hits.dom() =~= Set::<Seq<char>>::empty() {
    } else {
        if hits.dom().len() == 0 {
            assert(hits.dom() =~= Set::<Seq<char>>::empty());
        }
        if hits.dom().len() == 1 {
            let name = hits.dom().choose();
            assert(hits.dom().contains(name));
            lemma_substring_length(query, name);
        }
    }
}

/// Whatever a resolution finds is a binding of the map it was given: the name
/// is one of its names, not empty, and the path is the one bound to it.
pub proof fn lemma_resolved_is_entry(
    query: Seq<char>,
    projects: Map<Seq<char>, Seq<char>>,
    prompt: Seq<char>,
    answers: Seq<Seq<char>>,
)
    requires
        projects.dom().finite(),
    ensures
        match resolve_spec(query, projects, prompt, answers) {
            Ok((name, path)) => projects.contains_key(name) && projects[name] == path && name.len()
                > 0,
            Err(_) => true,
        },
    decreases answers.len(),
{
    lemma_question_narrows(query, projects, prompt);
    match select_spec(query, projects, prompt) {
        Step::Ask(candidates, heading) => {
            if answers.len() > 0 {
                lemma_resolved_is_entry(
                    answers[0],
                    candidates,
                    Seq::<char>::empty(),
                    answers.drop_first(),
                );
            }
        },
        _ => {},
    }
}

/// A query that is itself a name resolves to that name and its path, whatever
/// other names hold it as a substring, and without a question.
pub proof fn lemma_exact_name_wins(
    query: Seq<char>,
    projects: Map<Seq<char>, Seq<char>>,
    prompt: Seq<char>,
    answers: Seq<Seq<char>>,
)
    requires
        projects.dom().finite(),
        query.len() > 0,
        projects.contains_key(query),
    ensures
        select_spec(query, projects, prompt) == Step::Found(query, projects[query]),
        resolve_spec(query, projects, prompt, answers) == Ok::<
            (Seq<char>, Seq<char>),
            ResolutionError,
        >((query, projects[query])),
{
    assert(projects.dom().contains(query));
}

/// Every name of a project map resolves to itself and its path, whatever
/// other names hold it as a substring: a project's name is never empty, so it
/// is never taken for a missing query.
pub proof fn lemma_every_name_resolves(
    projects: &ProjectMap,
    name: Seq<char>,
    prompt: Seq<char>,
    answers: Seq<Seq<char>>,
)
    requires
        projects.wf(),
        projects@.contains_key(name),
    ensures
        resolve_spec(name, projects@, prompt, answers) == Ok::<
            (Seq<char>, Seq<char>),
            ResolutionError,
        >((name, projects@[name])),
{
    projects.lemma_finite();
    projects.lemma_names_not_empty();
    lemma_exact_name_wins(name, projects@, prompt, answers);
}

/// On a map that is not empty, a query that no name holds fails with `NoMatch`,
/// without a question.
pub proof fn lemma_no_match(
    query: Seq<char>,
    projects: Map<Seq<char>, Seq<char>>,
    prompt: Seq<char>,
    answers: Seq<Seq<char>>,
)
    requires
        projects.dom().finite(),
        projects.dom().len() > 0,
        forall|name: Seq<char>| projects.contains_key(name) ==> !is_substring(query, name),
    ensures
        select_spec(query, projects, prompt) == Step::Failed(ResolutionError::NoMatch),
        resolve_spec(query, projects, prompt, answers) == Err::<
            (Seq<char>, Seq<char>),
            ResolutionError,
        >(ResolutionError::NoMatch),
{
    let some = projects.dom().choose();
    assert(projects.dom().contains(some)) by {
        if projects.dom() =~= Set::<Seq<char>>::empty() {
        } else {
            assert(projects.dom().len() != 0);
        }
    }
    if query.len() == 0 {
        assert(query =~= Seq::<char>::empty());
        lemma_empty_is_substring(some);
    }
    if projects.contains_key(query) {
        crate::text::lemma_substring_of_itself(query);
    }
    assert(candidates_of(projects, query).dom() =~= Set::<Seq<char>>::empty());
}

/// A non-empty query that exactly one name holds resolves to that name and its
/// path, without a question, also where the query is shorter than the name.
pub proof fn lemma_single_match(
    query: Seq<char>,
    projects: Map<Seq<char>, Seq<char>>,
    prompt: Seq<char>,
    answers: Seq<Seq<char>>,
    name: Seq<char>,
)
    requires
        projects.dom().finite(),
        query.len() > 0,
        projects.contains_key(name),
        is_substring(query, name),
        forall|other: Seq<char>|
            projects.contains_key(other) && is_substring(query, other) ==> other == name,
    ensures
        select_spec(query, projects, prompt) == Step::Found(name, projects[name]),
        resolve_spec(query, projects, prompt, answers) == Ok::<
            (Seq<char>, Seq<char>),
            ResolutionError,
        >((name, projects[name])),
{
    assert(projects.dom().contains(name));
    let hits = candidates_of(projects, query);
    if projects.contains_key(query) {
        crate::text::lemma_substring_of_itself(query);
    } else {
        assert(hits.dom() =~= set![name]);
        assert(hits.dom().contains(name));
        assert(hits.dom().len() == 1);
        assert(hits.dom().contains(hits.dom().choose()));
    }
}

/// On an empty map every resolution fails with `NoProjects`, whatever the
/// query, and no question is asked.
pub proof fn lemma_empty_map(query: Seq<char>, prompt: Seq<char>, answers: Seq<Seq<char>>)
    ensures
        select_spec(query, Map::<Seq<char>, Seq<char>>::empty(), prompt) == Step::Failed(
            ResolutionError::NoProjects,
        ),
        resolve_spec(query, Map::<Seq<char>, Seq<char>>::empty(), prompt, answers) == Err::<
            (Seq<char>, Seq<char>),
            ResolutionError,
        >(ResolutionError::NoProjects),
{
    assert(Map::<Seq<char>, Seq<char>>::empty().dom() =~= Set::<Seq<char>>::empty());
}

/// A non-empty query that two different names hold, and that is no name
/// itself, is asked about: the candidates are exactly the projects whose name
/// holds the query, with their paths, under no heading. Naming one of them in
/// the answer resolves to it, with the path that `projects` binds to it.
pub proof fn lemma_ambiguity_narrows(
    query: Seq<char>,
    projects: Map<Seq<char>, Seq<char>>,
    prompt: Seq<char>,
    answers: Seq<Seq<char>>,
    first: Seq<char>,
    second: Seq<char>,
)
    requires
        projects.dom().finite(),
        query.len() > 0,
        !projects.contains_key(query),
        first != second,
        projects.contains_key(first) && is_substring(query, first),
        projects.contains_key(second) && is_substring(query, second),
    ensures
        select_spec(query, projects, prompt) == Step::Ask(
            candidates_of(projects, query),
            Seq::<char>::empty(),
        ),
        forall|name: Seq<char>|
            candidates_of(projects, query).contains_key(name) <==> projects.contains_key(name)
                && is_substring(query, name),
        is_submap(candidates_of(projects, query), projects),
        answers.len() > 0 && candidates_of(projects, query).contains_key(answers[0])
            ==> resolve_spec(query, projects, prompt, answers) == Ok::<
            (Seq<char>, Seq<char>),
            ResolutionError,
        >((answers[0], projects[answers[0]])),
{
    let hits = candidates_of(projects, query);
    assert(hits.dom() =~= projects.dom().intersect(names_holding(query)));
    vstd::set_lib::lemma_len_intersect(projects.dom(), names_holding(query));
    assert(projects.dom().contains(first));
    assert(hits.dom().contains(first));
    assert(hits.dom().contains(second));
    if hits.dom().len() == 1 {
        lemma_one_element(hits.dom(), first, second);
    }
    if answers.len() > 0 && hits.contains_key(answers[0]) {
        lemma_substring_length(query, answers[0]);
        lemma_exact_name_wins(answers[0], hits, Seq::<char>::empty(), answers.drop_first());
    }
}

/// Resolving twice gives the same: the name that a resolution found resolves,
/// as a query against the same map, to the same project, without a question.
pub proof fn lemma_found_name_resolves_to_itself(
    query: Seq<char>,
    projects: Map<Seq<char>, Seq<char>>,
    prompt: Seq<char>,
    answers: Seq<Seq<char>>,
    again: Seq<Seq<char>>,
)
    requires
        projects.dom().finite(),
        resolve_spec(query, projects, prompt, answers) is Ok,
    ensures
        resolve_spec(resolve_spec(query, projects, prompt, answers)->Ok_0.0, projects, prompt, again)
            == resolve_spec(query, projects, prompt, answers),
{
    lemma_resolved_is_entry(query, projects, prompt, answers);
    let found = resolve_spec(query, projects, prompt, answers)->Ok_0;
    lemma_exact_name_wins(found.0, projects, prompt, again);
}

/// A resolution that waits for a line: the map it began with, and what is to
/// be shown before the line is read.
#[derive(Debug)]
pub struct Pending {
    /// The map that the resolution began with; paths are taken from it.
    pub projects: ProjectMap,
    /// The projects to list.
    pub candidates: ProjectMap,
    /// The heading of the listing; none where it is empty.
    pub heading: String,
}

/// How far a resolution has come.
#[derive(Debug)]
pub enum Progress {
    /// It has ended, with a project or an error.
    Done(Result<Project, ResolutionError>),
    /// It waits for the next line.
    Waiting(Pending),
}

/// What a waiting resolution comes to when `answers` are the lines still to
/// be read: the first is resolved against the candidates under no heading, and
/// a found name gets its path from `projects`.
pub open spec fn pending_spec(
    projects: Map<Seq<char>, Seq<char>>,
    candidates: Map<Seq<char>, Seq<char>>,
    answers: Seq<Seq<char>>,
) -> Result<(Seq<char>, Seq<char>), ResolutionError> {
    if answers.len() == 0 {
        Err(ResolutionError::InputError)
    } else {
        match resolve_spec(answers[0], candidates, Seq::<char>::empty(), answers.drop_first()) {
            Ok((name, path)) => Ok((name, projects[name])),
            Err(error) => Err(error),
        }
    }
}

impl Pending {
    /// Both maps are well-formed, and the candidates are projects of the map
    /// that the resolution began with.
    pub open spec fn wf(&self) -> bool {
        &&& self.projects.wf()
        &&& self.candidates.wf()
        &&& is_submap(self.candidates@, self.projects@)
    }

    /// Takes the line that was read and goes on: the line is resolved against
    /// the candidates, under no heading.
    pub fn answer(self, line: &str) -> (next: Progress)
        requires
            self.wf(),
        ensures
            next.wf(),
            forall|rest: Seq<Seq<char>>| #[trigger]
                next.outcome(rest) == pending_spec(
                    self.projects@,
                    self.candidates@,
                    seq![line@] + rest,
                ),
            match next {
                Progress::Waiting(pending) => pending.projects@ == self.projects@ && select_spec(
                    line@,
                    self.candidates@,
                    Seq::<char>::empty(),
                ) == Step::Ask(pending.candidates@, pending.heading@),
                Progress::Done(_) => !(select_spec(line@, self.candidates@, Seq::<char>::empty())
                    is Ask),
            },
    {
        let none = String::new();
        let ghost first = self.projects@;
        let ghost asked = self.candidates@;
        proof {
            self.candidates.lemma_finite();
            lemma_question_narrows(line@, asked, Seq::<char>::empty());
        }
        let next = match select_project(line, &self.candidates, none.as_str()) {
            Selection::Found(chosen) => {
                match self.projects.get(chosen.name.as_str()) {
                    Some(path) => Progress::Done(Ok(Project { name: chosen.name, path: path.clone() })),
                    None => {
                        // A candidate is always a project of the first map.
                        assert(false);
                        Progress::Done(Err(ResolutionError::NoMatch))
                    },
                }
            },
            Selection::Failed(error) => Progress::Done(Err(error)),
            Selection::Ask { candidates, heading } => Progress::Waiting(
                Pending { projects: self.projects, candidates, heading },
            ),
        };
        proof {
            assert forall|rest: Seq<Seq<char>>| #[trigger]
                next.outcome(rest) == pending_spec(first, asked, seq![line@] + rest) by {
                let all = seq![line@] + rest;
                assert(all[0] == line@);
                assert(all.drop_first() =~= rest);
            }
        }
        next
    }
}

impl Progress {
    /// A waiting resolution is well-formed.
    pub open spec fn wf(&self) -> bool {
        match self {
            Progress::Waiting(pending) => pending.wf(),
            Progress::Done(_) => true,
        }
    }

    /// What the resolution comes to when `answers` are the lines still to be
    /// read.
    pub open spec fn outcome(&self, answers: Seq<Seq<char>>) -> Result<
        (Seq<char>, Seq<char>),
        ResolutionError,
    > {
        match self {
            Progress::Done(Ok(project)) => Ok(project@),
            Progress::Done(Err(error)) => Err(*error),
            Progress::Waiting(pending) => pending_spec(
                pending.projects@,
                pending.candidates@,
                answers,
            ),
        }
    }
}

/// Begins to resolve `query` against `projects`. Where the result waits, the
/// caller lists its candidates under its heading, reads a line and hands it to
/// `Pending::answer`, until the resolution is done.
pub fn begin(query: &str, projects: &ProjectMap, prompt: &str) -> (progress: Progress)
    requires
        projects.wf(),
    ensures
        progress.wf(),
        forall|answers: Seq<Seq<char>>| #[trigger]
            progress.outcome(answers) == resolve_spec(query@, projects@, prompt@, answers),
        match progress {
            Progress::Waiting(pending) => pending.projects@ == projects@ && select_spec(
                query@,
                projects@,
                prompt@,
            ) == Step::Ask(pending.candidates@, pending.heading@),
            Progress::Done(_) => !(select_spec(query@, projects@, prompt@) is Ask),
        },
{
    proof {
        projects.lemma_finite();
        lemma_question_narrows(query@, projects@, prompt@);
    }
    match select_project(query, projects, prompt) {
        Selection::Found(found) => Progress::Done(Ok(found)),
        Selection::Failed(error) => Progress::Done(Err(error)),
        Selection::Ask { candidates, heading } => Progress::Waiting(
            Pending { projects: projects.copied(), candidates, heading },
        ),
    }
}

/// A sub-range of the answers, as texts.
proof fn lemma_texts_skip(answers: Seq<String>, start: int)
    requires
        0 <= start < answers.len(),
    ensures
        texts(answers).skip(start)[0] == answers[start]@,
        texts(answers).skip(start).drop_first() == texts(answers).skip(start + 1),
{
    assert(texts(answers).skip(start).drop_first() =~= texts(answers).skip(start + 1));
}

fn resolve_from(
    query: &str,
    projects: &ProjectMap,
    prompt: &str,
    answers: &Vec<String>,
    start: usize,
) -> (found: Result<Project, ResolutionError>)
    requires
        projects.wf(),
        start <= answers@.len(),
    ensures
        match found {
            Ok(project) => resolve_spec(query@, projects@, prompt@, texts(answers@).skip(start as int))
                == Ok::<(Seq<char>, Seq<char>), ResolutionError>(project@),
            Err(error) => resolve_spec(query@, projects@, prompt@, texts(answers@).skip(start as int))
                == Err::<(Seq<char>, Seq<char>), ResolutionError>(error),
        },
    decreases answers@.len() - start,
{
    let ghost rest = texts(answers@).skip(start as int);
    match select_project(query, projects, prompt) {
        Selection::Found(project) => Ok(project),
        Selection::Failed(error) => Err(error),
        Selection::Ask { candidates, heading } => {
            if start >= answers.len() {
                return Err(ResolutionError::InputError);
            }
            proof {
                lemma_texts_skip(answers@, start as int);
                projects.lemma_finite();
                candidates.lemma_finite();
                lemma_question_narrows(query@, projects@, prompt@);
                lemma_resolved_is_entry(
                    rest[0],
                    candidates@,
                    Seq::<char>::empty(),
                    rest.drop_first(),
                );
            }
            match resolve_from(answers[start].as_str(), &candidates, "", answers, start + 1) {
                Ok(chosen) => {
                    match projects.get(chosen.name.as_str()) {
                        Some(path) => Ok(Project { name: chosen.name, path: path.clone() }),
                        None => {
                            // A candidate is always a project of the map it came from.
                            assert(false);
                            Err(ResolutionError::NoMatch)
                        },
                    }
                },
                Err(error) => Err(error),
            }
        },
    }
}

/// Resolves `query` against `projects`, taking the lines that the questions
/// read from `answers`, in order.
pub fn resolve(query: &str, projects: &ProjectMap, prompt: &str, answers: &Vec<String>) -> (found:
    Result<Project, ResolutionError>)
    requires
        projects.wf(),
    ensures
        match found {
            Ok(project) => resolve_spec(query@, projects@, prompt@, texts(answers@)) == Ok::<
                (Seq<char>, Seq<char>),
                ResolutionError,
            >(project@) && projects@.contains_key(project.name@) && projects@[project.name@]
                == project.path@,
            Err(error) => resolve_spec(query@, projects@, prompt@, texts(answers@)) == Err::<
                (Seq<char>, Seq<char>),
                ResolutionError,
            >(error),
        },
{
    proof {
        assert(texts(answers@).skip(0) =~= texts(answers@));
        projects.lemma_finite();
        lemma_resolved_is_entry(query@, projects@, prompt@, texts(answers@));
    }
    resolve_from(query, projects, prompt, answers, 0)
}

} // verus!
