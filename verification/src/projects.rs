//! The project map: project names, each bound to one path.

use vstd::prelude::*;
use vstd::string::*;
use crate::text::{is_substring, same_text, text_contains};

verus! {

/// One bookmark: a name and the path it stands for.
#[derive(Debug)]
pub struct Project {
    pub name: String,
    pub path: String,
}

impl View for Project {
    type V = (Seq<char>, Seq<char>);

    open spec fn view(&self) -> (Seq<char>, Seq<char>) {
        (self.name@, self.path@)
    }
}

/// A name with its path.
pub type Row = (Seq<char>, Seq<char>);

/// The names and paths of `entries`.
pub open spec fn views(entries: Seq<Project>) -> Seq<Row> {
    Seq::new(entries.len(), |i: int| entries[i]@)
}

/// The map that binding `rows` one after the other gives: a name that comes
/// again takes the later path.
pub open spec fn bindings(rows: Seq<Row>) -> Map<Seq<char>, Seq<char>>
    decreases rows.len(),
{
    if rows.len() == 0 {
        Map::empty()
    } else {
        bindings(rows.drop_last()).insert(rows.last().0, rows.last().1)
    }
}

/// Every row has a name that is not empty.
pub open spec fn all_named(rows: Seq<Row>) -> bool {
    forall|i: int| 0 <= i < rows.len() ==> (#[trigger] rows[i]).0.len() > 0
}

/// What `rows` bind holds the name of each of them.
pub proof fn lemma_bindings_hold(rows: Seq<Row>, i: int)
    requires
        0 <= i < rows.len(),
    ensures
        bindings(rows).contains_key(rows[i].0),
    decreases rows.len(),
{
    if i < rows.len() - 1 {
        lemma_bindings_hold(rows.drop_last(), i);
    }
}

/// A mapping from project names to paths. A name is not empty and occurs at
/// most once; binding a name again replaces its path.
#[derive(Debug)]
pub struct ProjectMap {
    entries: Vec<Project>,
}

/// The names that hold `query` as a substring.
pub open spec fn names_holding(query: Seq<char>) -> Set<Seq<char>> {
    Set::new(|name: Seq<char>| is_substring(query, name))
}

impl View for ProjectMap {
    type V = Map<Seq<char>, Seq<char>>;

    closed spec fn view(&self) -> Map<Seq<char>, Seq<char>> {
        Map::new(|name: Seq<char>| self.holds(name), |name: Seq<char>| self.entries@[self.slot(name)].path@)
    }
}

impl ProjectMap {
    spec fn holds(&self, name: Seq<char>) -> bool {
        exists|i: int| 0 <= i < self.entries@.len() && (#[trigger] self.entries@[i]).name@ == name
    }

    spec fn slot(&self, name: Seq<char>) -> int {
        choose|i: int| 0 <= i < self.entries@.len() && (#[trigger] self.entries@[i]).name@ == name
    }

    spec fn distinct(&self) -> bool {
        forall|i: int, j: int|
            0 <= i < j < self.entries@.len() ==> (#[trigger] self.entries@[i]).name@ != (
            #[trigger] self.entries@[j]).name@
    }

    spec fn named(&self) -> bool {
        forall|i: int| 0 <= i < self.entries@.len() ==> (#[trigger] self.entries@[i]).name@.len() > 0
    }

    /// No name is empty, no name occurs twice, and the map has as many names
    /// as entries.
    pub closed spec fn wf(&self) -> bool {
        &&& self.named()
        &&& self.distinct()
        &&& self@.dom().finite()
        &&& self@.dom().len() == self.entries@.len()
    }

    /// A well-formed map is finite.
    pub proof fn lemma_finite(&self)
        requires
            self.wf(),
        ensures
            self@.dom().finite(),
    {
    }

    /// A well-formed map binds no empty name.
    pub proof fn lemma_names_not_empty(&self)
        requires
            self.wf(),
        ensures
            forall|name: Seq<char>| self@.contains_key(name) ==> name.len() > 0,
    {
        assert forall|name: Seq<char>| self@.contains_key(name) implies name.len() > 0 by {
            let i = self.slot(name);
            assert(self.entries@[i].name@ == name);
        }
    }

    proof fn lemma_entry(&self, i: int)
        requires
            self.distinct(),
            0 <= i < self.entries@.len(),
        ensures
            self@.contains_key(self.entries@[i].name@),
            self@[self.entries@[i].name@] == self.entries@[i].path@,
            self.slot(self.entries@[i].name@) == i,
    {
        let name = self.entries@[i].name@;
        assert(self.holds(name));
        let s = self.slot(name);
        assert(self.entries@[s].name@ == name);
        if s < i {
            assert(self.entries@[s].name@ != self.entries@[i].name@);
        } else if i < s {
            assert(self.entries@[i].name@ != self.entries@[s].name@);
        }
    }

    /// An empty map.
    pub fn new() -> (projects: ProjectMap)
        ensures
            projects.wf(),
            projects@ == Map::<Seq<char>, Seq<char>>::empty(),
    {
        let projects = ProjectMap { entries: Vec::new() };
        proof {
            assert(projects@ =~= Map::<Seq<char>, Seq<char>>::empty());
        }
        projects
    }

    /// The map that binding `entries` one after the other gives; none where
    /// one of them has an empty name.
    pub fn from_entries(entries: Vec<Project>) -> (made: Option<ProjectMap>)
        ensures
            match made {
                Some(projects) => all_named(views(entries@)) && projects.wf() && projects@
                    == bindings(views(entries@)),
                None => !all_named(views(entries@)),
            },
    {
        let mut projects = ProjectMap::new();
        let ghost all = views(entries@);
        let mut i: usize = 0;
        while i < entries.len()
            invariant
                i <= entries@.len(),
                all == views(entries@),
                projects.wf(),
                projects@ == bindings(all.take(i as int)),
                forall|j: int| 0 <= j < i ==> (#[trigger] all[j]).0.len() > 0,
            decreases entries@.len() - i,
        {
            proof {
                assert(all.take(i + 1).drop_last() =~= all.take(i as int));
                assert(all.take(i + 1).last() == entries@[i as int]@);
                assert(all[i as int] == entries@[i as int]@);
            }
            let bound = projects.insert(entries[i].name.clone(), entries[i].path.clone());
            if !bound {
                return None;
            }
            i += 1;
        }
        proof {
            assert(all.take(i as int) =~= all);
        }
        Some(projects)
    }

    /// Whether two maps bind the same names to the same paths.
    pub fn same_bindings(&self, other: &ProjectMap) -> (same: bool)
        requires
            self.wf(),
            other.wf(),
        ensures
            same == (self@ == other@),
    {
        if self.entries.len() != other.entries.len() {
            return false;
        }
        let mut i: usize = 0;
        while i < self.entries.len()
            invariant
                self.wf(),
                other.wf(),
                i <= self.entries@.len(),
                forall|j: int|
                    0 <= j < i ==> other@.contains_key((#[trigger] self.entries@[j]).name@)
                        && other@[self.entries@[j].name@] == self.entries@[j].path@,
            decreases self.entries@.len() - i,
        {
            proof {
                self.lemma_entry(i as int);
            }
            match other.get(self.entries[i].name.as_str()) {
                Some(path) => {
                    if !same_text(path.as_str(), self.entries[i].path.as_str()) {
                        return false;
                    }
                },
                None => {
                    return false;
                },
            }
            i += 1;
        }
        proof {
            assert forall|name: Seq<char>| self@.contains_key(name) implies other@.contains_key(
                name,
            ) && other@[name] == self@[name] by {
                let j = self.slot(name);
                self.lemma_entry(j);
            }
            assert(self@.dom().subset_of(other@.dom()));
            vstd::set_lib::lemma_subset_equality(self@.dom(), other@.dom());
            assert(self@ =~= other@);
        }
        true
    }

    /// The number of projects.
    pub fn len(&self) -> (count: usize)
        requires
            self.wf(),
        ensures
            count == self@.len(),
    {
        self.entries.len()
    }

    /// Whether the map holds no project.
    pub fn is_empty(&self) -> (empty: bool)
        requires
            self.wf(),
        ensures
            empty == (self@.len() == 0),
            empty == (self@ == Map::<Seq<char>, Seq<char>>::empty()),
    {
        proof {
            if self.entries@.len() == 0 {
                assert(self@ =~= Map::<Seq<char>, Seq<char>>::empty());
            }
        }
        self.entries.len() == 0
    }

    fn position(&self, name: &str) -> (found: Option<usize>)
        requires
            self.wf(),
        ensures
            match found {
                Some(i) => i < self.entries@.len() && self.entries@[i as int].name@ == name@,
                None => !self@.contains_key(name@),
            },
    {
        let mut i: usize = 0;
        while i < self.entries.len()
            invariant
                i <= self.entries@.len(),
                forall|j: int| 0 <= j < i ==> (#[trigger] self.entries@[j]).name@ != name@,
            decreases self.entries@.len() - i,
        {
            if same_text(self.entries[i].name.as_str(), name) {
                return Some(i);
            }
            i += 1;
        }
        None
    }

    /// Whether `name` is bound.
    pub fn contains_key(&self, name: &str) -> (bound: bool)
        requires
            self.wf(),
        ensures
            bound == self@.contains_key(name@),
    {
        match self.position(name) {
            Some(i) => {
                proof {
                    self.lemma_entry(i as int);
                }
                true
            },
            None => false,
        }
    }

    /// The path bound to `name`, if any.
    pub fn get(&self, name: &str) -> (path: Option<&String>)
        requires
            self.wf(),
        ensures
            match path {
                Some(p) => self@.contains_key(name@) && p@ == self@[name@],
                None => !self@.contains_key(name@),
            },
    {
        match self.position(name) {
            Some(i) => {
                proof {
                    self.lemma_entry(i as int);
                }
                Some(&self.entries[i].path)
            },
            None => None,
        }
    }

    /// The entries, each name once, in no particular order.
    pub fn entries(&self) -> (all: &Vec<Project>)
        requires
            self.wf(),
        ensures
            all@.len() == self@.len(),
            forall|i: int, j: int|
                0 <= i < j < all@.len() ==> (#[trigger] all@[i]).name@ != (#[trigger] all@[j]).name@,
            forall|i: int|
                0 <= i < all@.len() ==> self@.contains_key((#[trigger] all@[i]).name@)
                    && self@[all@[i].name@] == all@[i].path@,
            forall|name: Seq<char>|
                self@.contains_key(name) ==> exists|i: int|
                    0 <= i < all@.len() && (#[trigger] all@[i]).name@ == name,
    {
        proof {
            assert forall|i: int| 0 <= i < self.entries@.len() implies self@.contains_key(
                (#[trigger] self.entries@[i]).name@,
            ) && self@[self.entries@[i].name@] == self.entries@[i].path@ by {
                self.lemma_entry(i);
            }
        }
        &self.entries
    }

    /// Binds `name` to `path`; an earlier path of that name is replaced. An
    /// empty name is no name: it is not bound, and the map stays as it is.
    pub fn insert(&mut self, name: String, path: String) -> (bound: bool)
        requires
            old(self).wf(),
        ensures
            final(self).wf(),
            bound == (name@.len() > 0),
            bound ==> final(self)@ == old(self)@.insert(name@, path@),
            !bound ==> final(self)@ == old(self)@,
    {
        if name.as_str().is_empty() {
            return false;
        }
        let found = self.position(name.as_str());
        let ghost before = *self;
        let ghost key = name@;
        let ghost value = path@;
        match found {
            Some(i) => {
                self.entries.set(i, Project { name, path });
                proof {
                    assert forall|k: Seq<char>| self.holds(k) <==> before.holds(k) by {
                        if self.holds(k) {
                            let j = self.slot(k);
                            assert(before.entries@[j].name@ == k);
                        }
                        if before.holds(k) {
                            let j = before.slot(k);
                            assert(self.entries@[j].name@ == k);
                        }
                    }
                    before.lemma_entry(i as int);
                    assert(self@.dom() =~= before@.dom());
                    assert forall|j: int| 0 <= j < self.entries@.len() implies (
                    #[trigger] self.entries@[j]).name@.len() > 0 by {
                        if j != i {
                            assert(before.entries@[j].name@.len() > 0);
                        }
                    }
                    assert(self.wf());
                    assert forall|k: Seq<char>| self@.contains_key(k) implies #[trigger] self@[k]
                        == before@.insert(key, value)[k] by {
                        let j = self.slot(k);
                        self.lemma_entry(j);
                        if j != i {
                            before.lemma_entry(j);
                        }
                    }
                    assert(self@ =~= before@.insert(key, value));
                }
            },
            None => {
                self.entries.push(Project { name, path });
                proof {
                    let n = before.entries@.len() as int;
                    assert(self.entries@[n].name@ == key);
                    assert forall|k: Seq<char>| self.holds(k) <==> (before.holds(k) || k
                        == key) by {
                        if self.holds(k) {
                            let j = self.slot(k);
                            if j < n {
                                assert(before.entries@[j].name@ == k);
                            }
                        }
                        if before.holds(k) {
                            let j = before.slot(k);
                            assert(self.entries@[j].name@ == k);
                        }
                    }
                    assert(self@.dom() =~= before@.dom().insert(key));
                    assert forall|i: int, j: int| 0 <= i < j < self.entries@.len() implies (
                    #[trigger] self.entries@[i]).name@ != (#[trigger] self.entries@[j]).name@ by {
                        if j == n {
                            assert(before.entries@[i].name@ == self.entries@[i].name@);
                            assert(before.holds(self.entries@[i].name@));
                        } else {
                            assert(before.entries@[i].name@ == self.entries@[i].name@);
                            assert(before.entries@[j].name@ == self.entries@[j].name@);
                        }
                    }
                    assert forall|j: int| 0 <= j < self.entries@.len() implies (
                    #[trigger] self.entries@[j]).name@.len() > 0 by {
                        if j < n {
                            assert(before.entries@[j].name@.len() > 0);
                        }
                    }
                    assert(self.wf());
                    assert forall|k: Seq<char>| self@.contains_key(k) implies #[trigger] self@[k]
                        == before@.insert(key, value)[k] by {
                        let j = self.slot(k);
                        self.lemma_entry(j);
                        if j < n {
                            before.lemma_entry(j);
                        }
                    }
                    assert(self@ =~= before@.insert(key, value));
                }
            },
        }
        true
    }

    /// Unbinds `name`; a map without that name stays as it is.
    pub fn remove(&mut self, name: &str)
        requires
            old(self).wf(),
        ensures
            final(self).wf(),
            final(self)@ == old(self)@.remove(name@),
    {
        let found = self.position(name);
        let ghost before = *self;
        match found {
            Some(i) => {
                self.entries.remove(i);
                proof {
                    let key = name@;
                    before.lemma_entry(i as int);
                    assert forall|j: int| 0 <= j < self.entries@.len() implies (
                    #[trigger] self.entries@[j]) == before.entries@[if j < i {
                        j
                    } else {
                        j + 1
                    }] by {}
                    assert forall|k: Seq<char>| self.holds(k) <==> (before.holds(k) && k
                        != key) by {
                        if self.holds(k) {
                            let j = self.slot(k);
                            let b = if j < i { j } else { j + 1 };
                            assert(before.entries@[b].name@ == k);
                            before.lemma_entry(b);
                        }
                        if before.holds(k) && k != key {
                            let b = before.slot(k);
                            let j = if b < i { b } else { b - 1 };
                            assert(self.entries@[j].name@ == k);
                        }
                    }
                    assert(self@.dom() =~= before@.dom().remove(key));
                    assert forall|a: int, b: int| 0 <= a < b < self.entries@.len() implies (
                    #[trigger] self.entries@[a]).name@ != (#[trigger] self.entries@[b]).name@ by {
                        let a0 = if a < i { a } else { a + 1 };
                        let b0 = if b < i { b } else { b + 1 };
                        assert(before.entries@[a0].name@ != before.entries@[b0].name@);
                    }
                    assert forall|j: int| 0 <= j < self.entries@.len() implies (
                    #[trigger] self.entries@[j]).name@.len() > 0 by {
                        let j0 = if j < i { j } else { j + 1 };
                        assert(before.entries@[j0].name@.len() > 0);
                    }
                    assert(self.wf());
                    assert forall|k: Seq<char>| self@.contains_key(k) implies #[trigger] self@[k]
                        == before@.remove(key)[k] by {
                        let j = self.slot(k);
                        self.lemma_entry(j);
                        let b = if j < i { j } else { j + 1 };
                        before.lemma_entry(b);
                    }
                    assert(self@ =~= before@.remove(key));
                }
            },
            None => {
                proof {
                    assert(self@ =~= before@.remove(name@));
                }
            },
        }
    }

    /// A copy with the same names and paths.
    pub fn copied(&self) -> (copy: ProjectMap)
        requires
            self.wf(),
        ensures
            copy.wf(),
            copy@ == self@,
    {
        let mut entries: Vec<Project> = Vec::new();
        let mut i: usize = 0;
        while i < self.entries.len()
            invariant
                i <= self.entries@.len(),
                entries@.len() == i,
                forall|j: int| 0 <= j < i ==> (#[trigger] entries@[j])@ == self.entries@[j]@,
            decreases self.entries@.len() - i,
        {
            let entry = &self.entries[i];
            entries.push(Project { name: entry.name.clone(), path: entry.path.clone() });
            i += 1;
        }
        let copy = ProjectMap { entries };
        proof {
            assert forall|a: int, b: int| 0 <= a < b < copy.entries@.len() implies (
            #[trigger] copy.entries@[a]).name@ != (#[trigger] copy.entries@[b]).name@ by {
                assert(copy.entries@[a]@ == self.entries@[a]@);
                assert(copy.entries@[b]@ == self.entries@[b]@);
            }
            assert forall|j: int| 0 <= j < copy.entries@.len() implies (
            #[trigger] copy.entries@[j]).name@.len() > 0 by {
                assert(copy.entries@[j]@ == self.entries@[j]@);
                assert(self.entries@[j].name@.len() > 0);
            }
            assert forall|k: Seq<char>| copy.holds(k) <==> self.holds(k) by {
                if copy.holds(k) {
                    let j = copy.slot(k);
                    assert(copy.entries@[j]@ == self.entries@[j]@);
                }
                if self.holds(k) {
                    let j = self.slot(k);
                    assert(copy.entries@[j]@ == self.entries@[j]@);
                }
            }
            assert(copy@.dom() =~= self@.dom());
            assert forall|k: Seq<char>| copy@.contains_key(k) implies #[trigger] copy@[k]
                == self@[k] by {
                let j = copy.slot(k);
                copy.lemma_entry(j);
                assert(copy.entries@[j]@ == self.entries@[j]@);
                self.lemma_entry(j);
            }
            assert(copy@ =~= self@);
        }
        copy
    }

    spec fn holds_before(&self, name: Seq<char>, end: int) -> bool {
        exists|j: int| 0 <= j < end && (#[trigger] self.entries@[j]).name@ == name
    }

    /// The sub-map of the projects whose name holds `query` as a substring,
    /// each with its path unchanged.
    pub fn matching(&self, query: &str) -> (subset: ProjectMap)
        requires
            self.wf(),
        ensures
            subset.wf(),
            subset@ == self@.restrict(names_holding(query@)),
    {
        let mut subset = ProjectMap::new();
        let mut i: usize = 0;
        while i < self.entries.len()
            invariant
                self.wf(),
                subset.wf(),
                i <= self.entries@.len(),
                forall|k: Seq<char>| #[trigger]
                    subset@.contains_key(k) <==> (is_substring(query@, k) && self.holds_before(
                        k,
                        i as int,
                    )),
                forall|k: Seq<char>| #[trigger]
                    subset@.contains_key(k) ==> self@.contains_key(k) && subset@[k] == self@[k],
            decreases self.entries@.len() - i,
        {
            let entry = &self.entries[i];
            proof {
                self.lemma_entry(i as int);
                assert(self.entries@[i as int].name@.len() > 0);
            }
            let ghost earlier = subset@;
            let hit = text_contains(entry.name.as_str(), query);
            if hit {
                subset.insert(entry.name.clone(), entry.path.clone());
            }
            proof {
                let name = self.entries@[i as int].name@;
                assert forall|k: Seq<char>| #[trigger]
                    subset@.contains_key(k) <==> (is_substring(query@, k) && self.holds_before(
                        k,
                        i + 1,
                    )) by {
                    if subset@.contains_key(k) {
                        if earlier.contains_key(k) {
                            assert(self.holds_before(k, i as int));
                            let j = choose|j: int|
                                0 <= j < i && (#[trigger] self.entries@[j]).name@ == k;
                            assert(0 <= j < i + 1 && self.entries@[j].name@ == k);
                        } else {
                            assert(k == name);
                        }
                    }
                    if is_substring(query@, k) && self.holds_before(k, i + 1) {
                        let j = choose|j: int|
                            0 <= j < i + 1 && (#[trigger] self.entries@[j]).name@ == k;
                        if j < i {
                            assert(self.holds_before(k, i as int));
                            assert(earlier.contains_key(k));
                        }
                    }
                }
            }
            i += 1;
        }
        proof {
            assert forall|k: Seq<char>|
                subset@.contains_key(k) <==> (self@.contains_key(k) && is_substring(
                    query@,
                    k,
                )) by {
                if self@.contains_key(k) && is_substring(query@, k) {
                    let j = self.slot(k);
                    assert(self.entries@[j].name@ == k);
                    assert(self.holds_before(k, i as int));
                }
            }
            assert(subset@ =~= self@.restrict(names_holding(query@)));
        }
        subset
    }
}

} // verus!
