//! The search engine: the set of known files, one result group per file, and
//! the fuzzy match of single lines.

use vstd::prelude::*;
use vstd::hash_set::StringHashSet;
use crate::text::{file_name, file_name_of, final_component};

verus! {

/// How many files one search looks at, at most.
pub const MAX_FILES: usize = 120;

/// How many matching lines one search keeps of each file, at most.
pub const MAX_LINES: usize = 20;

/// One matching line of a file.
#[derive(Clone, Debug)]
pub struct Row {
    /// Number of the line in its file, counted from one.
    pub line: usize,
    /// The line as it was read.
    pub raw: String,
    /// Relevance of the match; higher is better.
    pub score: i64,
}

/// The mathematical value of a [`Row`].
pub struct RowView {
    pub line: nat,
    pub raw: Seq<char>,
    pub score: i64,
}

impl View for Row {
    type V = RowView;

    open spec fn view(&self) -> RowView {
        RowView { line: self.line as nat, raw: self.raw@, score: self.score }
    }
}

impl DeepView for Row {
    type V = RowView;

    open spec fn deep_view(&self) -> RowView {
        self@
    }
}

/// The matching lines of one file.
#[derive(Clone, Debug)]
pub struct DocResult {
    /// The path the file was found under.
    pub path: String,
    /// The name the file is displayed by.
    pub file_name: String,
    /// The matching lines, in file order.
    pub contents: Vec<Row>,
}

/// The mathematical value of a [`DocResult`].
pub struct GroupView {
    pub path: Seq<char>,
    pub file_name: Seq<char>,
    pub rows: Seq<RowView>,
}

/// The values of a sequence of rows, in order.
pub open spec fn rows_view(rows: Seq<Row>) -> Seq<RowView> {
    Seq::new(rows.len(), |i: int| rows[i]@)
}

/// The values of a sequence of groups, in order.
pub open spec fn groups_view(groups: Seq<DocResult>) -> Seq<GroupView> {
    Seq::new(groups.len(), |i: int| groups[i]@)
}

impl View for DocResult {
    type V = GroupView;

    open spec fn view(&self) -> GroupView {
        GroupView {
            path: self.path@,
            file_name: self.file_name@,
            rows: rows_view(self.contents@),
        }
    }
}

impl DeepView for DocResult {
    type V = GroupView;

    open spec fn deep_view(&self) -> GroupView {
        self@
    }
}

impl DocResult {
    /// An empty group for the file at `file_path`, named by the final
    /// component of the path. The path has to have one.
    pub fn new(file_path: &str) -> (group: Self)
        requires
            final_component(file_path@) is Some,
        ensures
            group@ == (GroupView {
                path: file_path@,
                file_name: final_component(file_path@)->0,
                rows: Seq::empty(),
            }),
    {
        Self::for_path(file_path)
    }

    /// An empty group for any path: named by the final component of the
    /// path, and by the empty name where the path has none.
    pub fn for_path(file_path: &str) -> (group: Self)
        ensures
            group@ == (GroupView {
                path: file_path@,
                file_name: file_name_of(file_path@),
                rows: Seq::empty(),
            }),
    {
        let group = Self {
            path: file_path.to_owned(),
            file_name: file_name(file_path),
            contents: Vec::new(),
        };
        assert(rows_view(group.contents@) =~= Seq::<RowView>::empty());
        group
    }

    /// Adds `row` behind the rows already in the group.
    pub fn push(&mut self, row: Row)
        ensures
            final(self)@ == (GroupView { rows: old(self)@.rows.push(row@), ..old(self)@ }),
    {
        self.contents.push(row);
        assert(rows_view(self.contents@) =~= rows_view(old(self).contents@).push(row@));
    }
}

/// The files found so far. A path is kept once, and the paths stay in the
/// order in which they were found.
pub struct Document {
    paths: Vec<String>,
    known: StringHashSet,
}

impl View for Document {
    type V = Seq<Seq<char>>;

    /// The known paths, in the order in which they were found.
    closed spec fn view(&self) -> Seq<Seq<char>> {
        self.paths.deep_view()
    }
}

impl Document {
    /// The invariant of the set: no path occurs twice, and the membership
    /// index holds exactly the listed paths.
    pub closed spec fn wf(&self) -> bool {
        &&& self@.no_duplicates()
        &&& self.known@ == self@.to_set()
    }

    /// In a well-formed set every path occurs once.
    pub proof fn lemma_paths_distinct(&self)
        requires
            self.wf(),
        ensures
            self@.no_duplicates(),
    {
    }

    /// The empty set.
    pub fn new() -> (doc: Self)
        ensures
            doc.wf(),
            doc@ == Seq::<Seq<char>>::empty(),
    {
        let doc = Document { paths: Vec::new(), known: StringHashSet::new() };
        assert(doc@ =~= Seq::<Seq<char>>::empty());
        assert(doc.known@ =~= doc@.to_set());
        doc
    }

    /// The number of known paths.
    pub fn len(&self) -> (n: usize)
        ensures
            n == self@.len(),
    {
        self.paths.len()
    }

    /// The path found as number `index`, counted from zero.
    pub fn path(&self, index: usize) -> (found: Option<&String>)
        ensures
            index < self@.len() ==> found is Some && found->0@ == self@[index as int],
            index >= self@.len() ==> found is None,
    {
        if index < self.paths.len() {
            Some(&self.paths[index])
        } else {
            None
        }
    }

    /// Whether `path` is known.
    pub fn contains(&self, path: &str) -> (known: bool)
        ensures
            self.wf() ==> known == self@.contains(path@),
    {
        self.known.contains(path)
    }

    /// Adds `path` behind the known paths unless it is known already, and
    /// tells whether it was added. Nothing is ever removed.
    pub fn insert(&mut self, path: String) -> (added: bool)
        ensures
            final(self)@ == if added { old(self)@.push(path@) } else { old(self)@ },
            old(self).wf() ==> final(self).wf(),
            old(self).wf() ==> added == !old(self)@.contains(path@),
    {
        let added = self.known.insert(path.clone());
        if added {
            self.paths.push(path);
        }
        proof {
            if added {
                assert(self@ =~= old(self)@.push(path@));
            }
            if old(self).wf() {
                if added {
                    assert(!old(self)@.contains(path@));
                    assert forall|s: Seq<char>| self@.to_set().contains(s) <==> old(
                        self,
                    )@.to_set().insert(path@).contains(s) by {
                        if old(self)@.contains(s) {
                            let i = choose|i: int| 0 <= i < old(self)@.len() && old(self)@[i] == s;
                            assert(self@[i] == s);
                        }
                        if s == path@ {
                            assert(self@[old(self)@.len() as int] == s);
                        }
                    }
                    assert(self@.to_set() =~= old(self)@.to_set().insert(path@));
                } else {
                    assert(old(self)@.to_set().insert(path@) =~= old(self)@.to_set());
                }
            }
        }
        added
    }
}

} // verus!
