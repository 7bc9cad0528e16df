use crate::error::Error;
use crate::file::{redirected, targets, File};
use crate::fs;
use crate::fs::{extension_of, file_name_of, joined, parent_of, stem_of};
use crate::project::Pid;
use vstd::prelude::*;
use vstd::std_specs::cmp::PartialEqSpecImpl;
use vstd::string::*;

verus! {

/// A file of some project: the project's identifier and the file's path relative
/// to the project's root.
#[derive(Debug, Hash)]
pub struct Index {
    pid: Pid,
    path: String,
}

/// What an `Index` stands for: a project and a relative path, as text.
pub struct IndexView {
    pub pid: Pid,
    pub path: Seq<char>,
}

impl IndexView {
    /// The collision relation: the same path, whatever the project.
    pub open spec fn similar(self, other: IndexView) -> bool {
        self.path == other.path
    }

    /// The same path under another project.
    pub open spec fn with_pid(self, pid: Pid) -> IndexView {
        IndexView { pid, path: self.path }
    }

    /// The path below `root`.
    pub open spec fn prefixed(self, root: Seq<char>) -> Seq<char> {
        joined(root, self.path)
    }

    /// Whether the path has what a rename needs: a parent, and a file name that
    /// is a single component.
    pub open spec fn renames(self) -> bool {
        &&& parent_of(self.path) is Some
        &&& file_name_of(self.path) matches Some(name) && !name.contains('/')
    }

    /// The stem of the path's file name.
    pub open spec fn stem(self) -> Seq<char>
        recommends
            file_name_of(self.path) is Some,
    {
        stem_of(file_name_of(self.path)->0)
    }

    /// The extension of the path's file name with the `.` before it, or nothing.
    pub open spec fn suffix(self) -> Seq<char>
        recommends
            file_name_of(self.path) is Some,
    {
        match extension_of(file_name_of(self.path)->0) {
            Some(e) => seq!['.'] + e,
            None => Seq::empty(),
        }
    }

    /// How the index is shown: its path, and its project in brackets.
    pub open spec fn label(self) -> Seq<char> {
        self.path + seq![' ', '('] + self.pid.label() + seq![')']
    }

    /// Whether `e` is the error of renaming this index: `Parent` where the path
    /// has no parent, else `NoFileName` where it has no file name.
    pub open spec fn rename_fails_with(self, e: Error) -> bool {
        if parent_of(self.path) is None {
            e.is_parent(self.path)
        } else {
            file_name_of(self.path) is None && e.is_no_file_name(self.path)
        }
    }

    /// The same file with `stem` for the stem of its name: same project, same
    /// parent, same extension.
    pub open spec fn renamed(self, stem: Seq<char>) -> IndexView
        recommends
            self.renames(),
    {
        IndexView { pid: self.pid, path: joined(parent_of(self.path)->0, stem + self.suffix()) }
    }
}

impl View for Index {
    type V = IndexView;

    closed spec fn view(&self) -> IndexView {
        IndexView { pid: self.pid, path: self.path@ }
    }
}

impl Clone for Index {
    fn clone(&self) -> (copy: Self)
        ensures
            copy@ == self@,
    {
        Index { pid: self.pid, path: self.path.clone() }
    }
}

impl PartialEq for Index {
    fn eq(&self, other: &Self) -> (r: bool) {
        self.pid == other.pid && self.path == other.path
    }
}

impl Eq for Index {

}

impl PartialEqSpecImpl for Index {
    open spec fn obeys_eq_spec() -> bool {
        true
    }

    open spec fn eq_spec(&self, other: &Self) -> bool {
        self@ == other@
    }
}

impl Index {
    pub fn new(pid: Pid, path: &str) -> (index: Self)
        ensures
            index@ == (IndexView { pid, path: path@ }),
    {
        Self { pid, path: path.to_owned() }
    }

    pub fn path(&self) -> (path: &str)
        ensures
            path@ == self@.path,
    {
        self.path.as_str()
    }

    pub fn pid(&self) -> (pid: &Pid)
        ensures
            *pid == self@.pid,
    {
        &self.pid
    }

    /// The index as text: its path, and its project in brackets.
    pub fn display(&self) -> (text: String)
        ensures
            text@ == self@.label(),
    {
        proof {
            reveal_strlit(" (");
            reveal_strlit(")");
        }
        let mut text = self.path.clone();
        text.append(" (");
        text.append(self.pid.display().as_str());
        text.append(")");
        assert(text@ =~= self@.label());
        text
    }

    /// Compares the paths only.
    pub fn is_similar(&self, other: &Self) -> (r: bool)
        ensures
            r == self@.similar(other@),
    {
        self.path == other.path
    }

    /// The same path under another project.
    pub fn with_pid(&self, pid: Pid) -> (index: Self)
        ensures
            index@ == self@.with_pid(pid),
    {
        Self { pid, path: self.path.clone() }
    }

    /// The full path of the file in a project that lies at `root`.
    pub fn prefix(&self, root: &str) -> (path: String)
        ensures
            path@ == self@.prefixed(root@),
    {
        fs::join(root, self.path.as_str())
    }

    /// Puts `stem` in the place of the file name's stem.
    fn place(&self, parent: &str, stem: String) -> (index: Self)
        requires
            file_name_of(self@.path) is Some,
            parent_of(self@.path) == Some(parent@),
        ensures
            index@ == self@.renamed(stem@),
    {
        let mut name = stem;
        match fs::extension(self.path.as_str()) {
            Some(extension) => {
                proof {
                    reveal_strlit(".");
                }
                name.append(".");
                name.append(extension.as_str());
                assert(name@ =~= stem@ + (seq!['.'] + extension@));
            },
            None => {
                assert(name@ =~= stem@ + Seq::<char>::empty());
            },
        }
        Self { pid: self.pid, path: fs::join(parent, name.as_str()) }
    }

    /// The index under the file name whose stem is `stem`: parent and extension
    /// stay as they are. Fails where the path has no parent, else where it has
    /// no file name.
    pub fn rename_to(&self, stem: &str) -> (r: Result<Self, Error>)
        ensures
            match r {
                Ok(index) => self@.renames() && index@ == self@.renamed(stem@),
                Err(e) => !self@.renames() && self@.rename_fails_with(e),
            },
    {
        let parent = fs::parent(self.path.as_str())?;
        let _ = fs::file_stem(self.path.as_str())?;
        Ok(self.place(parent.as_str(), stem.to_owned()))
    }

    /// Renames the file by `format`, which makes the new stem from the project's
    /// identifier and the old stem. Fails as `rename_to` does, and then without
    /// calling `format`.
    pub fn rename<F>(&self, format: F) -> (r: Result<Self, Error>) where F: Fn(&Pid, &str) -> String
        requires
            forall|stem: &str| stem@ == self@.stem() ==> call_requires(format, (&self@.pid, stem)),
        ensures
            match r {
                Ok(index) => self@.renames() && exists|stem: &str, name: String|
                    stem@ == self@.stem() && call_ensures(format, (&self@.pid, stem), name)
                        && index@ == self@.renamed(name@),
                Err(e) => !self@.renames() && self@.rename_fails_with(e),
            },
    {
        let parent = fs::parent(self.path.as_str())?;
        let stem = fs::file_stem(self.path.as_str())?;
        let old_stem = stem.as_str();
        let name = format(&self.pid, old_stem);
        let ghost witness = name;
        let index = self.place(parent.as_str(), name);
        assert(old_stem@ == self@.stem() && call_ensures(format, (&self@.pid, old_stem), witness)
            && index@ == self@.renamed(witness@));
        Ok(index)
    }
}

/// How a lookup treats the project of a stored index.
pub enum Lookup {
    /// Any project will do.
    Similar,
    /// Only another project than the query's.
    Conflict,
    /// Only the query's own project.
    Exact,
}

/// Whether the stored index `entry` answers the query `q`.
pub open spec fn answers(entry: IndexView, q: IndexView, lookup: Lookup) -> bool {
    entry.similar(q) && match lookup {
        Lookup::Similar => true,
        Lookup::Conflict => entry.pid != q.pid,
        Lookup::Exact => entry.pid == q.pid,
    }
}

/// The first of `entries` that answers the query.
pub open spec fn first_answer(entries: Seq<IndexView>, q: IndexView, lookup: Lookup) -> Option<
    IndexView,
>
    decreases entries.len(),
{
    if entries.len() == 0 {
        None
    } else if answers(entries[0], q, lookup) {
        Some(entries[0])
    } else {
        first_answer(entries.drop_first(), q, lookup)
    }
}

/// `entries` without the repetitions: of equal indexes the first stays.
pub open spec fn distinct(entries: Seq<IndexView>) -> Seq<IndexView>
    decreases entries.len(),
{
    if entries.len() == 0 {
        Seq::empty()
    } else if distinct(entries.drop_last()).contains(entries.last()) {
        distinct(entries.drop_last())
    } else {
        distinct(entries.drop_last()).push(entries.last())
    }
}

/// The views of a run of indexes.
pub open spec fn views(indexes: Seq<Index>) -> Seq<IndexView> {
    indexes.map_values(|i: Index| i@)
}

/// A lookup finds something exactly where some entry answers it, and what it
/// finds is an entry that does.
pub proof fn lemma_first_answer(entries: Seq<IndexView>, q: IndexView, lookup: Lookup)
    ensures
        first_answer(entries, q, lookup) is Some <==> exists|k: int|
            0 <= k < entries.len() && answers(#[trigger] entries[k], q, lookup),
        first_answer(entries, q, lookup) matches Some(found) ==> entries.contains(found) && answers(
            found,
            q,
            lookup,
        ),
    decreases entries.len(),
{
    if entries.len() > 0 {
        let rest = entries.drop_first();
        lemma_first_answer(rest, q, lookup);
        if answers(entries[0], q, lookup) {
        } else {
            if first_answer(rest, q, lookup) is Some {
                let k = choose|k: int| 0 <= k < rest.len() && answers(#[trigger] rest[k], q, lookup);
                assert(answers(entries[k + 1], q, lookup));
                let found = first_answer(rest, q, lookup)->0;
                let j = choose|j: int| 0 <= j < rest.len() && rest[j] == found;
                assert(entries[j + 1] == found);
            }
            if exists|k: int| 0 <= k < entries.len() && answers(#[trigger] entries[k], q, lookup) {
                let k = choose|k: int|
                    0 <= k < entries.len() && answers(#[trigger] entries[k], q, lookup);
                assert(answers(rest[k - 1], q, lookup));
            }
        }
    }
}

/// A set of indexes that can be asked by path. It keeps the order in which the
/// indexes came, and lookups answer with the first that fits.
#[derive(Debug)]
pub struct IndexList {
    indexes: Vec<Index>,
}

impl View for IndexList {
    type V = Seq<IndexView>;

    closed spec fn view(&self) -> Seq<IndexView> {
        views(self.indexes@)
    }
}

impl Default for IndexList {
    fn default() -> (list: Self)
        ensures
            list@ == Seq::<IndexView>::empty(),
    {
        let list = IndexList { indexes: Vec::new() };
        assert(list@ =~= Seq::<IndexView>::empty());
        list
    }
}

impl Clone for IndexList {
    fn clone(&self) -> (copy: Self)
        ensures
            copy@ == self@,
    {
        proof {
            use_type_invariant(self);
        }
        let mut indexes: Vec<Index> = Vec::new();
        let mut i: usize = 0;
        while i < self.indexes.len()
            invariant
                i <= self.indexes.len(),
                views(indexes@) == views(self.indexes@).take(i as int),
                views(self.indexes@).no_duplicates(),
            decreases self.indexes.len() - i,
        {
            let ghost before = views(indexes@);
            let copy = self.indexes[i].clone();
            assert(copy@ == self.indexes@[i as int]@);
            indexes.push(copy);
            assert(views(indexes@) =~= before.push(copy@));
            i += 1;
            assert(views(self.indexes@).take(i as int) =~= before.push(copy@));
        }
        assert(views(indexes@) =~= views(self.indexes@));
        IndexList { indexes }
    }
}

impl IndexList {
    /// No index occurs twice.
    #[verifier::type_invariant]
    spec fn unique(self) -> bool {
        views(self.indexes@).no_duplicates()
    }

    /// The list of `indexes`, each kept once, in the order of their first occurrence.
    pub fn new(indexes: Vec<Index>) -> (list: Self)
        ensures
            list@ == distinct(views(indexes@)),
    {
        let mut list = IndexList::default();
        let mut i: usize = 0;
        while i < indexes.len()
            invariant
                i <= indexes.len(),
                list@ == distinct(views(indexes@).take(i as int)),
            decreases indexes.len() - i,
        {
            let ghost before = views(indexes@).take(i as int);
            let ghost after = views(indexes@).take(i + 1);
            assert(after.drop_last() =~= before);
            assert(after.last() == indexes@[i as int]@);
            list.add(indexes[i].clone());
            i += 1;
        }
        assert(views(indexes@).take(i as int) =~= views(indexes@));
        list
    }

    /// Whether `index` is in the list, project and path.
    pub fn contains(&self, index: &Index) -> (found: bool)
        ensures
            found == self@.contains(index@),
    {
        let mut i: usize = 0;
        while i < self.indexes.len()
            invariant
                i <= self.indexes.len(),
                forall|j: int| 0 <= j < i ==> self@[j] != index@,
            decreases self.indexes.len() - i,
        {
            if self.indexes[i] == *index {
                assert(self@[i as int] == index@);
                return true;
            }
            i += 1;
        }
        false
    }

    /// Puts `index` at the end of the list unless it is there already, and tells
    /// whether it was put.
    pub fn add(&mut self, index: Index) -> (added: bool)
        ensures
            added == !old(self)@.contains(index@),
            final(self)@ == if added {
                old(self)@.push(index@)
            } else {
                old(self)@
            },
    {
        proof {
            use_type_invariant(&*self);
        }
        if self.contains(&index) {
            false
        } else {
            let ghost before = self@;
            let mut taken = IndexList::default();
            core::mem::swap(self, &mut taken);
            let mut indexes = taken.indexes;
            indexes.push(index);
            assert(views(indexes@) =~= before.push(index@));
            *self = IndexList { indexes };
            true
        }
    }

    /// The first index of the list that answers the query `q`.
    fn lookup(&self, q: &Index, lookup: Lookup) -> (found: Option<&Index>)
        ensures
            found is Some == first_answer(self@, q@, lookup) is Some,
            found matches Some(i) ==> first_answer(self@, q@, lookup) == Some(i@),
    {
        let mut i: usize = 0;
        assert(self@.skip(0) =~= self@);
        while i < self.indexes.len()
            invariant
                i <= self.indexes.len(),
                first_answer(self@, q@, lookup) == first_answer(self@.skip(i as int), q@, lookup),
            decreases self.indexes.len() - i,
        {
            let entry = &self.indexes[i];
            assert(self@.skip(i as int)[0] == entry@);
            assert(self@.skip(i as int).drop_first() =~= self@.skip(i + 1));
            let fits = entry.is_similar(q) && match lookup {
                Lookup::Similar => true,
                Lookup::Conflict => *entry.pid() != *q.pid(),
                Lookup::Exact => *entry.pid() == *q.pid(),
            };
            if fits {
                return Some(entry);
            }
            i += 1;
        }
        None
    }

    /// Some index of the list with the path of `index`, whatever its project:
    /// the first of them.
    pub fn get(&self, index: &Index) -> (found: Option<&Index>)
        ensures
            found is Some == first_answer(self@, index@, Lookup::Similar) is Some,
            found matches Some(i) ==> first_answer(self@, index@, Lookup::Similar) == Some(i@),
    {
        self.lookup(index, Lookup::Similar)
    }

    /// Some index of the list with the path of `index` and another project: the
    /// first of them. This is what a collision is.
    pub fn get_different_pid(&self, index: &Index) -> (found: Option<&Index>)
        ensures
            found is Some == first_answer(self@, index@, Lookup::Conflict) is Some,
            found matches Some(i) ==> first_answer(self@, index@, Lookup::Conflict) == Some(i@),
    {
        self.lookup(index, Lookup::Conflict)
    }

    /// The index of the list with the path and the project of `index`.
    pub fn get_exact(&self, index: &Index) -> (found: Option<&Index>)
        ensures
            found is Some == self@.contains(index@),
            found matches Some(i) ==> i@ == index@,
    {
        let found = self.lookup(index, Lookup::Exact);
        proof {
            lemma_first_answer(self@, index@, Lookup::Exact);
            if self@.contains(index@) {
                let k = choose|k: int| 0 <= k < self@.len() && self@[k] == index@;
                assert(answers(self@[k], index@, Lookup::Exact));
            }
        }
        found
    }

    /// The indexes, in the order in which they came, none of them twice.
    pub fn inner(&self) -> (indexes: &Vec<Index>)
        ensures
            views(indexes@) == self@,
            self@.no_duplicates(),
    {
        proof {
            use_type_invariant(self);
        }
        &self.indexes
    }

    /// An iterator over the indexes, in the order in which they came.
    pub fn iter(&self) -> (iter: core::slice::Iter<'_, Index>)
        ensures
            views(vstd::std_specs::slice::into_iter_elts(iter)) == self@,
    {
        let iter = self.indexes.iter();
        assert(vstd::std_specs::slice::into_iter_elts(iter) =~= self.indexes@);
        iter
    }

    /// The number of indexes in the list.
    pub fn len(&self) -> (n: usize)
        ensures
            n == self@.len(),
    {
        self.indexes.len()
    }

    /// Whether the list holds no index.
    pub fn is_empty(&self) -> (empty: bool)
        ensures
            empty == (self@.len() == 0),
    {
        self.indexes.len() == 0
    }
}

/// The map that a run of pairs stands for: each pair sends its index to what
/// stands beside it, and of two pairs with the same index the later counts.
pub open spec fn table<V>(pairs: Seq<(IndexView, V)>) -> Map<IndexView, V>
    decreases pairs.len(),
{
    if pairs.len() == 0 {
        Map::empty()
    } else {
        table(pairs.drop_last()).insert(pairs.last().0, pairs.last().1)
    }
}

/// The views of a run of pairs of indexes.
pub open spec fn pair_views(pairs: Seq<(Index, Index)>) -> Seq<(IndexView, IndexView)> {
    pairs.map_values(|p: (Index, Index)| (p.0@, p.1@))
}

/// What the map says of `from`, read off the pairs: the pair at `at` decides
/// where no later pair speaks of `from`, and where none speaks of it the map
/// does not hold it.
pub proof fn lemma_table<V>(pairs: Seq<(IndexView, V)>, from: IndexView, at: int)
    requires
        -1 <= at < pairs.len(),
        at >= 0 ==> pairs[at].0 == from,
        forall|j: int| at < j < pairs.len() ==> pairs[j].0 != from,
    ensures
        table(pairs).contains_key(from) == (at >= 0),
        at >= 0 ==> table(pairs)[from] == pairs[at].1,
    decreases pairs.len(),
{
    if pairs.len() > 0 {
        if at < pairs.len() - 1 {
            lemma_table(pairs.drop_last(), from, at);
        }
    }
}

/// Among the first `upto + 1` pairs, if any speaks of `index`, one is the last to
/// do so.
pub proof fn lemma_last_occurrence<V>(pairs: Seq<(IndexView, V)>, index: IndexView, upto: int)
    requires
        -1 <= upto < pairs.len(),
        forall|j: int| upto < j < pairs.len() ==> pairs[j].0 != index,
        exists|i: int| 0 <= i < pairs.len() && (#[trigger] pairs[i]).0 == index,
    ensures
        exists|at: int|
            0 <= at < pairs.len() && pairs[at].0 == index && forall|j: int|
                at < j < pairs.len() ==> pairs[j].0 != index,
    decreases upto + 1,
{
    if upto >= 0 && pairs[upto].0 != index {
        lemma_last_occurrence(pairs, index, upto - 1);
    } else if upto >= 0 {
        assert(pairs[upto].0 == index && forall|j: int|
            upto < j < pairs.len() ==> pairs[j].0 != index);
    } else {
        let i = choose|i: int| 0 <= i < pairs.len() && (#[trigger] pairs[i]).0 == index;
        assert(false);
    }
}

/// `file` after the first `n` of `targets` were looked up in `mapping`, one after
/// the other, and the file was told of each that the mapping holds.
pub open spec fn rewritten<F: File>(
    mapping: Map<IndexView, IndexView>,
    file: F,
    targets: Seq<IndexView>,
    n: nat,
) -> F
    decreases n,
{
    if n == 0 {
        file
    } else {
        let before = rewritten(mapping, file, targets, (n - 1) as nat);
        let from = targets[n - 1];
        if mapping.contains_key(from) {
            before.modified(from, mapping[from])
        } else {
            before
        }
    }
}

/// `file` after all the references that it declares were looked up in `mapping`.
pub open spec fn rewrite<F: File>(mapping: Map<IndexView, IndexView>, file: F) -> F {
    rewritten(mapping, file, file.relations(), file.relations().len())
}

/// A mapping that holds none of the first `n` of `targets` leaves the file as it is.
pub proof fn lemma_rewritten_untouched<F: File>(
    mapping: Map<IndexView, IndexView>,
    file: F,
    targets: Seq<IndexView>,
    n: nat,
)
    requires
        n <= targets.len(),
        forall|k: int| 0 <= k < n ==> !mapping.contains_key(#[trigger] targets[k]),
    ensures
        rewritten(mapping, file, targets, n) == file,
    decreases n,
{
    if n > 0 {
        lemma_rewritten_untouched(mapping, file, targets, (n - 1) as nat);
    }
}

/// The empty mapping rewrites nothing: the file comes back as it is.
pub proof fn lemma_rewrite_empty<F: File>(file: F)
    ensures
        rewrite(Map::<IndexView, IndexView>::empty(), file) == file,
{
    lemma_rewritten_untouched(
        Map::<IndexView, IndexView>::empty(),
        file,
        file.relations(),
        file.relations().len(),
    );
}

/// Where `mapping` sends `target`: to its image, or to itself where the mapping
/// does not hold it.
pub open spec fn image(mapping: Map<IndexView, IndexView>, target: IndexView) -> IndexView {
    if mapping.contains_key(target) {
        mapping[target]
    } else {
        target
    }
}

/// Whether no rewritten reference is rewritten again: a target that the mapping
/// holds is the image of none before it, unless the mapping sends it to itself.
pub open spec fn settles(mapping: Map<IndexView, IndexView>, targets: Seq<IndexView>) -> bool {
    forall|j: int, i: int|
        0 <= j < i < targets.len() && mapping.contains_key(#[trigger] targets[j])
            && mapping.contains_key(#[trigger] targets[i]) && mapping[targets[j]] == targets[i]
            ==> mapping[targets[i]] == targets[i]
}

/// Which index stands for which after the export: the renamed files under their
/// new names, the others under the output's identifier. It cannot be changed
/// once made.
#[derive(Debug)]
pub struct IndexMapping {
    map: Vec<(Index, Index)>,
}

impl View for IndexMapping {
    type V = Map<IndexView, IndexView>;

    closed spec fn view(&self) -> Map<IndexView, IndexView> {
        table(pair_views(self.map@))
    }
}

impl Default for IndexMapping {
    fn default() -> (mapping: Self)
        ensures
            mapping@ == Map::<IndexView, IndexView>::empty(),
    {
        IndexMapping { map: Vec::new() }
    }
}

impl IndexMapping {
    /// The mapping that sends the first index of each pair to the second; a later
    /// pair replaces an earlier one for the same index.
    pub fn new(map: Vec<(Index, Index)>) -> (mapping: Self)
        ensures
            mapping@ == table(pair_views(map@)),
    {
        Self { map }
    }

    /// Where the mapping sends `index`, if it holds it.
    pub fn get(&self, index: &Index) -> (to: Option<&Index>)
        ensures
            to is Some == self@.contains_key(index@),
            to matches Some(i) ==> i@ == self@[index@],
    {
        let mut i: usize = self.map.len();
        while i > 0
            invariant
                i <= self.map.len(),
                forall|j: int| i <= j < self.map.len() ==> pair_views(self.map@)[j].0 != index@,
            decreases i,
        {
            i -= 1;
            if self.map[i].0 == *index {
                proof {
                    lemma_table(pair_views(self.map@), index@, i as int);
                }
                return Some(&self.map[i].1);
            }
        }
        proof {
            lemma_table(pair_views(self.map@), index@, -1);
        }
        None
    }

    /// Where the mapping sends `index`: to its image, or to itself where the
    /// mapping does not hold it.
    pub fn image(&self, index: &Index) -> (to: Index)
        ensures
            to@ == image(self@, index@),
    {
        match self.get(index) {
            Some(to) => to.clone(),
            None => index.clone(),
        }
    }

    /// Rewrites the references of `file` by the mapping: each reference that the
    /// file declares is looked up, in the file's order, and the file is told of
    /// each renaming found. Where the mapping holds none of them the file comes
    /// back as it is. Where no rewritten reference is rewritten again, every
    /// reference ends at its image: those that the mapping holds are replaced,
    /// the others stay.
    pub fn apply_mapping<F: File>(&self, file: F) -> (rewritten: F)
        ensures
            rewritten == rewrite(self@, file),
            (forall|k: int|
                0 <= k < file.relations().len() ==> !self@.contains_key(
                    #[trigger] file.relations()[k],
                )) ==> rewritten == file,
            settles(self@, file.relations()) ==> rewritten.relations()
                == file.relations().map_values(|t: IndexView| image(self@, t)),
    {
        let relations = file.relation();
        let ghost given = file;
        let ghost declared = file.relations();
        let mut file = file;
        let mut i: usize = 0;
        assert(declared.len() == relations.len());
        while i < relations.len()
            invariant
                i <= relations.len(),
                declared == targets(relations@),
                declared == given.relations(),
                file == rewritten(self@, given, declared, i as nat),
                (forall|k: int| 0 <= k < i ==> !self@.contains_key(#[trigger] declared[k])) ==> file
                    == given,
                file.relations().len() == declared.len(),
                settles(self@, declared) ==> partly(self@, declared, file.relations(), i as int),
            decreases relations.len() - i,
        {
            let from = &relations[i].0;
            assert(from@ == declared[i as int]);
            match self.get(from) {
                Some(to) => {
                    let ghost before = file.relations();
                    file = file.modify_relation(from, to);
                    assert(file.relations() == redirected(before, from@, to@));
                    proof {
                        if settles(self@, declared) {
                            lemma_partly_told(self@, declared, before, i as int);
                        }
                    }
                },
                None => {
                    proof {
                        if settles(self@, declared) {
                            lemma_partly_passed(self@, declared, file.relations(), i as int);
                        }
                    }
                },
            }
            i += 1;
        }
        proof {
            if settles(self@, declared) {
                assert(file.relations() =~= declared.map_values(|t: IndexView| image(self@, t))) by {
                    assert forall|k: int| 0 <= k < declared.len() implies file.relations()[k]
                        == image(self@, declared[k]) by {
                        if self@.contains_key(declared[k]) {
                            assert(seen(declared, declared.len() as int, declared[k])) by {
                                assert(declared[k] == declared[k]);
                            }
                        }
                    }
                }
            }
        }
        file
    }
}

/// Whether `target` is among the first `n` of `targets`.
pub open spec fn seen(targets: Seq<IndexView>, n: int, target: IndexView) -> bool {
    exists|j: int| 0 <= j < n && #[trigger] targets[j] == target
}

/// How the references of a file stand after the first `n` of its `targets` were
/// looked up in `mapping`: a reference whose target had its turn and is held by
/// the mapping stands at its image, and every other reference at its target.
pub open spec fn partly(
    mapping: Map<IndexView, IndexView>,
    targets: Seq<IndexView>,
    now: Seq<IndexView>,
    n: int,
) -> bool {
    &&& now.len() == targets.len()
    &&& forall|k: int|
        0 <= k < targets.len() ==> #[trigger] now[k] == if seen(targets, n, targets[k])
            && mapping.contains_key(targets[k]) {
            mapping[targets[k]]
        } else {
            targets[k]
        }
}

/// A target that the mapping does not hold changes nothing when it has its turn.
proof fn lemma_partly_passed(
    mapping: Map<IndexView, IndexView>,
    targets: Seq<IndexView>,
    now: Seq<IndexView>,
    n: int,
)
    requires
        0 <= n < targets.len(),
        partly(mapping, targets, now, n),
        !mapping.contains_key(targets[n]),
    ensures
        partly(mapping, targets, now, n + 1),
{
    assert forall|k: int| 0 <= k < targets.len() implies #[trigger] now[k] == if seen(
        targets,
        n + 1,
        targets[k],
    ) && mapping.contains_key(targets[k]) {
        mapping[targets[k]]
    } else {
        targets[k]
    } by {
        if mapping.contains_key(targets[k]) {
            if seen(targets, n + 1, targets[k]) {
                let j = choose|j: int| 0 <= j < n + 1 && #[trigger] targets[j] == targets[k];
                assert(j < n);
                assert(seen(targets, n, targets[k]));
            }
        }
    }
}

/// A target that the mapping holds has, at its turn, the references to it
/// brought to its image, and where no rewritten reference is rewritten again
/// that is all that changes.
proof fn lemma_partly_told(
    mapping: Map<IndexView, IndexView>,
    targets: Seq<IndexView>,
    now: Seq<IndexView>,
    n: int,
)
    requires
        0 <= n < targets.len(),
        settles(mapping, targets),
        partly(mapping, targets, now, n),
        mapping.contains_key(targets[n]),
    ensures
        partly(mapping, targets, redirected(now, targets[n], mapping[targets[n]]), n + 1),
{
    let from = targets[n];
    let to = mapping[from];
    let next = redirected(now, from, to);
    assert forall|k: int| 0 <= k < targets.len() implies #[trigger] next[k] == if seen(
        targets,
        n + 1,
        targets[k],
    ) && mapping.contains_key(targets[k]) {
        mapping[targets[k]]
    } else {
        targets[k]
    } by {
        let was = seen(targets, n, targets[k]) && mapping.contains_key(targets[k]);
        assert(now[k] == if was {
            mapping[targets[k]]
        } else {
            targets[k]
        });
        if targets[k] == from {
            assert(seen(targets, n + 1, targets[k])) by {
                assert(targets[n] == targets[k]);
            }
        } else {
            if seen(targets, n + 1, targets[k]) {
                let j = choose|j: int| 0 <= j < n + 1 && #[trigger] targets[j] == targets[k];
                assert(j < n);
                assert(seen(targets, n, targets[k]));
            }
            if seen(targets, n, targets[k]) {
                let j = choose|j: int| 0 <= j < n && #[trigger] targets[j] == targets[k];
                assert(seen(targets, n + 1, targets[k])) by {
                    assert(targets[j] == targets[k]);
                }
                if was && now[k] == from {
                    // an image has its turn after the target that it came from
                    assert(mapping[targets[j]] == targets[n]);
                    assert(mapping[targets[n]] == targets[n]);
                }
            }
        }
    }
}

} // verus!
