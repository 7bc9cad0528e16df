use crate::error::Error;
use crate::file::File;
use crate::fs;
use crate::fs::parent_of;
use crate::index::{image, rewrite, Index, IndexMapping, IndexView};
use crate::order::plan_views;
use crate::project::{Pid, Strategy};
use crate::timeline::root_views;
use crate::workspace::Workspace;
use std::collections::HashMap;
use std::marker::PhantomData;
use vstd::prelude::*;

verus! {

broadcast use vstd::std_specs::hash::group_hash_axioms;

/// What the exporter waits for.
pub enum Awaiting<F> {
    /// Nothing: the next planned file can be taken up.
    Nothing,
    /// The file of the planned entry, from its project.
    Source,
    /// What the output already holds at the destination of a merge. The file
    /// that is to be merged into it is kept meanwhile, its references rewritten.
    Existing(F),
}

/// How far an export has come: the planned entry in hand and what is awaited
/// for it.
pub struct State<F> {
    pub cursor: usize,
    pub awaiting: Awaiting<F>,
}

/// What the driver of an export reports back.
pub enum Event<F> {
    /// The export begins, or what was to be written is written.
    Ready,
    /// What the loader gave for the file that was asked for.
    Loaded(Option<F>),
}

/// What the driver of an export is to do next.
#[derive(Debug)]
pub enum Action {
    /// Load the file at `path` as a file of project `pid`, and report it.
    Load { path: String, pid: Pid },
    /// Make sure that the directory `dir` exists, where there is one, write
    /// `content` at `path`, and report that it is done.
    Write { path: String, dir: Option<String>, content: Vec<u8> },
    /// Nothing: the export is complete.
    Done,
}

/// What an `Action` stands for.
pub enum ActionView {
    Load { path: Seq<char>, pid: Pid },
    Write { path: Seq<char>, dir: Option<Seq<char>>, content: Seq<u8> },
    Done,
}

impl View for Action {
    type V = ActionView;

    open spec fn view(&self) -> ActionView {
        match self {
            Action::Load { path, pid } => ActionView::Load { path: path@, pid: *pid },
            Action::Write { path, dir, content } => ActionView::Write {
                path: path@,
                dir: match dir {
                    Some(d) => Some(d@),
                    None => None,
                },
                content: content@,
            },
            Action::Done => ActionView::Done,
        }
    }
}

impl<F> State<F> {
    /// The state in which an export begins.
    pub fn start() -> (state: Self)
        ensures
            state == (State::<F> { cursor: 0, awaiting: Awaiting::Nothing }),
    {
        State { cursor: 0, awaiting: Awaiting::Nothing }
    }
}

/// What a merge arrival puts at its destination: the incoming file merged into
/// what is there, or the incoming file where nothing is there.
pub open spec fn arrival<F: File>(existing: Option<F>, incoming: F) -> Result<F, Error> {
    match existing {
        Some(older) => older.merged(incoming),
        None => Ok(incoming),
    }
}

/// What a destination holds after `contributors` arrived there one after the
/// other as merges, each finding what the one before left: nothing where none
/// came, and the error of the first merge that failed.
pub open spec fn arrivals<F: File>(contributors: Seq<F>) -> Result<Option<F>, Error>
    decreases contributors.len(),
{
    if contributors.len() == 0 {
        Ok(None)
    } else {
        match arrivals(contributors.drop_last()) {
            Ok(held) => match arrival(held, contributors.last()) {
                Ok(file) => Ok(Some(file)),
                Err(e) => Err(e),
            },
            Err(e) => Err(e),
        }
    }
}

/// One more file merged into what a fold has reached so far.
pub open spec fn merge_on<F: File>(so_far: Result<F, Error>, next: F) -> Result<F, Error> {
    match so_far {
        Ok(file) => file.merged(next),
        Err(e) => Err(e),
    }
}

/// The fold of `contributors` from the left: the second merged into the first,
/// the third into that, and so on.
pub open spec fn left_fold<F: File>(contributors: Seq<F>) -> Result<F, Error>
    recommends
        contributors.len() > 0,
{
    contributors.drop_first().fold_left(
        Ok(contributors[0]),
        |so_far: Result<F, Error>, next: F| merge_on(so_far, next),
    )
}

/// What a merge destination ends up with is the left fold of its contributors
/// in the order of their arrival.
pub proof fn lemma_merge_left_fold<F: File>(contributors: Seq<F>)
    requires
        contributors.len() > 0,
    ensures
        arrivals(contributors) == match left_fold(contributors) {
            Ok(file) => Ok::<Option<F>, Error>(Some(file)),
            Err(e) => Err(e),
        },
    decreases contributors.len(),
{
    if contributors.len() == 1 {
        assert(contributors.drop_last().len() == 0);
        assert(contributors.drop_first().len() == 0);
        assert(arrivals(contributors.drop_last()) == Ok::<Option<F>, Error>(None));
        assert(contributors.last() == contributors[0]);
    } else {
        let front = contributors.drop_last();
        lemma_merge_left_fold(front);
        assert(front[0] == contributors[0]);
        assert(contributors.drop_first().drop_last() =~= front.drop_first());
        assert(contributors.drop_first().last() == contributors.last());
        assert(left_fold(contributors) == merge_on(left_fold(front), contributors.last()));
    }
}

/// Carries out a plan, one step at a time. It decides what is loaded, merged and
/// written; the loading and the writing are its driver's.
pub struct Exporter<W> {
    root: String,
    output_id: Pid,
    projects: HashMap<usize, String>,
    mapping: IndexMapping,
    plan: Vec<(Index, Strategy)>,
    _workspace: PhantomData<W>,
}

impl<W: Workspace> Exporter<W> {
    /// The directory that the output is written to.
    pub closed spec fn root(&self) -> Seq<char> {
        self.root@
    }

    /// The identifier under which the output counts as a project.
    pub closed spec fn output(&self) -> Pid {
        self.output_id
    }

    /// Where each project lies, the output among them, by the number of its
    /// identifier.
    pub closed spec fn roots(&self) -> Map<nat, Seq<char>> {
        root_views(self.projects@)
    }

    /// Where each planned index ends up.
    pub closed spec fn mapping(&self) -> Map<IndexView, IndexView> {
        self.mapping@
    }

    /// The planned files with their strategies, in plan order.
    pub closed spec fn plan(&self) -> Seq<(IndexView, Strategy)> {
        plan_views(self.plan@)
    }

    /// Whether the project of the planned entry `k` is one whose root is known.
    pub open spec fn known(&self, k: int) -> bool {
        self.roots().contains_key(self.plan()[k].0.pid.id())
    }

    /// The first planned entry from `from` on whose project is known; the length
    /// of the plan where there is none.
    pub open spec fn next_known(&self, from: int) -> int
        decreases self.plan().len() - from,
    {
        if from >= self.plan().len() {
            self.plan().len() as int
        } else if self.known(from) {
            from
        } else {
            self.next_known(from + 1)
        }
    }

    /// The request for the file of the planned entry `k`: at its path below the
    /// root of its project.
    pub open spec fn source(&self, k: int) -> ActionView {
        let index = self.plan()[k].0;
        ActionView::Load { path: index.prefixed(self.roots()[index.pid.id()]), pid: index.pid }
    }

    /// The request for what the output holds where the planned entry `k` is
    /// merged: at its path below the output's root, as a file of the output.
    pub open spec fn existing(&self, k: int) -> ActionView {
        ActionView::Load {
            path: self.plan()[k].0.with_pid(self.output()).prefixed(self.root()),
            pid: self.output(),
        }
    }

    /// The order to write `file` for the planned entry `k`: at the path of the
    /// index to which the mapping sends the entry's, below the output's root.
    pub open spec fn write(&self, k: int, file: W::File) -> ActionView {
        let path = image(self.mapping(), self.plan()[k].0).prefixed(self.root());
        ActionView::Write { path, dir: parent_of(path), content: file.bytes() }
    }

    /// Taking up the plan from entry `from`: the file of the next entry whose
    /// project is known is asked for, and where there is none the export is
    /// complete.
    pub open spec fn take_up(&self, from: int) -> (State<W::File>, ActionView) {
        let k = self.next_known(from);
        if k < self.plan().len() {
            (State { cursor: k as usize, awaiting: Awaiting::Source }, self.source(k))
        } else {
            (State { cursor: k as usize, awaiting: Awaiting::Nothing }, ActionView::Done)
        }
    }

    /// Having written for entry `k`: the order to write `file`, and the state in
    /// which the next entry can be taken up.
    pub open spec fn commit(&self, k: int, file: W::File) -> (State<W::File>, ActionView) {
        (State { cursor: (k + 1) as usize, awaiting: Awaiting::Nothing }, self.write(k, file))
    }

    /// The step that follows `event` in `state`.
    ///
    /// Past the end of the plan the export is complete. With nothing awaited the
    /// plan is taken up at the entry in hand. While the file of an entry is
    /// awaited: a file that could not be had has its entry passed over; a file
    /// that was loaded has its references rewritten and is then written, unless
    /// its strategy is `Merge`, for which what the output holds is asked for
    /// first. While that is awaited: the kept file is merged into what was
    /// loaded, or stands alone where nothing was, and is written; a merge that
    /// fails ends the export with its error. An event that does not answer the
    /// request has the request repeated.
    pub open spec fn step(&self, state: State<W::File>, event: Event<W::File>) -> Result<
        (State<W::File>, ActionView),
        Error,
    > {
        let k = state.cursor as int;
        if k >= self.plan().len() {
            Ok((State { cursor: state.cursor, awaiting: Awaiting::Nothing }, ActionView::Done))
        } else {
            match (state.awaiting, event) {
                (Awaiting::Nothing, _) => Ok(self.take_up(k)),
                (Awaiting::Source, Event::Ready) => Ok(self.take_up(k)),
                (Awaiting::Source, Event::Loaded(None)) => Ok(self.take_up(k + 1)),
                (Awaiting::Source, Event::Loaded(Some(file))) => {
                    let file = rewrite(self.mapping(), file);
                    if self.plan()[k].1 == Strategy::Merge {
                        Ok(
                            (
                                State { cursor: state.cursor, awaiting: Awaiting::Existing(file) },
                                self.existing(k),
                            ),
                        )
                    } else {
                        Ok(self.commit(k, file))
                    }
                },
                (Awaiting::Existing(file), Event::Ready) => Ok((state, self.existing(k))),
                (Awaiting::Existing(file), Event::Loaded(older)) => match arrival(older, file) {
                    Ok(merged) => Ok(self.commit(k, merged)),
                    Err(e) => Err(e),
                },
            }
        }
    }

    /// The exporter that carries `plan` out below `root`, where the output
    /// counts as project `output_id`: `projects` says where each project lies,
    /// `mapping` where each planned file ends up.
    pub fn new(
        root: String,
        output_id: Pid,
        projects: HashMap<usize, String>,
        mapping: IndexMapping,
        plan: Vec<(Index, Strategy)>,
    ) -> (exporter: Self)
        ensures
            exporter.root() == root@,
            exporter.output() == output_id,
            exporter.roots() == root_views(projects@),
            exporter.mapping() == mapping@,
            exporter.plan() == plan_views(plan@),
    {
        Exporter { root, output_id, projects, mapping, plan, _workspace: PhantomData }
    }

    /// The number of planned entries.
    pub fn len(&self) -> (n: usize)
        ensures
            n == self.plan().len(),
    {
        self.plan.len()
    }

    /// The full path of `index` in the output.
    pub fn path(&self, index: &Index) -> (path: String)
        ensures
            path@ == index@.prefixed(self.root()),
    {
        index.prefix(self.root.as_str())
    }

    /// Where `index` ends up, if the mapping holds it.
    pub fn index(&self, index: &Index) -> (to: Option<&Index>)
        ensures
            to is Some == self.mapping().contains_key(index@),
            to matches Some(i) ==> i@ == self.mapping()[index@],
    {
        self.mapping.get(index)
    }

    /// The request for the file of the planned entry `k`, where the root of its
    /// project is known.
    fn request(&self, k: usize) -> (action: Option<Action>)
        requires
            k < self.plan().len(),
        ensures
            action is Some == self.known(k as int),
            action matches Some(a) ==> a@ == self.source(k as int),
    {
        let index = &self.plan[k].0;
        let pid = *index.pid();
        match self.projects.get(&pid.value()) {
            Some(root) => Some(Action::Load { path: index.prefix(root.as_str()), pid }),
            None => None,
        }
    }

    /// Takes up the plan from entry `from`.
    fn resume(&self, from: usize) -> (r: (State<W::File>, Action))
        requires
            from <= self.plan().len(),
        ensures
            (r.0, r.1@) == self.take_up(from as int),
    {
        let mut k = from;
        while k < self.plan.len()
            invariant
                from <= k <= self.plan().len(),
                self.next_known(from as int) == self.next_known(k as int),
            decreases self.plan.len() - k,
        {
            match self.request(k) {
                Some(action) => {
                    return (State { cursor: k, awaiting: Awaiting::Source }, action);
                },
                None => {},
            }
            k += 1;
        }
        (State { cursor: k, awaiting: Awaiting::Nothing }, Action::Done)
    }

    /// The request for what the output holds at the path of the planned entry `k`.
    fn load_existing(&self, k: usize) -> (action: Action)
        requires
            k < self.plan().len(),
        ensures
            action@ == self.existing(k as int),
    {
        let at = self.plan[k].0.with_pid(self.output_id);
        Action::Load { path: self.path(&at), pid: self.output_id }
    }

    /// The order to write `file` for the planned entry `k`, and the state after it.
    fn store(&self, k: usize, file: W::File) -> (r: (State<W::File>, Action))
        requires
            k < self.plan().len(),
            k < usize::MAX,
        ensures
            (r.0, r.1@) == self.commit(k as int, file),
    {
        let path = self.path(&self.mapping.image(&self.plan[k].0));
        let dir = fs::prepare_parent(path.as_str());
        let action = Action::Write { path, dir, content: file.data() };
        (State { cursor: k + 1, awaiting: Awaiting::Nothing }, action)
    }

    /// Takes the export one step further: from the state and what the driver
    /// reports to the next state and what the driver is to do. An error ends the
    /// export.
    pub fn advance(&self, state: State<W::File>, event: Event<W::File>) -> (r: Result<
        (State<W::File>, Action),
        Error,
    >)
        ensures
            match r {
                Ok((next, action)) => self.step(state, event) == Ok::<
                    (State<W::File>, ActionView),
                    Error,
                >((next, action@)),
                Err(e) => self.step(state, event) == Err::<(State<W::File>, ActionView), Error>(e),
            },
    {
        let k = state.cursor;
        if k >= self.plan.len() {
            return Ok((State { cursor: k, awaiting: Awaiting::Nothing }, Action::Done));
        }
        match state.awaiting {
            Awaiting::Nothing => Ok(self.resume(k)),
            Awaiting::Source => match event {
                Event::Ready => Ok(self.resume(k)),
                Event::Loaded(None) => Ok(self.resume(k + 1)),
                Event::Loaded(Some(file)) => {
                    let file = self.mapping.apply_mapping(file);
                    match self.plan[k].1 {
                        Strategy::Merge => Ok(
                            (
                                State { cursor: k, awaiting: Awaiting::Existing(file) },
                                self.load_existing(k),
                            ),
                        ),
                        _ => Ok(self.store(k, file)),
                    }
                },
            },
            Awaiting::Existing(file) => match event {
                Event::Ready => {
                    let action = self.load_existing(k);
                    Ok((State { cursor: k, awaiting: Awaiting::Existing(file) }, action))
                },
                Event::Loaded(None) => Ok(self.store(k, file)),
                Event::Loaded(Some(older)) => {
                    let merged = older.merge(file)?;
                    Ok(self.store(k, merged))
                },
            },
        }
    }
}

} // verus!
