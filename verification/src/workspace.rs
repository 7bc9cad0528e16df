use crate::file::File;
use crate::index::{
    answers, distinct, first_answer, lemma_first_answer, lemma_last_occurrence, lemma_table,
    table, views, Index, IndexList, IndexView, Lookup,
};
use crate::logger::{log_conflicted, EventView, Logger, Silent};
use crate::order::{lemma_ordered_table, lemma_table_has, plan_views};
use crate::project::{Pid, Project, Strategy};
use crate::timeline::{root_views, Timeline};
use std::collections::HashMap;
use vstd::prelude::*;

verus! {

/// The projects that are merged and the policy by which their files meet. The
/// host implements this.
///
/// The spec functions name what the methods give. A verified implementation
/// says what they are; one in plain Rust leaves them as they stand here.
pub trait Workspace: Sized {
    type Project: Project;

    type File: File;

    /// The projects of the workspace.
    open spec fn members(&self) -> Seq<Self::Project> {
        arbitrary()
    }

    /// The strategy for a path. It is a matter of the path alone, so that every
    /// project gets the same answer for the same path.
    open spec fn policy(&self, path: Seq<char>) -> Strategy {
        arbitrary()
    }

    /// The stem under which the file with stem `stem` of project `pid` is renamed.
    open spec fn formatted(pid: Pid, stem: Seq<char>) -> Seq<char> {
        arbitrary()
    }

    fn projects(&self) -> (projects: &[Self::Project])
        ensures
            projects@ == self.members(),
    ;

    /// The strategy for the path of `index`.
    fn strategy(&self, index: &Index) -> (strategy: Strategy)
        ensures
            strategy == self.policy(index@.path),
    ;

    /// Loads the file at `path` as a file of project `pid`; nothing where it
    /// cannot be had.
    fn file(path: &str, pid: Pid) -> Option<Self::File>;

    /// Makes the stem for a renamed file from the project's identifier and the
    /// old stem. `default_formatter` is the usual choice.
    fn formatter(pid: &Pid, filename: &str) -> (name: String)
        ensures
            name@ == Self::formatted(*pid, filename@),
    ;
}

/// The files of `projects`, project after project.
pub open spec fn listed<P: Project>(projects: Seq<P>) -> Seq<IndexView>
    decreases projects.len(),
{
    if projects.len() == 0 {
        Seq::empty()
    } else {
        listed(projects.drop_last()) + projects.last().listing()
    }
}

/// Where each of `projects` lies, by the number of its identifier; of two
/// projects with the same identifier the later counts.
pub open spec fn roots_of<P: Project>(projects: Seq<P>) -> Map<nat, Seq<char>>
    decreases projects.len(),
{
    if projects.len() == 0 {
        Map::empty()
    } else {
        roots_of(projects.drop_last()).insert(
            projects.last().ident().id(),
            projects.last().location(),
        )
    }
}

/// The preview of a workspace: the files of all its projects, each once.
pub open spec fn previewed<W: Workspace>(workspace: &W) -> Seq<IndexView> {
    distinct(listed(workspace.members()))
}

/// The index with which `index` collides: the first of the preview with the same
/// path and another project.
pub open spec fn conflict_of<W: Workspace>(workspace: &W, index: IndexView) -> Option<IndexView> {
    first_answer(previewed(workspace), index, Lookup::Conflict)
}

/// The strategy that the plan gives `index`: what the policy says of its path
/// where it collides, and `Replace` where it does not.
pub open spec fn verdict<W: Workspace>(workspace: &W, index: IndexView) -> Strategy {
    if conflict_of(workspace, index) is Some {
        workspace.policy(index.path)
    } else {
        Strategy::Replace
    }
}

/// What the observer is told of `index`.
pub open spec fn report<W: Workspace>(workspace: &W, index: IndexView) -> EventView {
    match conflict_of(workspace, index) {
        Some(conflict) => EventView::conflicted(workspace.policy(index.path), conflict, index),
        None => EventView::Add(index),
    }
}

/// The strategy of every file of the preview.
pub open spec fn verdicts<W: Workspace>(workspace: &W) -> Map<IndexView, Strategy> {
    Map::new(
        |index: IndexView| previewed(workspace).contains(index),
        |index: IndexView| verdict(workspace, index),
    )
}

/// What the observer is told in all: one event for each file of the preview, in
/// the preview's order.
pub open spec fn reports<W: Workspace>(workspace: &W) -> Seq<EventView> {
    previewed(workspace).map_values(|index: IndexView| report(workspace, index))
}

/// A file of the preview is reported as added exactly where no file of another
/// project shares its path; where one does, it is reported as replaced, merged
/// or renamed.
pub proof fn lemma_collision_completeness<W: Workspace>(workspace: &W, k: int)
    requires
        0 <= k < previewed(workspace).len(),
    ensures
        reports(workspace)[k] is Add <==> !exists|j: int|
            0 <= j < previewed(workspace).len() && (#[trigger] previewed(workspace)[j]).path
                == previewed(workspace)[k].path && previewed(workspace)[j].pid != previewed(
                workspace,
            )[k].pid,
{
    let files = previewed(workspace);
    let index = files[k];
    lemma_first_answer(files, index, Lookup::Conflict);
    if conflict_of(workspace, index) is Some {
        let j = choose|j: int|
            0 <= j < files.len() && answers(#[trigger] files[j], index, Lookup::Conflict);
        assert(files[j].path == index.path && files[j].pid != index.pid);
    }
    if exists|j: int|
        0 <= j < files.len() && (#[trigger] files[j]).path == index.path && files[j].pid
            != index.pid {
        let j = choose|j: int|
            0 <= j < files.len() && (#[trigger] files[j]).path == index.path && files[j].pid
                != index.pid;
        assert(answers(files[j], index, Lookup::Conflict));
    }
}

/// In the plan of a workspace, files with the same path have the same strategy.
pub proof fn lemma_one_strategy_per_path<W: Workspace>(
    workspace: &W,
    timeline: Timeline<W>,
    i: int,
    j: int,
)
    requires
        timeline.plans(workspace),
        0 <= i < timeline.plan().len(),
        0 <= j < timeline.plan().len(),
        timeline.plan()[i].0.path == timeline.plan()[j].0.path,
    ensures
        timeline.plan()[i].1 == timeline.plan()[j].1,
{
    let plan = timeline.plan();
    let files = previewed(workspace);
    let a = plan[i].0;
    let b = plan[j].0;
    lemma_ordered_table(plan, i);
    lemma_ordered_table(plan, j);
    assert(files.contains(a) && files.contains(b));
    if a != b {
        assert(a.pid != b.pid);
        lemma_first_answer(files, a, Lookup::Conflict);
        lemma_first_answer(files, b, Lookup::Conflict);
        let x = choose|x: int| 0 <= x < files.len() && files[x] == a;
        let y = choose|y: int| 0 <= y < files.len() && files[y] == b;
        assert(answers(files[y], a, Lookup::Conflict));
        assert(answers(files[x], b, Lookup::Conflict));
    }
}

/// Two workspaces whose policies say the same of a path plan the same strategy
/// for it, where the path collides in both or in neither.
pub proof fn lemma_policy_determinism<V: Workspace, W: Workspace>(
    first: &V,
    second: &W,
    planned: Timeline<V>,
    other: Timeline<W>,
    i: int,
    j: int,
)
    requires
        planned.plans(first),
        other.plans(second),
        0 <= i < planned.plan().len(),
        0 <= j < other.plan().len(),
        planned.plan()[i].0.path == other.plan()[j].0.path,
        first.policy(planned.plan()[i].0.path) == second.policy(other.plan()[j].0.path),
        conflict_of(first, planned.plan()[i].0) is Some == conflict_of(
            second,
            other.plan()[j].0,
        ) is Some,
    ensures
        planned.plan()[i].1 == other.plan()[j].1,
{
    lemma_ordered_table(planned.plan(), i);
    lemma_ordered_table(other.plan(), j);
}

/// The files of all projects of `workspace`, project after project.
pub fn indexes<W: Workspace>(workspace: &W) -> (all: Vec<Index>)
    ensures
        views(all@) == listed(workspace.members()),
{
    let projects = workspace.projects();
    let mut all: Vec<Index> = Vec::new();
    let mut i: usize = 0;
    assert(views(all@) =~= listed(projects@.take(0)));
    while i < projects.len()
        invariant
            i <= projects.len(),
            projects@ == workspace.members(),
            views(all@) == listed(projects@.take(i as int)),
        decreases projects.len() - i,
    {
        let list = projects[i].indexes();
        let files = list.inner();
        let ghost before = views(all@);
        let mut j: usize = 0;
        while j < files.len()
            invariant
                j <= files.len(),
                views(all@) == before + views(files@).take(j as int),
            decreases files.len() - j,
        {
            let ghost so_far = views(all@);
            let copy = files[j].clone();
            all.push(copy);
            assert(views(all@) =~= so_far.push(copy@));
            assert(views(files@).take(j + 1) =~= views(files@).take(j as int).push(copy@));
            j += 1;
        }
        assert(views(files@).take(j as int) =~= views(files@));
        assert(projects@.take(i + 1).drop_last() =~= projects@.take(i as int));
        i += 1;
    }
    assert(projects@.take(i as int) =~= projects@);
    all
}

/// The preview of `workspace`, by which collisions are found.
pub fn preview<W: Workspace>(workspace: &W) -> (list: IndexList)
    ensures
        list@ == previewed(workspace),
{
    IndexList::new(indexes(workspace))
}

/// Where each project of `workspace` lies.
pub fn project_paths<W: Workspace>(workspace: &W) -> (roots: HashMap<usize, String>)
    ensures
        root_views(roots@) == roots_of(workspace.members()),
{
    broadcast use vstd::std_specs::hash::group_hash_axioms;

    let projects = workspace.projects();
    let mut roots: HashMap<usize, String> = HashMap::new();
    let mut i: usize = 0;
    assert(root_views(roots@) =~= roots_of(projects@.take(0)));
    while i < projects.len()
        invariant
            i <= projects.len(),
            projects@ == workspace.members(),
            root_views(roots@) == roots_of(projects@.take(i as int)),
        decreases projects.len() - i,
    {
        let ghost before = roots@;
        let pid = projects[i].pid();
        let root = projects[i].root().to_owned();
        roots.insert(pid.value(), root);
        assert(root_views(roots@) =~= root_views(before).insert(pid.id(), root@));
        assert(projects@.take(i + 1).drop_last() =~= projects@.take(i as int));
        i += 1;
    }
    assert(projects@.take(i as int) =~= projects@);
    roots
}

/// A run of files, each with the strategy that the plan gives it.
pub open spec fn judged<W: Workspace>(workspace: &W, files: Seq<IndexView>) -> Seq<
    (IndexView, Strategy),
> {
    files.map_values(|index: IndexView| (index, verdict(workspace, index)))
}

/// The map of the judged preview holds each file of the preview with its verdict.
proof fn lemma_judged<W: Workspace>(workspace: &W)
    ensures
        table(judged(workspace, previewed(workspace))) == verdicts(workspace),
{
    let files = previewed(workspace);
    let pairs = judged(workspace, files);
    assert forall|index: IndexView| #[trigger]
        table(pairs).contains_key(index) == files.contains(index) by {
        if files.contains(index) {
            let i = choose|i: int| 0 <= i < files.len() && files[i] == index;
            assert(pairs[i].0 == index);
            lemma_last_occurrence(pairs, index, pairs.len() - 1);
            let at = choose|at: int|
                0 <= at < pairs.len() && pairs[at].0 == index && forall|j: int|
                    at < j < pairs.len() ==> pairs[j].0 != index;
            lemma_table(pairs, index, at);
        } else {
            assert forall|j: int| 0 <= j < pairs.len() implies pairs[j].0 != index by {
                assert(files[j] == pairs[j].0);
            }
            lemma_table(pairs, index, -1);
        }
    }
    assert forall|index: IndexView| #[trigger] table(pairs).contains_key(index) implies table(
        pairs,
    )[index] == verdict(workspace, index) by {
        lemma_table_has(pairs, index);
        lemma_last_occurrence(pairs, index, pairs.len() - 1);
        let at = choose|at: int|
            0 <= at < pairs.len() && pairs[at].0 == index && forall|j: int|
                at < j < pairs.len() ==> pairs[j].0 != index;
        lemma_table(pairs, index, at);
    }
    assert(table(pairs) =~= verdicts(workspace));
}

/// Makes the plan for `workspace` and tells `logger` of each planned file once,
/// in the order of the preview: `add` for a file that collides with nothing,
/// else the event of the strategy that the policy gives its path.
pub fn resolve_with<W: Workspace, L: Logger>(workspace: &W, logger: &mut L) -> (timeline: Timeline<
    W,
>)
    ensures
        timeline.plans(workspace),
        final(logger).events() == old(logger).events() + reports(workspace),
{
    let preview = preview(workspace);
    let roots = project_paths(workspace);
    let files = preview.inner();
    let mut entries: Vec<(Index, Strategy)> = Vec::new();
    let mut k: usize = 0;
    assert(plan_views(entries@) =~= judged(workspace, previewed(workspace).take(0)));
    assert(logger.events() =~= old(logger).events() + reports(workspace).take(0));
    while k < files.len()
        invariant
            k <= files.len(),
            views(files@) == previewed(workspace),
            preview@ == previewed(workspace),
            plan_views(entries@) == judged(workspace, previewed(workspace).take(k as int)),
            logger.events() == old(logger).events() + reports(workspace).take(k as int),
        decreases files.len() - k,
    {
        let index = &files[k];
        let ghost told = logger.events();
        let ghost planned = plan_views(entries@);
        let strategy = match preview.get_different_pid(index) {
            Some(conflict) => {
                let strategy = workspace.strategy(index);
                log_conflicted(logger, strategy, conflict, index);
                strategy
            },
            None => {
                logger.add(index);
                Strategy::Replace
            },
        };
        assert(index@ == previewed(workspace)[k as int]);
        assert(strategy == verdict(workspace, index@));
        assert(logger.events() == told.push(report(workspace, index@)));
        entries.push((index.clone(), strategy));
        assert(plan_views(entries@) =~= planned.push((index@, strategy)));
        assert(judged(workspace, previewed(workspace).take(k + 1)) =~= planned.push(
            (index@, strategy),
        ));
        assert(reports(workspace).take(k + 1) =~= reports(workspace).take(k as int).push(
            report(workspace, index@),
        ));
        assert(logger.events() =~= old(logger).events() + reports(workspace).take(k + 1));
        k += 1;
    }
    assert(previewed(workspace).take(k as int) =~= previewed(workspace));
    assert(reports(workspace).take(k as int) =~= reports(workspace));
    proof {
        lemma_judged(workspace);
    }
    Timeline::new(entries, roots)
}

/// Makes the plan of `workspace`: every file of every project gets its strategy,
/// `Replace` where it collides with nothing and what the policy says of its path
/// where it does. Nobody is told.
pub fn resolve<W: Workspace>(workspace: &W) -> (timeline: Timeline<W>)
    ensures
        timeline.plans(workspace),
{
    let mut silent = Silent::new();
    resolve_with(workspace, &mut silent)
}

} // verus!
