use crate::error::Error;
use crate::exporter::Exporter;
use crate::formatter::{default_formatted, lemma_rename_unique};
use crate::index::{
    image, lemma_last_occurrence, lemma_table, pair_views, settles, table, Index, IndexMapping,
    IndexView,
};
use crate::order::{
    key_before, lemma_ordered_table, lemma_table_has, ordered, place, plan_views,
};
use crate::project::{Pid, Strategy};
use crate::workspace::{roots_of, verdicts, Workspace};
use std::collections::HashMap;
use std::marker::PhantomData;
use vstd::prelude::*;

verus! {

broadcast use vstd::std_specs::hash::group_hash_axioms;

/// The roots that a map from identifier to path stands for, as text.
pub open spec fn root_views(projects: Map<usize, String>) -> Map<nat, Seq<char>> {
    Map::new(
        |k: nat| k <= usize::MAX && projects.contains_key(k as usize),
        |k: nat| projects[k as usize]@,
    )
}

/// Where a planned file ends up: under the output's identifier, and under its
/// new name where it is renamed.
pub open spec fn destination<W: Workspace>(entry: (IndexView, Strategy), output: Pid) -> IndexView {
    match entry.1 {
        Strategy::Rename => entry.0.renamed(W::formatted(entry.0.pid, entry.0.stem())).with_pid(
            output,
        ),
        _ => entry.0.with_pid(output),
    }
}

/// Whether a planned file is to be renamed and cannot be.
pub open spec fn blocked(entry: (IndexView, Strategy)) -> bool {
    entry.1 == Strategy::Rename && !entry.0.renames()
}

/// Each planned file beside where it ends up.
pub open spec fn destinations<W: Workspace>(
    plan: Seq<(IndexView, Strategy)>,
    output: Pid,
) -> Seq<(IndexView, IndexView)> {
    plan.map_values(|entry: (IndexView, Strategy)| (entry.0, destination::<W>(entry, output)))
}

/// The plan of a merge: for each file of each project the strategy by which it
/// goes to the output, in ascending order of project and path, and where each
/// project lies.
pub struct Timeline<W> {
    strategy: Vec<(Index, Strategy)>,
    projects: HashMap<usize, String>,
    _workspace: PhantomData<W>,
}

impl<W> Timeline<W> {
    #[verifier::type_invariant]
    spec fn sorted(self) -> bool {
        ordered(plan_views(self.strategy@))
    }
}

impl<W: Workspace> Timeline<W> {
    /// The planned files with their strategies, in plan order.
    pub closed spec fn plan(&self) -> Seq<(IndexView, Strategy)> {
        plan_views(self.strategy@)
    }

    /// The root of each project, by the number of its identifier.
    pub closed spec fn roots(&self) -> Map<nat, Seq<char>> {
        root_views(self.projects@)
    }

    /// The identifier under which the output counts as a project: the number
    /// of projects that the plan knows.
    pub open spec fn output(&self) -> Pid {
        Pid::numbered(self.roots().dom().len())
    }

    /// Whether this is the plan of `workspace`: its files in ascending order of
    /// project and path, each with its verdict, and the roots of its projects.
    pub open spec fn plans(&self, workspace: &W) -> bool {
        &&& ordered(self.plan())
        &&& table(self.plan()) == verdicts(workspace)
        &&& self.roots() == roots_of(workspace.members())
    }

    /// The plan that gives each index of `strategy` its strategy (the later one
    /// where an index stands twice), in ascending order, with the projects at
    /// `projects`.
    pub fn new(strategy: Vec<(Index, Strategy)>, projects: HashMap<usize, String>) -> (timeline:
        Self)
        ensures
            ordered(timeline.plan()),
            table(timeline.plan()) == table(plan_views(strategy@)),
            timeline.roots() == root_views(projects@),
    {
        let mut plan: Vec<(Index, Strategy)> = Vec::new();
        let mut i: usize = 0;
        assert(plan_views(strategy@).take(0) =~= Seq::empty());
        while i < strategy.len()
            invariant
                i <= strategy.len(),
                ordered(plan_views(plan@)),
                table(plan_views(plan@)) == table(plan_views(strategy@).take(i as int)),
            decreases strategy.len() - i,
        {
            let ghost next = plan_views(strategy@).take(i + 1);
            assert(next.drop_last() =~= plan_views(strategy@).take(i as int));
            place(&mut plan, strategy[i].0.clone(), strategy[i].1);
            i += 1;
        }
        assert(plan_views(strategy@).take(i as int) =~= plan_views(strategy@));
        Timeline { strategy: plan, projects, _workspace: PhantomData }
    }

    /// The identifier under which the output counts as a project: the number of
    /// projects that the plan knows.
    pub fn output_id(&self) -> (pid: Pid)
        ensures
            pid == self.output(),
            pid.id() == self.roots().dom().len(),
    {
        proof {
            lemma_root_views_len(self.projects@);
        }
        Pid::new(self.projects.len())
    }

    /// The planned files with their strategies, in plan order.
    pub fn strategy(&self) -> (plan: &Vec<(Index, Strategy)>)
        ensures
            plan_views(plan@) == self.plan(),
            ordered(self.plan()),
    {
        proof {
            use_type_invariant(self);
        }
        &self.strategy
    }

    /// Where each planned file ends up. The first planned file that is to be
    /// renamed and cannot be, in plan order, fails the whole with its error.
    pub fn mapping(&self) -> (r: Result<IndexMapping, Error>)
        ensures
            match r {
                Ok(mapping) => {
                    &&& forall|k: int| 0 <= k < self.plan().len() ==> !blocked(#[trigger] self.plan()[k])
                    &&& mapping@ == table(destinations::<W>(self.plan(), self.output()))
                },
                Err(e) => exists|k: int|
                    {
                        &&& 0 <= k < self.plan().len()
                        &&& blocked(#[trigger] self.plan()[k])
                        &&& self.plan()[k].0.rename_fails_with(e)
                        &&& forall|j: int| 0 <= j < k ==> !blocked(#[trigger] self.plan()[j])
                    },
            },
    {
        let oid = self.output_id();
        let mut map: Vec<(Index, Index)> = Vec::new();
        let mut k: usize = 0;
        assert(pair_views(map@) =~= destinations::<W>(self.plan().take(0), oid));
        while k < self.strategy.len()
            invariant
                k <= self.strategy.len(),
                oid == self.output(),
                forall|j: int| 0 <= j < k ==> !blocked(#[trigger] self.plan()[j]),
                pair_views(map@) == destinations::<W>(self.plan().take(k as int), oid),
            decreases self.strategy.len() - k,
        {
            let index = &self.strategy[k].0;
            let ghost entry = self.plan()[k as int];
            let to = match self.strategy[k].1 {
                Strategy::Replace | Strategy::Merge => index.with_pid(oid),
                Strategy::Rename => match index.rename(W::formatter) {
                    Ok(renamed) => renamed.with_pid(oid),
                    Err(e) => {
                        assert(blocked(self.plan()[k as int]));
                        return Err(e);
                    },
                },
            };
            assert(to@ == destination::<W>(entry, oid));
            let ghost before = pair_views(map@);
            map.push((index.clone(), to));
            assert(pair_views(map@) =~= before.push((entry.0, destination::<W>(entry, oid))));
            assert(destinations::<W>(self.plan().take(k + 1), oid) =~= before.push(
                (entry.0, destination::<W>(entry, oid)),
            ));
            k += 1;
        }
        assert(self.plan().take(k as int) =~= self.plan());
        Ok(IndexMapping::new(map))
    }

    /// The exporter that carries this plan out below `root` with `mapping`. The
    /// output joins the projects, under its identifier and at `root`.
    pub fn exporter(self, root: &str, mapping: IndexMapping) -> (exporter: Exporter<W>)
        ensures
            exporter.root() == root@,
            exporter.output() == self.output(),
            exporter.roots() == self.roots().insert(self.output().id(), root@),
            exporter.mapping() == mapping@,
            exporter.plan() == self.plan(),
    {
        let oid = self.output_id();
        let mut projects = self.projects;
        let ghost before = projects@;
        projects.insert(oid.value(), root.to_owned());
        assert(root_views(projects@) =~= root_views(before).insert(oid.id(), root@));
        Exporter::new(root.to_owned(), oid, projects, mapping, self.strategy)
    }

    /// Prepares the export of the plan to the directory `path`: settles where
    /// each planned file ends up, which fails where a rename cannot be had, and
    /// hands the plan to an exporter, which `Exporter::advance` then takes
    /// through the plan step by step.
    pub fn export_to(self, path: &str) -> (r: Result<Exporter<W>, Error>)
        ensures
            match r {
                Ok(exporter) => {
                    &&& forall|k: int| 0 <= k < self.plan().len() ==> !blocked(#[trigger] self.plan()[k])
                    &&& ordered(exporter.plan())
                    &&& exporter.root() == path@
                    &&& exporter.output() == self.output()
                    &&& exporter.roots() == self.roots().insert(self.output().id(), path@)
                    &&& exporter.mapping() == table(destinations::<W>(self.plan(), self.output()))
                    &&& exporter.plan() == self.plan()
                },
                Err(e) => exists|k: int|
                    {
                        &&& 0 <= k < self.plan().len()
                        &&& blocked(#[trigger] self.plan()[k])
                        &&& self.plan()[k].0.rename_fails_with(e)
                        &&& forall|j: int| 0 <= j < k ==> !blocked(#[trigger] self.plan()[j])
                    },
            },
    {
        proof {
            use_type_invariant(&self);
        }
        let mapping = self.mapping()?;
        Ok(self.exporter(path, mapping))
    }

    /// The root of each project, by the number of its identifier.
    pub fn projects(&self) -> (projects: &HashMap<usize, String>)
        ensures
            root_views(projects@) == self.roots(),
    {
        &self.projects
    }
}

/// In an ordered plan the mapping of the destinations sends each planned file
/// to its destination.
pub proof fn lemma_destination<W: Workspace>(
    plan: Seq<(IndexView, Strategy)>,
    output: Pid,
    k: int,
)
    requires
        ordered(plan),
        0 <= k < plan.len(),
    ensures
        image(table(destinations::<W>(plan, output)), plan[k].0) == destination::<W>(
            plan[k],
            output,
        ),
{
    let pairs = destinations::<W>(plan, output);
    assert(ordered(pairs)) by {
        assert forall|i: int, j: int| 0 <= i < j < pairs.len() implies key_before(
            (#[trigger] pairs[i]).0,
            (#[trigger] pairs[j]).0,
        ) by {
            assert(key_before(plan[i].0, plan[j].0));
        }
    }
    lemma_ordered_table(pairs, k);
}

/// Where no planned file is of the output's own project, the mapping of the
/// destinations rewrites no reference twice: every image is a file of the
/// output, and the mapping holds none of those.
pub proof fn lemma_destinations_settle<W: Workspace>(
    plan: Seq<(IndexView, Strategy)>,
    output: Pid,
    targets: Seq<IndexView>,
)
    requires
        forall|k: int| 0 <= k < plan.len() ==> (#[trigger] plan[k]).0.pid != output,
    ensures
        settles(table(destinations::<W>(plan, output)), targets),
{
    let pairs = destinations::<W>(plan, output);
    let mapping = table(pairs);
    assert forall|j: int, i: int|
        0 <= j < i < targets.len() && mapping.contains_key(#[trigger] targets[j])
            && mapping.contains_key(#[trigger] targets[i]) && mapping[targets[j]]
            == targets[i] implies mapping[targets[i]] == targets[i] by {
        lemma_table_has(pairs, targets[j]);
        lemma_last_occurrence(pairs, targets[j], pairs.len() - 1);
        let at = choose|at: int|
            0 <= at < pairs.len() && pairs[at].0 == targets[j] && forall|m: int|
                at < m < pairs.len() ==> pairs[m].0 != targets[j];
        lemma_table(pairs, targets[j], at);
        assert(mapping[targets[j]] == destination::<W>(plan[at], output));
        assert(targets[i].pid == output);
        lemma_table_has(pairs, targets[i]);
        let held = choose|held: int| 0 <= held < pairs.len() && (#[trigger] pairs[held]).0 == targets[i];
        assert(plan[held].0.pid != output);
    }
}

/// Under the default formatter, two planned files of different projects that
/// are both renamed end up at different paths.
pub proof fn lemma_renamed_apart<W: Workspace>(
    a: (IndexView, Strategy),
    b: (IndexView, Strategy),
    output: Pid,
)
    requires
        forall|pid: Pid, stem: Seq<char>| #[trigger]
            W::formatted(pid, stem) == default_formatted(pid, stem),
        a.1 == Strategy::Rename,
        b.1 == Strategy::Rename,
        a.0.pid != b.0.pid,
    ensures
        !blocked(a) && !blocked(b) ==> destination::<W>(a, output).path != destination::<W>(
            b,
            output,
        ).path,
{
    lemma_rename_unique(a.0, b.0);
}

/// The roots are as many as the projects of the map.
proof fn lemma_root_views_len(projects: Map<usize, String>)
    requires
        projects.dom().finite(),
    ensures
        root_views(projects).dom().finite(),
        root_views(projects).dom().len() == projects.dom().len(),
    decreases projects.dom().len(),
{
    if projects.dom().len() == 0 {
        assert(projects.dom() =~= Set::empty());
        assert(root_views(projects).dom() =~= Set::empty());
    } else {
        let k = projects.dom().choose();
        let rest = projects.remove(k);
        lemma_root_views_len(rest);
        assert(root_views(projects).dom() =~= root_views(rest).dom().insert(k as nat));
    }
}

} // verus!
