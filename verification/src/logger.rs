use crate::index::{Index, IndexView};
use crate::project::Strategy;
use vstd::prelude::*;

verus! {

/// One thing that the resolver tells its observer.
#[derive(Debug)]
pub enum Event {
    /// The index collides with nothing and goes to the output as it is.
    Add(Index),
    /// The second index replaces the first, with which it collides.
    Replace(Index, Index),
    /// The second index is merged with the first, with which it collides.
    Merge(Index, Index),
    /// The second index is renamed, since it collides with the first.
    Rename(Index, Index),
}

/// What an `Event` stands for.
pub enum EventView {
    Add(IndexView),
    Replace(IndexView, IndexView),
    Merge(IndexView, IndexView),
    Rename(IndexView, IndexView),
}

impl EventView {
    /// The event that tells of a collision handled by `level`.
    pub open spec fn conflicted(level: Strategy, conflict: IndexView, with: IndexView) -> EventView {
        match level {
            Strategy::Replace => EventView::Replace(conflict, with),
            Strategy::Merge => EventView::Merge(conflict, with),
            Strategy::Rename => EventView::Rename(conflict, with),
        }
    }
}

impl View for Event {
    type V = EventView;

    open spec fn view(&self) -> EventView {
        match self {
            Event::Add(index) => EventView::Add(index@),
            Event::Replace(conflict, with) => EventView::Replace(conflict@, with@),
            Event::Merge(conflict, with) => EventView::Merge(conflict@, with@),
            Event::Rename(conflict, with) => EventView::Rename(conflict@, with@),
        }
    }
}

/// The views of a run of events.
pub open spec fn event_views(events: Seq<Event>) -> Seq<EventView> {
    events.map_values(|e: Event| e@)
}

/// The observer of a resolution. Each method is told of one planned index; none
/// has a say in the plan. `events` is the history of what the observer was told,
/// by which the resolver's contract says what it reports.
pub trait Logger {
    /// Everything that the observer was told so far, oldest first.
    open spec fn events(&self) -> Seq<EventView> {
        arbitrary()
    }

    /// `index` collides with nothing.
    fn add(&mut self, index: &Index)
        ensures
            final(self).events() == old(self).events().push(EventView::Add(index@)),
    ;

    /// `with` replaces `conflict`.
    fn replace(&mut self, conflict: &Index, with: &Index)
        ensures
            final(self).events() == old(self).events().push(EventView::Replace(conflict@, with@)),
    ;

    /// `with` is merged with `conflict`.
    fn merge(&mut self, conflict: &Index, with: &Index)
        ensures
            final(self).events() == old(self).events().push(EventView::Merge(conflict@, with@)),
    ;

    /// `index` is renamed because of `conflict`.
    fn rename(&mut self, conflict: &Index, index: &Index)
        ensures
            final(self).events() == old(self).events().push(EventView::Rename(conflict@, index@)),
    ;
}

/// Tells `logger` of a collision by the method that belongs to `level`.
pub fn log_conflicted<L: Logger>(logger: &mut L, level: Strategy, conflict: &Index, with: &Index)
    ensures
        final(logger).events() == old(logger).events().push(
            EventView::conflicted(level, conflict@, with@),
        ),
{
    match level {
        Strategy::Replace => logger.replace(conflict, with),
        Strategy::Merge => logger.merge(conflict, with),
        Strategy::Rename => logger.rename(conflict, with),
    }
}

/// An observer that keeps what it is told.
#[derive(Debug)]
pub struct History {
    events: Vec<Event>,
}

impl History {
    pub fn new() -> (history: Self)
        ensures
            history.events() == Seq::<EventView>::empty(),
    {
        let history = History { events: Vec::new() };
        assert(event_views(history.events@) =~= Seq::<EventView>::empty());
        history
    }

    /// The events, oldest first.
    pub fn recorded(&self) -> (events: &Vec<Event>)
        ensures
            event_views(events@) == self.events(),
    {
        &self.events
    }

    fn record(&mut self, event: Event)
        ensures
            final(self).events() == old(self).events().push(event@),
    {
        self.events.push(event);
        assert(event_views(self.events@) =~= event_views(old(self).events@).push(event@));
    }
}

impl Logger for History {
    closed spec fn events(&self) -> Seq<EventView> {
        event_views(self.events@)
    }

    fn add(&mut self, index: &Index) {
        self.record(Event::Add(index.clone()));
    }

    fn replace(&mut self, conflict: &Index, with: &Index) {
        self.record(Event::Replace(conflict.clone(), with.clone()));
    }

    fn merge(&mut self, conflict: &Index, with: &Index) {
        self.record(Event::Merge(conflict.clone(), with.clone()));
    }

    fn rename(&mut self, conflict: &Index, index: &Index) {
        self.record(Event::Rename(conflict.clone(), index.clone()));
    }
}

/// An observer that lets everything pass. Its history exists for proofs only.
pub struct Silent {
    told: Ghost<Seq<EventView>>,
}

impl Silent {
    pub fn new() -> (silent: Self)
        ensures
            silent.events() == Seq::<EventView>::empty(),
    {
        Silent { told: Ghost(Seq::empty()) }
    }
}

impl Logger for Silent {
    closed spec fn events(&self) -> Seq<EventView> {
        self.told@
    }

    fn add(&mut self, index: &Index) {
        self.told = Ghost(self.told@.push(EventView::Add(index@)));
    }

    fn replace(&mut self, conflict: &Index, with: &Index) {
        self.told = Ghost(self.told@.push(EventView::Replace(conflict@, with@)));
    }

    fn merge(&mut self, conflict: &Index, with: &Index) {
        self.told = Ghost(self.told@.push(EventView::Merge(conflict@, with@)));
    }

    fn rename(&mut self, conflict: &Index, index: &Index) {
        self.told = Ghost(self.told@.push(EventView::Rename(conflict@, index@)));
    }
}

} // verus!
