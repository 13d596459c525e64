//! A run, as a machine that decides and leaves the work on files, on the
//! query history and on the resolver to its driver.
//!
//! The driver performs the task of the present stage, hands the outcome back
//! as an event, and goes on until the task is to finish or to abort.
//! Intersecting needs nothing from outside: it is part of the step that takes
//! the reference lists.

use crate::blocklist::{domains_of_texts, ReferenceSet};
use crate::config::Config;
use crate::ftl::{load_domain_stats, stats_of, stats_view, DomainStats};
use crate::intersect::{intersect, lemma_selected_empty_reference, selected};
use crate::state::RunState;
use crate::text::strings_view;
use vstd::prelude::*;
use vstd::string::StringExecFns;

verus! {

/// The text of the managed blocklist for a selection: its domains in order,
/// one to a line, each line ended by a line feed.
pub open spec fn rendered(selection: Seq<Seq<char>>) -> Seq<char>
    decreases selection.len(),
{
    if selection.len() == 0 {
        Seq::empty()
    } else {
        rendered(selection.drop_last()) + selection.last() + seq!['\n']
    }
}

/// Writes out the text of the managed blocklist for `selection`.
pub fn render_blocklist(selection: &Vec<String>) -> (text: String)
    ensures
        text@ == rendered(strings_view(selection@)),
{
    let mut text = String::new();
    let mut i: usize = 0;
    while i < selection.len()
        invariant
            i <= selection@.len(),
            text@ == rendered(strings_view(selection@).take(i as int)),
        decreases selection@.len() - i,
    {
        text.append(selection[i].as_str());
        text.append("\n");
        proof {
            reveal_strlit("\n");
            assert("\n"@ == seq!['\n']);
            let all = strings_view(selection@);
            assert(all.take(i + 1).drop_last() == all.take(i as int));
        }
        i += 1;
    }
    assert(strings_view(selection@).take(selection@.len() as int) == strings_view(selection@));
    text
}

/// What the driver reports back.
#[derive(Clone, Debug, PartialEq, Eq)]
pub enum Event {
    /// Whether the query history is there.
    SourceChecked { present: bool },
    /// The rows of the query history: a raw domain and the number of its
    /// allowed queries each.
    StatsLoaded { rows: Vec<(String, u32)> },
    /// The texts of the reference lists that could be read.
    ReferenceLoaded { texts: Vec<String> },
    /// The blocklist stands at its final path, since the given time in
    /// seconds since the Unix epoch.
    Published { at: u64 },
    /// The run state is written.
    StatePersisted,
    /// The resolver was told to reload, with or without success.
    ReloadTried { ok: bool },
}

/// What the driver is asked to do.
#[derive(Clone, Debug, PartialEq, Eq)]
pub enum Action {
    /// See whether the query history is there.
    CheckSource,
    /// Query the history.
    LoadStats,
    /// Read the reference lists.
    LoadReference,
    /// Put `text` in place of the managed blocklist, in one move.
    Publish { text: String },
    /// Write the run state.
    Persist { state: RunState },
    /// Tell the resolver to reload its lists.
    Reload,
    /// Nothing is left to do.
    Finish,
    /// The query history is missing: report it and stop.
    Abort,
}

/// Where a run stands.
#[derive(Clone, Copy, Debug, PartialEq, Eq, Structural)]
pub enum Stage {
    /// The query history has to be found.
    CheckSource,
    /// The query history has to be read.
    LoadStats,
    /// The reference lists have to be read.
    LoadReference,
    /// The selection is made and has to be published.
    PublishFile,
    /// The blocklist is published; the run state has to be written.
    PersistState,
    /// The run state is written; the resolver has to be told.
    TriggerReload,
    /// The run has come to its end.
    Done,
    /// The run was given up, for want of a query history.
    Failed,
}

/// A run: its stage, and what it holds there.
#[derive(Clone, Debug, PartialEq, Eq)]
pub enum Pipeline {
    /// Nothing is known yet but the options.
    CheckSource { auto_reload: bool },
    /// The query history is there.
    LoadStats { auto_reload: bool },
    /// The statistics are read.
    LoadReference { auto_reload: bool, stats: Vec<DomainStats> },
    /// The domains to block are selected.
    PublishFile { auto_reload: bool, selection: Vec<String>, reference_was_empty: bool },
    /// The blocklist is published, and `state` says what of.
    PersistState { auto_reload: bool, state: RunState },
    /// All is written, and the resolver is to reload.
    TriggerReload,
    /// The run has come to its end.
    Done,
    /// The run was given up, for want of a query history.
    Failed,
}

/// Whether `next` is what `old` becomes on `event`.
///
/// An event that answers the task of the stage moves the run on; any other
/// event leaves it as it is. Only a missing query history fails a run, and a
/// reload that did not succeed ends it like one that did.
pub open spec fn advanced(old: Pipeline, event: Event, next: Pipeline) -> bool {
    match (old, event) {
        (Pipeline::CheckSource { auto_reload }, Event::SourceChecked { present }) => if present {
            next == (Pipeline::LoadStats { auto_reload })
        } else {
            next == Pipeline::Failed
        },
        (Pipeline::LoadStats { auto_reload }, Event::StatsLoaded { rows }) => {
            &&& next matches Pipeline::LoadReference { auto_reload: a, stats }
            &&& a == auto_reload
            &&& stats_view(stats@) == stats_of(rows@)
        },
        (Pipeline::LoadReference { auto_reload, stats }, Event::ReferenceLoaded { texts }) => {
            let reference = domains_of_texts(strings_view(texts@));
            &&& next matches Pipeline::PublishFile { auto_reload: a, selection, reference_was_empty }
            &&& a == auto_reload
            &&& strings_view(selection@) == selected(stats_view(stats@), reference)
            &&& reference_was_empty == (reference == Set::<Seq<char>>::empty())
        },
        (
            Pipeline::PublishFile { auto_reload, selection, reference_was_empty },
            Event::Published { at },
        ) => next == (Pipeline::PersistState {
            auto_reload,
            state: RunState {
                domains_blocked: selection@.len() as u64,
                last_run: at,
                reference_was_empty,
            },
        }),
        (Pipeline::PersistState { auto_reload, state }, Event::StatePersisted) => if auto_reload {
            next == Pipeline::TriggerReload
        } else {
            next == Pipeline::Done
        },
        (Pipeline::TriggerReload, Event::ReloadTried { ok }) => next == Pipeline::Done,
        _ => next == old,
    }
}

/// Whether `action` is what a run at `run` waits for.
pub open spec fn is_task(run: Pipeline, action: Action) -> bool {
    match run {
        Pipeline::CheckSource { .. } => action == Action::CheckSource,
        Pipeline::LoadStats { .. } => action == Action::LoadStats,
        Pipeline::LoadReference { .. } => action == Action::LoadReference,
        Pipeline::PublishFile { selection, .. } => {
            &&& action matches Action::Publish { text }
            &&& text@ == rendered(strings_view(selection@))
        },
        Pipeline::PersistState { state, .. } => action == (Action::Persist { state }),
        Pipeline::TriggerReload => action == Action::Reload,
        Pipeline::Done => action == Action::Finish,
        Pipeline::Failed => action == Action::Abort,
    }
}

impl Pipeline {
    /// The stage of the run.
    pub open spec fn stage_of(self) -> Stage {
        match self {
            Pipeline::CheckSource { .. } => Stage::CheckSource,
            Pipeline::LoadStats { .. } => Stage::LoadStats,
            Pipeline::LoadReference { .. } => Stage::LoadReference,
            Pipeline::PublishFile { .. } => Stage::PublishFile,
            Pipeline::PersistState { .. } => Stage::PersistState,
            Pipeline::TriggerReload => Stage::TriggerReload,
            Pipeline::Done => Stage::Done,
            Pipeline::Failed => Stage::Failed,
        }
    }

    /// A run at its start, under the given options.
    pub fn new(config: &Config) -> (run: Pipeline)
        ensures
            run == (Pipeline::CheckSource { auto_reload: config.output.auto_reload }),
    {
        Pipeline::CheckSource { auto_reload: config.output.auto_reload }
    }

    /// The stage of the run.
    pub fn stage(&self) -> (stage: Stage)
        ensures
            stage == self.stage_of(),
    {
        match self {
            Pipeline::CheckSource { .. } => Stage::CheckSource,
            Pipeline::LoadStats { .. } => Stage::LoadStats,
            Pipeline::LoadReference { .. } => Stage::LoadReference,
            Pipeline::PublishFile { .. } => Stage::PublishFile,
            Pipeline::PersistState { .. } => Stage::PersistState,
            Pipeline::TriggerReload => Stage::TriggerReload,
            Pipeline::Done => Stage::Done,
            Pipeline::Failed => Stage::Failed,
        }
    }

    /// What the driver is to do at this stage.
    pub fn task(&self) -> (action: Action)
        ensures
            is_task(*self, action),
    {
        match self {
            Pipeline::CheckSource { .. } => Action::CheckSource,
            Pipeline::LoadStats { .. } => Action::LoadStats,
            Pipeline::LoadReference { .. } => Action::LoadReference,
            Pipeline::PublishFile { selection, .. } => Action::Publish {
                text: render_blocklist(selection),
            },
            Pipeline::PersistState { state, .. } => Action::Persist { state: *state },
            Pipeline::TriggerReload => Action::Reload,
            Pipeline::Done => Action::Finish,
            Pipeline::Failed => Action::Abort,
        }
    }

    /// The run after `event`.
    pub fn advance(self, event: Event) -> (next: Pipeline)
        ensures
            advanced(self, event, next),
    {
        match (self, event) {
            (Pipeline::CheckSource { auto_reload }, Event::SourceChecked { present }) => {
                if present {
                    Pipeline::LoadStats { auto_reload }
                } else {
                    Pipeline::Failed
                }
            },
            (Pipeline::LoadStats { auto_reload }, Event::StatsLoaded { rows }) => {
                Pipeline::LoadReference { auto_reload, stats: load_domain_stats(rows) }
            },
            (Pipeline::LoadReference { auto_reload, stats }, Event::ReferenceLoaded { texts }) => {
                let reference = ReferenceSet::from_texts(&texts);
                let reference_was_empty = reference.is_empty();
                let selection = intersect(stats, reference);
                Pipeline::PublishFile { auto_reload, selection, reference_was_empty }
            },
            (
                Pipeline::PublishFile { auto_reload, selection, reference_was_empty },
                Event::Published { at },
            ) => {
                let state = RunState::from_selection(&selection, reference_was_empty, at);
                Pipeline::PersistState { auto_reload, state }
            },
            (Pipeline::PersistState { auto_reload, .. }, Event::StatePersisted) => {
                if auto_reload {
                    Pipeline::TriggerReload
                } else {
                    Pipeline::Done
                }
            },
            (Pipeline::TriggerReload, Event::ReloadTried { .. }) => Pipeline::Done,
            (run, _) => run,
        }
    }
}

/// How far a stage is along the way of a run.
pub open spec fn rank(stage: Stage) -> nat {
    match stage {
        Stage::CheckSource => 0,
        Stage::LoadStats => 1,
        Stage::LoadReference => 2,
        Stage::PublishFile => 3,
        Stage::PersistState => 4,
        Stage::TriggerReload => 5,
        Stage::Done => 6,
        Stage::Failed => 6,
    }
}

/// A run never goes back: an event leaves it at its stage or moves it to a
/// later one, and a run that is done or has failed stays so.
pub proof fn lemma_one_way(old: Pipeline, event: Event, next: Pipeline)
    requires
        advanced(old, event, next),
    ensures
        rank(old.stage_of()) <= rank(next.stage_of()),
        old is Done ==> next is Done,
        old is Failed ==> next is Failed,
{
}

/// A run fails at one place only: where it finds the query history missing.
pub proof fn lemma_fails_at_source_only(old: Pipeline, event: Event, next: Pipeline)
    requires
        advanced(old, event, next),
        next is Failed,
    ensures
        old is Failed || (old is CheckSource && event == (Event::SourceChecked { present: false })),
{
}

/// Each stage is entered from the stage before it, on the event that
/// answers that stage's task: the blocklist is published before the run
/// state is written, and the resolver is told to reload only after that, and
/// only where the options ask for it.
pub proof fn lemma_entered_in_order(old: Pipeline, event: Event, next: Pipeline)
    requires
        advanced(old, event, next),
        old.stage_of() != next.stage_of(),
    ensures
        next is LoadStats ==> old is CheckSource && event == (Event::SourceChecked {
            present: true,
        }),
        next is LoadReference ==> old is LoadStats && event is StatsLoaded,
        next is PublishFile ==> old is LoadReference && event is ReferenceLoaded,
        next is PersistState ==> old is PublishFile && event is Published,
        next is TriggerReload ==> event is StatePersisted && (old matches Pipeline::PersistState {
            auto_reload,
            ..
        } && auto_reload),
        next is Done ==> (old is TriggerReload && event is ReloadTried) || (event is StatePersisted
            && (old matches Pipeline::PersistState { auto_reload, .. } && !auto_reload)),
        !(next is CheckSource),
{
}

/// Whether `states` are the stages that a run goes through on `events`, one
/// after the other.
pub open spec fn is_run(states: Seq<Pipeline>, events: Seq<Event>) -> bool {
    &&& states.len() == events.len() + 1
    &&& forall|i: int|
        0 <= i < events.len() ==> advanced(states[i], #[trigger] events[i], states[i + 1])
}

/// Once the query history is found missing the run has failed for good:
/// whatever is reported to it afterwards, its task is to abort, and so it
/// never asks for a blocklist to be published.
pub proof fn lemma_missing_source(states: Seq<Pipeline>, events: Seq<Event>, i: int)
    requires
        is_run(states, events),
        states[0] is CheckSource,
        events.len() > 0,
        events[0] == (Event::SourceChecked { present: false }),
        1 <= i < states.len(),
    ensures
        states[i] is Failed,
        forall|action: Action| is_task(states[i], action) ==> action is Abort,
    decreases i,
{
    if i > 1 {
        lemma_missing_source(states, events, i - 1);
    }
    assert(advanced(states[i - 1], events[i - 1], states[i]));
}

/// Where the reference lists name no domain, nothing is selected, the
/// blocklist that is published is empty, and the run state that is written
/// says that the reference set was empty and that no domain is blocked.
pub proof fn lemma_empty_reference(
    old: Pipeline,
    texts: Vec<String>,
    publish: Pipeline,
    text: String,
    at: u64,
    persist: Pipeline,
)
    requires
        old is LoadReference,
        domains_of_texts(strings_view(texts@)) == Set::<Seq<char>>::empty(),
        advanced(old, Event::ReferenceLoaded { texts }, publish),
        is_task(publish, Action::Publish { text }),
        advanced(publish, Event::Published { at }, persist),
    ensures
        publish matches Pipeline::PublishFile { selection, reference_was_empty, .. }
            && selection@.len() == 0 && reference_was_empty,
        text@.len() == 0,
        persist matches Pipeline::PersistState { state, .. } && state.domains_blocked == 0
            && state.reference_was_empty && state.last_run == at,
{
    match old {
        Pipeline::LoadReference { stats, .. } => {
            lemma_selected_empty_reference(stats_view(stats@));
        },
        _ => {},
    }
    match publish {
        Pipeline::PublishFile { selection, .. } => {
            assert(strings_view(selection@).len() == 0);
        },
        _ => {},
    }
}

} // verus!
