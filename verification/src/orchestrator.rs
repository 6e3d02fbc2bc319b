//! The download orchestrator: a sequential state machine that drives one run.
//!
//! The machine owns every decision of a run — which request to issue next,
//! which keys are selected, what is written where, when the run stops — while
//! the surrounding binary only performs the commands it is handed and reports
//! each outcome back as an event. A run lists the keys, creates the output
//! directory, and then fetches and writes the selected keys one by one, in
//! listing order, stopping at the first failure.

use vstd::prelude::*;
use crate::endpoints::value_file;
use crate::endpoints::value_file_of;
use crate::listing::entries_view;
use crate::listing::listing_entries;
use crate::listing::names_of;
use crate::listing::parse_key_listing;
use crate::listing::KeyEntry;
use crate::matching::contains_substring;
use crate::matching::is_substring;
use crate::matching::lemma_empty_pattern_matches;

verus! {

/// The error kinds a run can end with. A missing configuration value is not
/// among them: it stops the process before a run ever starts.
pub enum RunError {
    /// The network call itself failed.
    Transport,
    /// The listing body was not of the expected shape.
    Decode,
    /// The output directory or a file could not be written.
    Filesystem,
}

/// What the world reports back to the orchestrator after performing a
/// command.
pub enum Event {
    /// The listing request succeeded; the raw response body is attached.
    ListingFetched(String),
    /// The listing request failed on the network.
    ListingFailed,
    /// The output directory exists now — freshly created, or already there.
    DirReady,
    /// The output directory could not be created.
    DirFailed,
    /// A value request returned a body. Any body counts, whatever the
    /// remote status was: an error page is persisted like a value.
    ValueFetched(String),
    /// A value request failed on the network.
    ValueFailed,
    /// The file write succeeded.
    WriteDone,
    /// The file write failed.
    WriteFailed,
    /// The per-key success line has been shown to the operator.
    Reported,
}

/// What the orchestrator asks the world to do next.
pub enum Command {
    /// Issue the key-listing request.
    FetchListing,
    /// Make sure the output directory exists; an already existing directory
    /// is success.
    EnsureDir,
    /// Fetch the value of this key.
    FetchValue(String),
    /// Write this content to this path, overwriting any existing file.
    WriteFile(String, String),
    /// Tell the operator this key was saved.
    Report(String),
    /// The run is complete.
    Finish,
    /// The run is aborted; nothing further happens.
    Fail(RunError),
}

/// Where a run stands: which command is outstanding, or how it ended.
pub enum Phase {
    Start,
    AwaitListing,
    AwaitDir,
    AwaitValue,
    AwaitWrite,
    AwaitReport,
    Done,
    Failed(RunError),
}

/// The mathematical model of an [`Event`].
pub enum EventModel {
    ListingFetched(Seq<char>),
    ListingFailed,
    DirReady,
    DirFailed,
    ValueFetched(Seq<char>),
    ValueFailed,
    WriteDone,
    WriteFailed,
    Reported,
}

/// The mathematical model of a [`Command`].
pub enum CommandModel {
    FetchListing,
    EnsureDir,
    FetchValue(Seq<char>),
    WriteFile(Seq<char>, Seq<char>),
    Report(Seq<char>),
    Finish,
    Fail(RunError),
}

impl View for Event {
    type V = EventModel;

    open spec fn view(&self) -> EventModel {
        match self {
            Event::ListingFetched(b) => EventModel::ListingFetched(b@),
            Event::ListingFailed => EventModel::ListingFailed,
            Event::DirReady => EventModel::DirReady,
            Event::DirFailed => EventModel::DirFailed,
            Event::ValueFetched(b) => EventModel::ValueFetched(b@),
            Event::ValueFailed => EventModel::ValueFailed,
            Event::WriteDone => EventModel::WriteDone,
            Event::WriteFailed => EventModel::WriteFailed,
            Event::Reported => EventModel::Reported,
        }
    }
}

impl View for Command {
    type V = CommandModel;

    open spec fn view(&self) -> CommandModel {
        match self {
            Command::FetchListing => CommandModel::FetchListing,
            Command::EnsureDir => CommandModel::EnsureDir,
            Command::FetchValue(k) => CommandModel::FetchValue(k@),
            Command::WriteFile(p, c) => CommandModel::WriteFile(p@, c@),
            Command::Report(k) => CommandModel::Report(k@),
            Command::Finish => CommandModel::Finish,
            Command::Fail(e) => CommandModel::Fail(*e),
        }
    }
}

/// The models of a sequence of owned strings.
pub open spec fn strings_view(v: Seq<String>) -> Seq<Seq<char>> {
    v.map_values(|x: String| x@)
}

/// The names selected by a filter, in listing order: exactly those that
/// contain the filter as a literal, case-sensitive substring.
pub open spec fn selected_names(names: Seq<Seq<char>>, filter: Seq<char>) -> Seq<Seq<char>>
    decreases names.len(),
{
    if names.len() == 0 {
        Seq::empty()
    } else {
        let rest = selected_names(names.drop_last(), filter);
        if is_substring(filter, names.last()) {
            rest.push(names.last())
        } else {
            rest
        }
    }
}

/// The set of selected names is exactly the set of listed names that contain
/// the filter: no key is fetched that the filter does not match, and every
/// matching key is fetched.
pub proof fn lemma_selected_characterization(names: Seq<Seq<char>>, filter: Seq<char>)
    ensures
        forall|n: Seq<char>| #[trigger] selected_names(names, filter).contains(n) <==> (
        names.contains(n) && is_substring(filter, n)),
    decreases names.len(),
{
    if names.len() == 0 {
    } else {
        lemma_selected_characterization(names.drop_last(), filter);
        let rest = selected_names(names.drop_last(), filter);
        let sel = selected_names(names, filter);
        let l = names.last();
        assert forall|n: Seq<char>| #[trigger] sel.contains(n) implies names.contains(n)
            && is_substring(filter, n) by {
            let i = choose|i: int| 0 <= i < sel.len() && sel[i] == n;
            if is_substring(filter, l) && i == sel.len() - 1 {
                assert(names[names.len() - 1] == n);
            } else {
                assert(rest[i] == n);
                assert(rest.contains(n));
                let j = choose|j: int| 0 <= j < names.drop_last().len() && names.drop_last()[j]
                    == n;
                assert(names[j] == n);
            }
        }
        assert forall|n: Seq<char>|
            names.contains(n) && is_substring(filter, n) implies #[trigger] sel.contains(n) by {
            let i = choose|i: int| 0 <= i < names.len() && names[i] == n;
            if i == names.len() - 1 {
                assert(sel[sel.len() - 1] == n);
            } else {
                assert(names.drop_last()[i] == n);
                assert(names.drop_last().contains(n));
                assert(rest.contains(n));
                let j = choose|j: int| 0 <= j < rest.len() && rest[j] == n;
                if is_substring(filter, l) {
                    assert(sel[j] == n);
                } else {
                    assert(sel.contains(n));
                }
            }
        }
    }
}

/// The empty filter selects every listed key, in order.
pub proof fn lemma_empty_filter_selects_all(names: Seq<Seq<char>>)
    ensures
        selected_names(names, Seq::empty()) == names,
    decreases names.len(),
{
    if names.len() == 0 {
        assert(selected_names(names, Seq::empty()) =~= names);
    } else {
        lemma_empty_filter_selects_all(names.drop_last());
        lemma_empty_pattern_matches(names.last());
        assert(selected_names(names, Seq::empty()) =~= names);
    }
}

/// Selects the entries whose name contains the filter, in listing order.
pub fn select_keys(entries: &Vec<KeyEntry>, filter: &str) -> (r: Vec<String>)
    ensures
        strings_view(r@) == selected_names(names_of(entries_view(entries@)), filter@),
{
    let ghost all = names_of(entries_view(entries@));
    let mut out: Vec<String> = Vec::new();
    let mut idx: usize = 0;
    proof {
        assert(strings_view(out@) =~= selected_names(all.take(0), filter@));
    }
    while idx < entries.len()
        invariant
            idx <= entries@.len(),
            all == names_of(entries_view(entries@)),
            strings_view(out@) == selected_names(all.take(idx as int), filter@),
        decreases entries@.len() - idx,
    {
        proof {
            assert(all.take(idx + 1).drop_last() =~= all.take(idx as int));
            assert(all.take(idx + 1).last() == all[idx as int]);
            assert(all[idx as int] == entries@[idx as int]@.name);
        }
        let e = &entries[idx];
        if contains_substring(e.name.as_str(), filter) {
            let ghost old_out = out@;
            out.push(e.name.clone());
            proof {
                assert(strings_view(old_out.push(e.name)) =~= strings_view(old_out).push(
                    e.name@,
                ));
            }
        }
        idx += 1;
    }
    proof {
        assert(all.take(entries@.len() as int) =~= all);
    }
    out
}

/// The mathematical model of a [`Run`].
pub struct RunModel {
    pub filter: Seq<char>,
    pub pending: Seq<Seq<char>>,
    pub done: int,
    pub phase: Phase,
}

/// A run's bookkeeping is consistent: `done` counts fully processed keys,
/// and while a key is in flight it still lies within `pending`.
pub open spec fn wf(m: RunModel) -> bool {
    &&& 0 <= m.done <= m.pending.len()
    &&& ((m.phase is AwaitValue || m.phase is AwaitWrite || m.phase is AwaitReport) ==> m.done
        < m.pending.len())
    &&& (m.phase is AwaitDir ==> m.done == 0)
}

/// The event `e` answers the command the run is waiting on.
pub open spec fn awaits(m: RunModel, e: EventModel) -> bool {
    match e {
        EventModel::ListingFetched(_) => m.phase is AwaitListing,
        EventModel::ListingFailed => m.phase is AwaitListing,
        EventModel::DirReady => m.phase is AwaitDir,
        EventModel::DirFailed => m.phase is AwaitDir,
        EventModel::ValueFetched(_) => m.phase is AwaitValue,
        EventModel::ValueFailed => m.phase is AwaitValue,
        EventModel::WriteDone => m.phase is AwaitWrite,
        EventModel::WriteFailed => m.phase is AwaitWrite,
        EventModel::Reported => m.phase is AwaitReport,
    }
}

/// A run aborts: the phase records the error and the world is told to stop.
pub open spec fn fail_model(m: RunModel, err: RunError) -> (RunModel, CommandModel) {
    (
        RunModel { filter: m.filter, pending: m.pending, done: m.done, phase: Phase::Failed(err) },
        CommandModel::Fail(err),
    )
}

/// One decision of the orchestrator: from the current state and the event
/// that answers the outstanding command, the next state and the next
/// command. This is the whole control flow of a run: list, select, make the
/// directory, then fetch–write–report each selected key in order; the first
/// failure of any step aborts the run. An event that answers nothing (a
/// finished or failed run receives no more answers) changes nothing.
pub open spec fn step_model(m: RunModel, e: EventModel) -> (RunModel, CommandModel) {
    match (m.phase, e) {
        (Phase::AwaitListing, EventModel::ListingFetched(body)) => {
            match listing_entries(body) {
                Option::None => fail_model(m, RunError::Decode),
                Option::Some(es) => (
                    RunModel {
                        filter: m.filter,
                        pending: selected_names(names_of(es), m.filter),
                        done: 0,
                        phase: Phase::AwaitDir,
                    },
                    CommandModel::EnsureDir,
                ),
            }
        },
        (Phase::AwaitListing, EventModel::ListingFailed) => fail_model(m, RunError::Transport),
        (Phase::AwaitDir, EventModel::DirReady) => {
            if m.pending.len() == 0 {
                (
                    RunModel { filter: m.filter, pending: m.pending, done: 0, phase: Phase::Done },
                    CommandModel::Finish,
                )
            } else {
                (
                    RunModel {
                        filter: m.filter,
                        pending: m.pending,
                        done: 0,
                        phase: Phase::AwaitValue,
                    },
                    CommandModel::FetchValue(m.pending[0]),
                )
            }
        },
        (Phase::AwaitDir, EventModel::DirFailed) => fail_model(m, RunError::Filesystem),
        (Phase::AwaitValue, EventModel::ValueFetched(body)) => (
            RunModel {
                filter: m.filter,
                pending: m.pending,
                done: m.done,
                phase: Phase::AwaitWrite,
            },
            CommandModel::WriteFile(value_file_of(m.pending[m.done]), body),
        ),
        (Phase::AwaitValue, EventModel::ValueFailed) => fail_model(m, RunError::Transport),
        (Phase::AwaitWrite, EventModel::WriteDone) => (
            RunModel {
                filter: m.filter,
                pending: m.pending,
                done: m.done,
                phase: Phase::AwaitReport,
            },
            CommandModel::Report(m.pending[m.done]),
        ),
        (Phase::AwaitWrite, EventModel::WriteFailed) => fail_model(m, RunError::Filesystem),
        (Phase::AwaitReport, EventModel::Reported) => {
            if m.done + 1 < m.pending.len() {
                (
                    RunModel {
                        filter: m.filter,
                        pending: m.pending,
                        done: m.done + 1,
                        phase: Phase::AwaitValue,
                    },
                    CommandModel::FetchValue(m.pending[m.done + 1]),
                )
            } else {
                (
                    RunModel {
                        filter: m.filter,
                        pending: m.pending,
                        done: m.done + 1,
                        phase: Phase::Done,
                    },
                    CommandModel::Finish,
                )
            }
        },
        _ => (m, CommandModel::Finish),
    }
}

/// One download run. The machine is driven by [`Run::begin`] and then
/// [`Run::on_event`], one event per outstanding command.
pub struct Run {
    filter: String,
    pending: Vec<String>,
    done: usize,
    phase: Phase,
}

impl View for Run {
    type V = RunModel;

    closed spec fn view(&self) -> RunModel {
        RunModel {
            filter: self.filter@,
            pending: strings_view(self.pending@),
            done: self.done as int,
            phase: self.phase,
        }
    }
}

impl Run {
    /// A fresh run for one filter. Nothing has happened yet.
    pub fn new(filter: String) -> (r: Run)
        ensures
            r@.filter == filter@,
            r@.pending == Seq::<Seq<char>>::empty(),
            r@.done == 0,
            r@.phase == Phase::Start,
            wf(r@),
    {
        let r = Run { filter, pending: Vec::new(), done: 0, phase: Phase::Start };
        proof {
            assert(strings_view(r.pending@) =~= Seq::<Seq<char>>::empty());
        }
        r
    }

    /// Starts the run: the first command is always the listing request — no
    /// directory is touched and no value is fetched before the listing
    /// arrives.
    pub fn begin(&mut self) -> (c: Command)
        requires
            old(self)@.phase is Start,
        ensures
            final(self)@.filter == old(self)@.filter,
            final(self)@.pending == old(self)@.pending,
            final(self)@.done == old(self)@.done,
            final(self)@.phase == Phase::AwaitListing,
            c@ == CommandModel::FetchListing,
            wf(old(self)@) ==> wf(final(self)@),
    {
        self.phase = Phase::AwaitListing;
        Command::FetchListing
    }

    /// Feeds the outcome of the last command back in and returns the next
    /// command, exactly as [`step_model`] decides it.
    pub fn on_event(&mut self, e: Event) -> (c: Command)
        requires
            wf(old(self)@),
            awaits(old(self)@, e@),
        ensures
            (final(self)@, c@) == step_model(old(self)@, e@),
            wf(final(self)@),
    {
        match e {
            Event::ListingFetched(body) => {
                match parse_key_listing(body.as_str()) {
                    Option::None => {
                        self.phase = Phase::Failed(RunError::Decode);
                        Command::Fail(RunError::Decode)
                    },
                    Option::Some(entries) => {
                        let selected = select_keys(&entries, self.filter.as_str());
                        self.pending = selected;
                        self.done = 0;
                        self.phase = Phase::AwaitDir;
                        Command::EnsureDir
                    },
                }
            },
            Event::ListingFailed => {
                self.phase = Phase::Failed(RunError::Transport);
                Command::Fail(RunError::Transport)
            },
            Event::DirReady => {
                if self.pending.len() == 0 {
                    self.phase = Phase::Done;
                    Command::Finish
                } else {
                    self.phase = Phase::AwaitValue;
                    Command::FetchValue(self.pending[0].clone())
                }
            },
            Event::DirFailed => {
                self.phase = Phase::Failed(RunError::Filesystem);
                Command::Fail(RunError::Filesystem)
            },
            Event::ValueFetched(body) => {
                self.phase = Phase::AwaitWrite;
                let path = value_file(self.pending[self.done].as_str());
                Command::WriteFile(path, body)
            },
            Event::ValueFailed => {
                self.phase = Phase::Failed(RunError::Transport);
                Command::Fail(RunError::Transport)
            },
            Event::WriteDone => {
                self.phase = Phase::AwaitReport;
                Command::Report(self.pending[self.done].clone())
            },
            Event::WriteFailed => {
                self.phase = Phase::Failed(RunError::Filesystem);
                Command::Fail(RunError::Filesystem)
            },
            Event::Reported => {
                let total = self.pending.len();
                proof {
                    assert(strings_view(self.pending@).len() == self.pending@.len());
                }
                self.done = self.done + 1;
                if self.done < total {
                    self.phase = Phase::AwaitValue;
                    Command::FetchValue(self.pending[self.done].clone())
                } else {
                    self.phase = Phase::Done;
                    Command::Finish
                }
            },
        }
    }
}

/// The commands a run issues from state `m` when the world answers with
/// `events`, in order.
pub open spec fn run_commands(m: RunModel, events: Seq<EventModel>) -> Seq<CommandModel>
    decreases events.len(),
{
    if events.len() == 0 {
        Seq::empty()
    } else {
        let next = step_model(m, events[0]);
        seq![next.1] + run_commands(next.0, events.drop_first())
    }
}

/// No command in `cs` writes a file or touches the output directory.
pub open spec fn performs_no_output(cs: Seq<CommandModel>) -> bool {
    forall|i: int|
        0 <= i < cs.len() ==> !((#[trigger] cs[i]) is WriteFile) && !(cs[i] is EnsureDir)
}

/// A failed run stays failed and never produces output, whatever events
/// still arrive.
pub proof fn lemma_failed_writes_nothing(m: RunModel, events: Seq<EventModel>)
    requires
        m.phase is Failed,
    ensures
        performs_no_output(run_commands(m, events)),
    decreases events.len(),
{
    if events.len() > 0 {
        let next = step_model(m, events[0]);
        assert(next.0 == m && next.1 == CommandModel::Finish);
        lemma_failed_writes_nothing(next.0, events.drop_first());
        let cs = run_commands(m, events);
        let rest = run_commands(next.0, events.drop_first());
        assert forall|i: int|
            0 <= i < cs.len() implies !((#[trigger] cs[i]) is WriteFile) && !(cs[i] is EnsureDir) by {
            if i > 0 {
                assert(cs[i] == rest[i - 1]);
            }
        }
    }
}

/// If the listing call fails — on the network, or because the body does not
/// decode — the run writes zero files and never even creates the output
/// directory.
pub proof fn lemma_listing_failure_writes_nothing(m: RunModel, events: Seq<EventModel>)
    requires
        m.phase is AwaitListing,
        events.len() > 0,
        events[0] is ListingFailed || (events[0] is ListingFetched && listing_entries(
            events[0]->ListingFetched_0,
        ) is None),
    ensures
        performs_no_output(run_commands(m, events)),
{
    let next = step_model(m, events[0]);
    assert(next.0.phase is Failed && next.1 is Fail);
    lemma_failed_writes_nothing(next.0, events.drop_first());
    let cs = run_commands(m, events);
    let rest = run_commands(next.0, events.drop_first());
    assert forall|i: int|
        0 <= i < cs.len() implies !((#[trigger] cs[i]) is WriteFile) && !(cs[i] is EnsureDir) by {
        if i > 0 {
            assert(cs[i] == rest[i - 1]);
        }
    }
}

/// The events of a run in which every remaining step succeeds: one triple —
/// value fetched, file written, key reported — per remaining key.
pub open spec fn success_events(values: Seq<Seq<char>>) -> Seq<EventModel>
    decreases values.len(),
{
    if values.len() == 0 {
        Seq::empty()
    } else {
        seq![
            EventModel::ValueFetched(values[0]),
            EventModel::WriteDone,
            EventModel::Reported,
        ] + success_events(values.drop_first())
    }
}

/// The commands a run issues while working off the keys `keys[d..]` against
/// the fetched values `values`, when every step succeeds: write the value of
/// each key to that key's file, report it, and move to the next key — or
/// finish after the last one.
pub open spec fn cycle_commands(keys: Seq<Seq<char>>, d: int, values: Seq<Seq<char>>) -> Seq<
    CommandModel,
>
    decreases values.len(),
{
    if values.len() == 0 {
        Seq::empty()
    } else {
        seq![
            CommandModel::WriteFile(value_file_of(keys[d]), values[0]),
            CommandModel::Report(keys[d]),
        ] + (if d + 1 < keys.len() {
            seq![CommandModel::FetchValue(keys[d + 1])]
        } else {
            seq![CommandModel::Finish]
        }) + cycle_commands(keys, d + 1, values.drop_first())
    }
}

proof fn lemma_cycle(m: RunModel, values: Seq<Seq<char>>)
    requires
        m.phase is AwaitValue,
        wf(m),
        values.len() == m.pending.len() - m.done,
    ensures
        run_commands(m, success_events(values)) == cycle_commands(m.pending, m.done, values),
    decreases values.len(),
{
    let evs = success_events(values);
    if values.len() == 0 {
        assert(run_commands(m, evs) =~= cycle_commands(m.pending, m.done, values));
    } else {
        let s1 = step_model(m, EventModel::ValueFetched(values[0]));
        let s2 = step_model(s1.0, EventModel::WriteDone);
        let s3 = step_model(s2.0, EventModel::Reported);
        let rest = success_events(values.drop_first());
        let evs2 = seq![EventModel::WriteDone, EventModel::Reported] + rest;
        let evs3 = seq![EventModel::Reported] + rest;
        assert(evs[0] == EventModel::ValueFetched(values[0]));
        assert(evs.drop_first() =~= evs2);
        assert(evs2[0] == EventModel::WriteDone);
        assert(evs2.drop_first() =~= evs3);
        assert(evs3[0] == EventModel::Reported);
        assert(evs3.drop_first() =~= rest);
        assert(run_commands(m, evs) == seq![s1.1] + run_commands(s1.0, evs2));
        assert(run_commands(s1.0, evs2) == seq![s2.1] + run_commands(s2.0, evs3));
        assert(run_commands(s2.0, evs3) == seq![s3.1] + run_commands(s3.0, rest));
        if values.len() == 1 {
            assert(s3.0.phase is Done);
            assert(run_commands(s3.0, rest) =~= Seq::<CommandModel>::empty());
            assert(cycle_commands(m.pending, m.done + 1, values.drop_first())
                =~= Seq::<CommandModel>::empty());
        } else {
            lemma_cycle(s3.0, values.drop_first());
        }
        let head = seq![
            CommandModel::WriteFile(value_file_of(m.pending[m.done]), values[0]),
            CommandModel::Report(m.pending[m.done]),
        ];
        let mid = if m.done + 1 < m.pending.len() {
            seq![CommandModel::FetchValue(m.pending[m.done + 1])]
        } else {
            seq![CommandModel::Finish]
        };
        let tail = cycle_commands(m.pending, m.done + 1, values.drop_first());
        assert(cycle_commands(m.pending, m.done, values) == head + mid + tail);
        assert(s1.1 == head[0] && s2.1 == head[1] && s3.1 == mid[0]);
        assert(run_commands(s3.0, rest) == tail);
        assert(run_commands(m, evs) =~= head + mid + tail);
    }
}

/// A run in which every call succeeds fetches, writes and reports exactly
/// the keys the filter selects from the listing, in listing order, and
/// nothing else: with the listing body `body` and one fetched value per
/// selected key, the whole command trace is pinned — the directory is made
/// once, each selected key's value is written to that key's file and
/// reported, and the run finishes.
pub proof fn lemma_successful_run(filter: Seq<char>, body: Seq<char>, values: Seq<Seq<char>>)
    requires
        listing_entries(body) is Some,
        values.len() == selected_names(names_of(listing_entries(body)->0), filter).len(),
    ensures
        ({
            let selected = selected_names(names_of(listing_entries(body)->0), filter);
            let start = RunModel {
                filter: filter,
                pending: Seq::empty(),
                done: 0,
                phase: Phase::AwaitListing,
            };
            run_commands(
                start,
                seq![EventModel::ListingFetched(body), EventModel::DirReady] + success_events(
                    values,
                ),
            ) == seq![CommandModel::EnsureDir] + (if selected.len() > 0 {
                seq![CommandModel::FetchValue(selected[0])]
            } else {
                seq![CommandModel::Finish]
            }) + cycle_commands(selected, 0, values)
        }),
{
    let selected = selected_names(names_of(listing_entries(body)->0), filter);
    let start = RunModel {
        filter: filter,
        pending: Seq::empty(),
        done: 0,
        phase: Phase::AwaitListing,
    };
    let evs = seq![EventModel::ListingFetched(body), EventModel::DirReady] + success_events(
        values,
    );
    let s1 = step_model(start, EventModel::ListingFetched(body));
    let s2 = step_model(s1.0, EventModel::DirReady);
    let evs2 = seq![EventModel::DirReady] + success_events(values);
    assert(evs[0] == EventModel::ListingFetched(body));
    assert(evs.drop_first() =~= evs2);
    assert(evs2[0] == EventModel::DirReady);
    assert(evs2.drop_first() =~= success_events(values));
    assert(s1.0.pending == selected);
    assert(run_commands(start, evs) == seq![s1.1] + run_commands(s1.0, evs2));
    assert(run_commands(s1.0, evs2) == seq![s2.1] + run_commands(s2.0, success_events(values)));
    if selected.len() == 0 {
        assert(s2.0.phase is Done);
        assert(run_commands(s2.0, success_events(values)) =~= Seq::<CommandModel>::empty());
    } else {
        lemma_cycle(s2.0, values);
    }
    assert(run_commands(start, evs) =~= seq![CommandModel::EnsureDir] + (if selected.len() > 0 {
        seq![CommandModel::FetchValue(selected[0])]
    } else {
        seq![CommandModel::Finish]
    }) + cycle_commands(selected, 0, values));
}

/// The files on disk after the commands in `cs` have been performed against
/// the files `files`: each write overwrites whatever the path held.
pub open spec fn apply_commands(
    files: Map<Seq<char>, Seq<char>>,
    cs: Seq<CommandModel>,
) -> Map<Seq<char>, Seq<char>>
    decreases cs.len(),
{
    if cs.len() == 0 {
        files
    } else {
        match cs[0] {
            CommandModel::WriteFile(p, c) => apply_commands(files.insert(p, c), cs.drop_first()),
            _ => apply_commands(files, cs.drop_first()),
        }
    }
}

/// The content the last write to `p` in `cs` carries, if any write touches
/// `p` at all.
pub open spec fn last_write(cs: Seq<CommandModel>, p: Seq<char>) -> Option<Seq<char>>
    decreases cs.len(),
{
    if cs.len() == 0 {
        Option::None
    } else {
        match last_write(cs.drop_first(), p) {
            Option::Some(v) => Option::Some(v),
            Option::None => match cs[0] {
                CommandModel::WriteFile(q, c) => {
                    if q == p {
                        Option::Some(c)
                    } else {
                        Option::None
                    }
                },
                _ => Option::None,
            },
        }
    }
}

/// What one path holds after a command sequence runs: the last write to it,
/// or what it held before if nothing wrote it.
pub proof fn lemma_apply_at(files: Map<Seq<char>, Seq<char>>, cs: Seq<CommandModel>, p: Seq<char>)
    ensures
        match last_write(cs, p) {
            Option::Some(v) => apply_commands(files, cs).contains_key(p) && apply_commands(
                files,
                cs,
            )[p] == v,
            Option::None => apply_commands(files, cs).contains_key(p) == files.contains_key(p)
                && (files.contains_key(p) ==> apply_commands(files, cs)[p] == files[p]),
        },
    decreases cs.len(),
{
    if cs.len() > 0 {
        match cs[0] {
            CommandModel::WriteFile(q, c) => {
                lemma_apply_at(files.insert(q, c), cs.drop_first(), p);
            },
            _ => {
                lemma_apply_at(files, cs.drop_first(), p);
            },
        }
    }
}

/// Running the same commands twice leaves exactly the files one run leaves:
/// a second identical run only overwrites each output file with identical
/// content, and leaves no duplicate or stray file.
pub proof fn lemma_replay_idempotent(files: Map<Seq<char>, Seq<char>>, cs: Seq<CommandModel>)
    ensures
        apply_commands(apply_commands(files, cs), cs) == apply_commands(files, cs),
{
    let once = apply_commands(files, cs);
    let twice = apply_commands(once, cs);
    assert forall|p: Seq<char>| #[trigger]
        twice.contains_key(p) == once.contains_key(p) && (once.contains_key(p) ==> twice[p]
            == once[p]) by {
        lemma_apply_at(files, cs, p);
        lemma_apply_at(once, cs, p);
    }
    assert(twice =~= once);
}

} // verus!
