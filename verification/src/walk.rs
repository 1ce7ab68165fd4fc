//! The walk over a directory tree, as a state machine.
//!
//! The walk itself touches no file system. It says what it needs next (the
//! listing of a directory, the contents of a file) and is told the answer;
//! whoever drives it does the reading. Pending directories wait on a stack,
//! so the most recently found is walked first, and the depth of the tree is
//! bound by memory only.

use crate::cloc::ClocVerbosity;
use crate::error::ClocError;
use crate::names::{
    holds_git, is_excluded, is_excluded_name, is_git_path, is_manifest, is_source_file,
    is_source_name, manifest_name,
};
use crate::patterns::PatternSet;
use crate::stats::{lemma_one_file_more, views_of, ClocStats, StatsModel};
use crate::text::lines_of;
use vstd::prelude::*;

verus! {

/// One entry of a directory listing.
#[derive(Debug, PartialEq, Eq)]
pub struct Entry {
    /// The name of the entry within its directory.
    pub name: String,
    /// The path of the entry: the label it is known by.
    pub path: String,
    /// The entry is a directory.
    pub is_dir: bool,
}

/// The mathematical content of an entry.
pub struct EntryModel {
    pub name: Seq<char>,
    pub path: Seq<char>,
    pub is_dir: bool,
}

impl View for Entry {
    type V = EntryModel;

    open spec fn view(&self) -> EntryModel {
        EntryModel { name: self.name@, path: self.path@, is_dir: self.is_dir }
    }
}

impl Clone for Entry {
    fn clone(&self) -> (copy: Entry)
        ensures
            copy@ == self@,
    {
        Entry { name: self.name.clone(), path: self.path.clone(), is_dir: self.is_dir }
    }
}

/// The contents of each of `entries`.
pub open spec fn entries_of(entries: Seq<Entry>) -> Seq<EntryModel> {
    Seq::new(entries.len(), |i: int| entries[i]@)
}

/// What the walk is told in answer to its last request.
#[derive(Debug, PartialEq, Eq)]
pub enum WalkEvent {
    /// The directory was listed: its entries, in the order of the listing.
    Listed(Vec<Entry>),
    /// The file was read: its contents.
    Read(String),
    /// The directory could not be listed, or the file could not be read.
    Failed,
}

/// The mathematical content of an event.
pub enum EventModel {
    Listed(Seq<EntryModel>),
    Read(Seq<char>),
    Failed,
}

impl View for WalkEvent {
    type V = EventModel;

    open spec fn view(&self) -> EventModel {
        match *self {
            WalkEvent::Listed(entries) => EventModel::Listed(entries_of(entries@)),
            WalkEvent::Read(contents) => EventModel::Read(contents@),
            WalkEvent::Failed => EventModel::Failed,
        }
    }
}

/// What the walk needs next.
#[derive(Debug, PartialEq, Eq)]
pub enum WalkAction {
    /// List the directory at this path, and answer with `Listed`.
    ListDir(String),
    /// Read the file at this path, and answer with `Read`.
    ReadFile(String),
    /// Nothing: every directory has been walked, and the records are ready.
    Done,
    /// Nothing: the walk was given up.
    Abort(ClocError),
}

/// The mathematical content of an action.
pub enum ActionModel {
    ListDir(Seq<char>),
    ReadFile(Seq<char>),
    Done,
    Abort(ClocError),
}

impl View for WalkAction {
    type V = ActionModel;

    open spec fn view(&self) -> ActionModel {
        match *self {
            WalkAction::ListDir(path) => ActionModel::ListDir(path@),
            WalkAction::ReadFile(path) => ActionModel::ReadFile(path@),
            WalkAction::Done => ActionModel::Done,
            WalkAction::Abort(error) => ActionModel::Abort(error),
        }
    }
}

/// Where a walk stands.
#[derive(Clone, Copy, Debug, PartialEq, Eq, Structural)]
pub enum WalkPhase {
    /// Waiting for the listing of a directory.
    Listing,
    /// Waiting for the contents of a file.
    Reading,
    /// Finished: the records are complete.
    Done,
    /// Given up after a failure.
    Failed,
}

/// Which directories a walk leaves out.
#[derive(Clone, Copy, Debug, PartialEq, Eq, Structural)]
pub enum Exclusion {
    /// Those named `.git`, `tests`, `examples` or `benches`.
    Named,
    /// Those whose path holds `.git`, and no others.
    GitPaths,
}

/// A directory holds the crate manifest.
pub open spec fn holds_manifest(entries: Seq<EntryModel>) -> bool {
    exists|i: int| 0 <= i < entries.len() && (#[trigger] entries[i]).name == manifest_name()
}

/// The mathematical content of a walk.
pub struct WalkModel {
    pub verbose: ClocVerbosity,
    pub exclusion: Exclusion,
    pub phase: WalkPhase,
    /// Directories found and not yet walked; the last is walked next.
    pub pending: Seq<EntryModel>,
    /// Label of the directory that is being walked.
    pub listed: Seq<char>,
    /// The entries of that directory that have not been dealt with.
    pub entries: Seq<EntryModel>,
    /// The record of the unit that files are counted into.
    pub current: StatsModel,
    /// The records that are complete.
    pub records: Seq<StatsModel>,
}

impl WalkModel {
    /// A walk that is about to list the top directory `dir`, and leaves out
    /// directories by their names.
    pub open spec fn start(verbose: ClocVerbosity, dir: Seq<char>) -> WalkModel {
        WalkModel { verbose, exclusion: Exclusion::Named, ..WalkModel::start_whole(dir) }
    }

    /// A walk that gathers everything under `dir` into one record, and leaves
    /// out only what lies on a path that holds `.git`.
    pub open spec fn start_whole(dir: Seq<char>) -> WalkModel {
        WalkModel {
            verbose: ClocVerbosity::TopLevel,
            exclusion: Exclusion::GitPaths,
            phase: WalkPhase::Listing,
            pending: Seq::empty(),
            listed: dir,
            entries: Seq::empty(),
            current: StatsModel::empty(dir),
            records: Seq::empty(),
        }
    }

    /// The walk leaves the directory `entry` out.
    pub open spec fn excludes(self, entry: EntryModel) -> bool {
        match self.exclusion {
            Exclusion::Named => is_excluded_name(entry.name),
            Exclusion::GitPaths => is_git_path(entry.path),
        }
    }

    /// Only directories that are not excluded wait to be walked.
    pub open spec fn pending_are_open(self) -> bool {
        forall|i: int|
            0 <= i < self.pending.len() ==> (#[trigger] self.pending[i]).is_dir
                && !self.excludes(self.pending[i])
    }

    /// Only directories that are not excluded wait to be walked; a file that
    /// is being read is a source file at the front of the entries; and where
    /// records are kept per file, nothing is counted into the unit.
    pub open spec fn wf(self) -> bool {
        &&& self.pending_are_open()
        &&& self.phase == WalkPhase::Reading ==> self.entries.len() > 0 && !self.entries[0].is_dir
            && is_source_name(self.entries[0].name)
        &&& self.verbose == ClocVerbosity::File ==> self.current.is_empty()
    }

    /// What the walk is waiting for.
    pub open spec fn request(self) -> ActionModel {
        match self.phase {
            WalkPhase::Listing => ActionModel::ListDir(self.listed),
            WalkPhase::Reading => ActionModel::ReadFile(self.entries[0].path),
            WalkPhase::Done => ActionModel::Done,
            WalkPhase::Failed => ActionModel::Abort(ClocError::IoFailure),
        }
    }

    /// The unit record handed over to the complete ones, unless it is empty.
    pub open spec fn emitted(self) -> WalkModel {
        if self.current.is_empty() {
            self
        } else {
            WalkModel { records: self.records.push(self.current), ..self }
        }
    }

    /// The walk inside the directory it asked for. Where units are crates and
    /// the directory holds a manifest, a new unit starts under its label.
    pub open spec fn entered(self, entries: Seq<EntryModel>) -> WalkModel {
        if self.verbose == ClocVerbosity::Crate && holds_manifest(entries) {
            WalkModel { entries, current: StatsModel::empty(self.listed), ..self.emitted() }
        } else {
            WalkModel { entries, ..self }
        }
    }

    /// The walk moved on to its next request. Directories among the entries
    /// are put on the stack unless excluded; what is no source file is
    /// passed over; the first source file is asked for. With no entry left,
    /// the directory on top of the stack is asked for; with none there, the
    /// walk is done and hands over the last unit.
    pub open spec fn advanced(self) -> WalkModel
        decreases self.entries.len(),
    {
        if self.entries.len() == 0 {
            if self.pending.len() == 0 {
                WalkModel { phase: WalkPhase::Done, ..self.emitted() }
            } else {
                WalkModel {
                    phase: WalkPhase::Listing,
                    listed: self.pending.last().path,
                    pending: self.pending.drop_last(),
                    ..self
                }
            }
        } else {
            let entry = self.entries[0];
            if entry.is_dir {
                WalkModel {
                    pending: if self.excludes(entry) {
                        self.pending
                    } else {
                        self.pending.push(entry)
                    },
                    entries: self.entries.drop_first(),
                    ..self
                }.advanced()
            } else if is_source_name(entry.name) {
                WalkModel { phase: WalkPhase::Reading, ..self }
            } else {
                WalkModel { entries: self.entries.drop_first(), ..self }.advanced()
            }
        }
    }

    /// The record that the file at the front of the entries is counted
    /// into: one of its own, under its path, where records are kept per file,
    /// else that of the unit.
    pub open spec fn target(self) -> StatsModel {
        if self.verbose == ClocVerbosity::File {
            StatsModel::empty(self.entries[0].path)
        } else {
            self.current
        }
    }

    /// The walk with the file at the front of the entries counted. A record
    /// per file is complete at once.
    pub open spec fn absorbed(self, contents: Seq<char>) -> WalkModel {
        let counted = self.target().after_file(contents);
        if self.verbose == ClocVerbosity::File {
            WalkModel {
                records: self.records.push(counted),
                entries: self.entries.drop_first(),
                ..self
            }
        } else {
            WalkModel { current: counted, entries: self.entries.drop_first(), ..self }
        }
    }

    /// The walk given up.
    pub open spec fn failed(self) -> WalkModel {
        WalkModel { phase: WalkPhase::Failed, ..self }
    }

    /// The walk after `event`. A walk that is over stays as it is. A listing
    /// answers a request for one, contents answer a request for a file; any
    /// other answer, a failure first of all, ends the walk.
    pub open spec fn after(self, event: EventModel) -> WalkModel {
        match self.phase {
            WalkPhase::Done => self,
            WalkPhase::Failed => self,
            WalkPhase::Listing => match event {
                EventModel::Listed(entries) => self.entered(entries).advanced(),
                _ => self.failed(),
            },
            WalkPhase::Reading => match event {
                EventModel::Read(contents) => self.absorbed(contents).advanced(),
                _ => self.failed(),
            },
        }
    }

    /// The walk after each of `events` in turn.
    pub open spec fn after_all(self, events: Seq<EventModel>) -> WalkModel
        decreases events.len(),
    {
        if events.len() == 0 {
            self
        } else {
            self.after_all(events.drop_last()).after(events.last())
        }
    }

    /// The contents among `events` that the walk takes in, each when it has
    /// asked for a file, in their order.
    pub open spec fn reads_taken(self, events: Seq<EventModel>) -> Seq<Seq<char>>
        decreases events.len(),
    {
        if events.len() == 0 {
            Seq::empty()
        } else {
            let before = self.after_all(events.drop_last());
            let taken = self.reads_taken(events.drop_last());
            match events.last() {
                EventModel::Read(contents) if before.phase == WalkPhase::Reading => taken.push(
                    contents,
                ),
                _ => taken,
            }
        }
    }

    /// `event` starts a unit: it is the listing that a walk per crate has
    /// asked for, and holds a manifest.
    pub open spec fn starts_unit(self, event: EventModel) -> bool {
        &&& self.verbose == ClocVerbosity::Crate
        &&& self.phase == WalkPhase::Listing
        &&& event matches EventModel::Listed(entries) && holds_manifest(entries)
    }

    /// None of `events` starts a unit.
    pub open spec fn starts_no_unit(self, events: Seq<EventModel>) -> bool
        decreases events.len(),
    {
        events.len() == 0 || (self.starts_no_unit(events.drop_last()) && !self.after_all(
            events.drop_last(),
        ).starts_unit(events.last()))
    }

    /// No complete record is empty.
    pub open spec fn records_hold_functions(self) -> bool {
        forall|i: int| 0 <= i < self.records.len() ==> !(#[trigger] self.records[i]).is_empty()
    }

    /// Where a step ends by asking for the listing of a directory, that
    /// directory is one the walk had found, and is not excluded.
    pub open spec fn descends_only_where_open(self, event: EventModel) -> bool {
        self.after(event).phase == WalkPhase::Listing ==> exists|entry: EntryModel|
            #![trigger entry.is_dir]
            entry.is_dir && !self.excludes(entry) && entry.path == self.after(event).listed
                && is_known(self, event, entry)
    }

    /// The counters have room for what `event` brings: they must, where it is
    /// the contents of the file asked for.
    pub open spec fn can_take(self, event: EventModel) -> bool {
        match event {
            EventModel::Read(contents) => self.phase == WalkPhase::Reading
                ==> self.target().can_take_file(lines_of(contents).len()),
            _ => true,
        }
    }
}

/// `entry` is a directory that the walk knew of before `event`, or learns of
/// by it.
pub open spec fn is_known(walk: WalkModel, event: EventModel, entry: EntryModel) -> bool {
    ||| walk.pending.contains(entry)
    ||| walk.entries.contains(entry)
    ||| event matches EventModel::Listed(entries) && entries.contains(entry)
}

/// Excluded directories are never descended into, at whatever depth they
/// lie: no step puts one on the stack, and where a step ends by asking for the
/// listing of a directory, that directory is one the walk had found, and is
/// not excluded; for a walk that excludes by name, its name is none of the
/// excluded names. The top directory is the one exception: it is walked under
/// any name.
pub proof fn lemma_excluded_stay_closed(walk: WalkModel, event: EventModel)
    requires
        walk.wf(),
    ensures
        walk.after(event).wf(),
        walk.descends_only_where_open(event),
        walk.exclusion == Exclusion::Named ==> (walk.after(event).phase == WalkPhase::Listing
            ==> exists|entry: EntryModel|
            #![trigger entry.is_dir]
            entry.is_dir && !is_excluded_name(entry.name) && entry.path == walk.after(
                event,
            ).listed && is_known(walk, event, entry)),
{
    match walk.phase {
        WalkPhase::Listing => match event {
            EventModel::Listed(entries) => {
                lemma_advanced_descends(walk.entered(entries));
            },
            _ => {},
        },
        WalkPhase::Reading => match event {
            EventModel::Read(contents) => {
                let counted = walk.absorbed(contents);
                lemma_advanced_descends(counted);
                if counted.advanced().phase == WalkPhase::Listing {
                    let entry = choose|entry: EntryModel|
                        #![trigger entry.is_dir]
                        entry.is_dir && !counted.excludes(entry) && entry.path
                            == counted.advanced().listed && (counted.pending.contains(entry)
                            || counted.entries.contains(entry));
                    if counted.entries.contains(entry) {
                        let i = choose|i: int|
                            0 <= i < counted.entries.len() && counted.entries[i] == entry;
                        assert(walk.entries[i + 1] == entry);
                    }
                    assert(is_known(walk, event, entry));
                }
            },
            _ => {},
        },
        _ => {},
    }
}

proof fn lemma_advanced_descends(walk: WalkModel)
    requires
        walk.pending_are_open(),
        walk.verbose == ClocVerbosity::File ==> walk.current.is_empty(),
    ensures
        walk.advanced().wf(),
        walk.advanced().phase != WalkPhase::Failed,
        walk.advanced().phase == WalkPhase::Listing ==> exists|entry: EntryModel|
            #![trigger entry.is_dir]
            entry.is_dir && !walk.excludes(entry) && entry.path == walk.advanced().listed
                && (walk.pending.contains(entry) || walk.entries.contains(entry)),
    decreases walk.entries.len(),
{
    if walk.entries.len() == 0 {
        if walk.pending.len() > 0 {
            assert(walk.pending.contains(walk.pending.last()));
        }
    } else {
        let entry = walk.entries[0];
        if entry.is_dir || !is_source_name(entry.name) {
            let rest = WalkModel {
                pending: if entry.is_dir && !walk.excludes(entry) {
                    walk.pending.push(entry)
                } else {
                    walk.pending
                },
                entries: walk.entries.drop_first(),
                ..walk
            };
            lemma_advanced_descends(rest);
            if rest.advanced().phase == WalkPhase::Listing {
                let found = choose|found: EntryModel|
                    #![trigger found.is_dir]
                    found.is_dir && !rest.excludes(found) && found.path
                        == rest.advanced().listed && (rest.pending.contains(found)
                        || rest.entries.contains(found));
                if rest.entries.contains(found) {
                    let i = choose|i: int| 0 <= i < rest.entries.len() && rest.entries[i] == found;
                    assert(walk.entries[i + 1] == found);
                } else {
                    let i = choose|i: int| 0 <= i < rest.pending.len() && rest.pending[i] == found;
                    if i == walk.pending.len() {
                        assert(walk.entries[0] == found);
                    } else {
                        assert(walk.pending[i] == found);
                    }
                }
            }
        }
    }
}

/// What moving on leaves alone: the mode and the unit record stay, and the
/// complete records stay too, but for the last unit that is handed over when
/// the walk is done.
proof fn lemma_advanced_keeps(walk: WalkModel)
    ensures
        walk.advanced().verbose == walk.verbose,
        walk.advanced().exclusion == walk.exclusion,
        walk.advanced().phase != WalkPhase::Failed,
        walk.advanced().current == walk.current,
        walk.advanced().records == if walk.advanced().phase == WalkPhase::Done {
            walk.emitted().records
        } else {
            walk.records
        },
    decreases walk.entries.len(),
{
    if walk.entries.len() > 0 {
        let entry = walk.entries[0];
        if entry.is_dir || !is_source_name(entry.name) {
            let rest = WalkModel {
                pending: if entry.is_dir && !walk.excludes(entry) {
                    walk.pending.push(entry)
                } else {
                    walk.pending
                },
                entries: walk.entries.drop_first(),
                ..walk
            };
            lemma_advanced_keeps(rest);
        }
    }
}

/// A record that is complete stays as it is: a step only ever appends to
/// the records.
pub proof fn lemma_records_only_grow(walk: WalkModel, event: EventModel)
    ensures
        walk.records.len() <= walk.after(event).records.len(),
        walk.after(event).records.take(walk.records.len() as int) == walk.records,
{
    let held = walk.records;
    match walk.phase {
        WalkPhase::Listing => match event {
            EventModel::Listed(entries) => {
                let inside = walk.entered(entries);
                lemma_advanced_keeps(inside);
            },
            _ => {
            },
        },
        WalkPhase::Reading => match event {
            EventModel::Read(contents) => {
                let counted = walk.absorbed(contents);
                lemma_advanced_keeps(counted);
            },
            _ => {
            },
        },
        _ => {
        },
    }
}

/// Where records are kept per file, a step adds a record exactly when it
/// takes in the contents of the file asked for: one record, for that one
/// file, under its path.
pub proof fn lemma_one_record_per_file(walk: WalkModel, event: EventModel)
    requires
        walk.wf(),
        walk.verbose == ClocVerbosity::File,
    ensures
        match event {
            EventModel::Read(contents) if walk.phase == WalkPhase::Reading => {
                let added = StatsModel::empty(walk.entries[0].path).after_file(contents);
                &&& walk.after(event).records == walk.records.push(added)
                &&& added.files == 1
                &&& added.name == walk.entries[0].path
            },
            _ => walk.after(event).records == walk.records,
        },
{
    match walk.phase {
        WalkPhase::Listing => match event {
            EventModel::Listed(entries) => {
                lemma_advanced_keeps(walk.entered(entries));
            },
            _ => {},
        },
        WalkPhase::Reading => match event {
            EventModel::Read(contents) => {
                lemma_advanced_keeps(walk.absorbed(contents));
                lemma_one_file_more(StatsModel::empty(walk.entries[0].path), contents);
            },
            _ => {},
        },
        _ => {},
    }
}

/// A step changes neither the mode of a walk nor what it leaves out.
pub proof fn lemma_step_keeps_the_mode(walk: WalkModel, event: EventModel)
    ensures
        walk.after(event).verbose == walk.verbose,
        walk.after(event).exclusion == walk.exclusion,
{
    match walk.phase {
        WalkPhase::Listing => match event {
            EventModel::Listed(entries) => {
                lemma_advanced_keeps(walk.entered(entries));
            },
            _ => {},
        },
        WalkPhase::Reading => match event {
            EventModel::Read(contents) => {
                lemma_advanced_keeps(walk.absorbed(contents));
            },
            _ => {},
        },
        _ => {},
    }
}

/// Through a whole run, whatever the answers and however deep the tree: the
/// walk stays well formed, keeps its mode, and never descends into an
/// excluded directory. Before each of the events, the walk is in a state from
/// which the step asks only for directories that are open.
pub proof fn lemma_run_stays_out_of_excluded(walk: WalkModel, events: Seq<EventModel>)
    requires
        walk.wf(),
    ensures
        walk.after_all(events).wf(),
        walk.after_all(events).verbose == walk.verbose,
        walk.after_all(events).exclusion == walk.exclusion,
        forall|n: int|
            0 <= n < events.len() ==> (#[trigger] walk.after_all(
                events.take(n),
            )).descends_only_where_open(events[n]),
    decreases events.len(),
{
    if events.len() > 0 {
        let front = events.drop_last();
        lemma_run_stays_out_of_excluded(walk, front);
        lemma_excluded_stay_closed(walk.after_all(front), events.last());
        lemma_step_keeps_the_mode(walk.after_all(front), events.last());
        assert forall|n: int| 0 <= n < events.len() implies (#[trigger] walk.after_all(
            events.take(n),
        )).descends_only_where_open(events[n]) by {
            if n < events.len() - 1 {
                assert(events.take(n) =~= front.take(n));
                assert(events[n] == front[n]);
            } else {
                assert(events.take(n) =~= front);
            }
        }
    }
}

/// Through a whole run, records are only ever appended: those that were
/// complete before it stand unchanged at the head of those complete after it.
pub proof fn lemma_run_only_appends(walk: WalkModel, events: Seq<EventModel>)
    ensures
        walk.records.len() <= walk.after_all(events).records.len(),
        walk.after_all(events).records.take(walk.records.len() as int) == walk.records,
    decreases events.len(),
{
    if events.len() > 0 {
        let before = walk.after_all(events.drop_last());
        lemma_run_only_appends(walk, events.drop_last());
        lemma_records_only_grow(before, events.last());
        assert(walk.after_all(events).records.take(walk.records.len() as int)
            =~= before.records.take(walk.records.len() as int));
    } else {
        assert(walk.records.take(walk.records.len() as int) =~= walk.records);
    }
}

/// Where records are kept per file, a run completes exactly one record for
/// each file whose contents it takes in.
pub proof fn lemma_run_gives_one_record_per_file(walk: WalkModel, events: Seq<EventModel>)
    requires
        walk.wf(),
        walk.verbose == ClocVerbosity::File,
    ensures
        walk.after_all(events).records.len() == walk.records.len() + walk.reads_taken(
            events,
        ).len(),
    decreases events.len(),
{
    if events.len() > 0 {
        let before = walk.after_all(events.drop_last());
        lemma_run_gives_one_record_per_file(walk, events.drop_last());
        lemma_run_stays_out_of_excluded(walk, events.drop_last());
        lemma_one_record_per_file(before, events.last());
    }
}

/// Where records are kept per unit, no step completes an empty record: a
/// unit without a function is never handed out.
pub proof fn lemma_no_empty_units(walk: WalkModel, event: EventModel)
    requires
        walk.verbose != ClocVerbosity::File,
        walk.records_hold_functions(),
    ensures
        walk.after(event).records_hold_functions(),
{
    match walk.phase {
        WalkPhase::Listing => match event {
            EventModel::Listed(entries) => {
                lemma_advanced_keeps(walk.entered(entries));
            },
            _ => {},
        },
        WalkPhase::Reading => match event {
            EventModel::Read(contents) => {
                lemma_advanced_keeps(walk.absorbed(contents));
            },
            _ => {},
        },
        _ => {},
    }
}

/// Through a whole run in which records are kept per unit, no empty record
/// is completed.
pub proof fn lemma_run_completes_no_empty_unit(walk: WalkModel, events: Seq<EventModel>)
    requires
        walk.verbose != ClocVerbosity::File,
        walk.records_hold_functions(),
    ensures
        walk.after_all(events).verbose == walk.verbose,
        walk.after_all(events).records_hold_functions(),
    decreases events.len(),
{
    if events.len() > 0 {
        let before = walk.after_all(events.drop_last());
        lemma_run_completes_no_empty_unit(walk, events.drop_last());
        lemma_no_empty_units(before, events.last());
        lemma_step_keeps_the_mode(before, events.last());
    }
}

/// The same walk in another mode.
pub open spec fn in_mode(walk: WalkModel, verbose: ClocVerbosity) -> WalkModel {
    WalkModel { verbose, ..walk }
}

/// Moving on does not look at the mode.
proof fn lemma_advanced_in_any_mode(walk: WalkModel, verbose: ClocVerbosity)
    ensures
        in_mode(walk, verbose).advanced() == in_mode(walk.advanced(), verbose),
    decreases walk.entries.len(),
{
    if walk.entries.len() > 0 {
        let entry = walk.entries[0];
        if entry.is_dir || !is_source_name(entry.name) {
            let rest = WalkModel {
                pending: if entry.is_dir && !walk.excludes(entry) {
                    walk.pending.push(entry)
                } else {
                    walk.pending
                },
                entries: walk.entries.drop_first(),
                ..walk
            };
            lemma_advanced_in_any_mode(rest, verbose);
            assert(in_mode(walk, verbose).excludes(entry) == walk.excludes(entry));
        }
    }
}

/// Without manifests, gathering per crate is gathering everything into one
/// record: on every event but the listing of a directory that holds a
/// manifest, a walk per crate steps as the same walk would in the mode of
/// one combined record.
pub proof fn lemma_crates_without_manifests(walk: WalkModel, event: EventModel)
    requires
        walk.verbose == ClocVerbosity::Crate,
        event matches EventModel::Listed(entries) ==> !holds_manifest(entries),
    ensures
        in_mode(walk.after(event), ClocVerbosity::TopLevel) == in_mode(
            walk,
            ClocVerbosity::TopLevel,
        ).after(event),
{
    match walk.phase {
        WalkPhase::Listing => match event {
            EventModel::Listed(entries) => {
                lemma_advanced_in_any_mode(walk.entered(entries), ClocVerbosity::TopLevel);
            },
            _ => {},
        },
        WalkPhase::Reading => match event {
            EventModel::Read(contents) => {
                lemma_advanced_in_any_mode(walk.absorbed(contents), ClocVerbosity::TopLevel);
            },
            _ => {},
        },
        _ => {},
    }
}

/// A walk that gathers everything into one record completes nothing before
/// its end, and at its end the one record of the top directory, unless that
/// is empty.
pub proof fn lemma_one_combined_record(walk: WalkModel, events: Seq<EventModel>)
    requires
        walk.verbose == ClocVerbosity::TopLevel,
        walk.phase == WalkPhase::Listing || walk.phase == WalkPhase::Reading,
        walk.records.len() == 0,
    ensures
        walk.after_all(events).verbose == ClocVerbosity::TopLevel,
        walk.after_all(events).current.name == walk.current.name,
        walk.after_all(events).records == if walk.after_all(events).phase == WalkPhase::Done
            && !walk.after_all(events).current.is_empty() {
            seq![walk.after_all(events).current]
        } else {
            Seq::<StatsModel>::empty()
        },
    decreases events.len(),
{
    if events.len() > 0 {
        let before = walk.after_all(events.drop_last());
        let event = events.last();
        lemma_one_combined_record(walk, events.drop_last());
        match before.phase {
            WalkPhase::Listing => match event {
                EventModel::Listed(entries) => {
                    lemma_advanced_keeps(before.entered(entries));
                },
                _ => {},
            },
            WalkPhase::Reading => match event {
                EventModel::Read(contents) => {
                    lemma_advanced_keeps(before.absorbed(contents));
                    lemma_one_file_more(before.current, contents);
                },
                _ => {},
            },
            _ => {},
        }
    }
}

/// A walk that is done stays as it is, and takes nothing in.
proof fn lemma_done_stays(walk: WalkModel, events: Seq<EventModel>)
    requires
        walk.phase == WalkPhase::Done,
    ensures
        walk.after_all(events) == walk,
        walk.reads_taken(events).len() == 0,
    decreases events.len(),
{
    if events.len() > 0 {
        lemma_done_stays(walk, events.drop_last());
    }
}

/// A run of one event is one step.
proof fn lemma_run_of_one(walk: WalkModel, event: EventModel)
    ensures
        walk.after_all(seq![event]) == walk.after(event),
{
    reveal_with_fuel(WalkModel::after_all, 2);
    assert(seq![event].drop_last() =~= Seq::<EventModel>::empty());
}

/// A run of two parts is the run of the second part after the first.
proof fn lemma_run_in_parts(walk: WalkModel, first: Seq<EventModel>, second: Seq<EventModel>)
    ensures
        walk.after_all(first + second) == walk.after_all(first).after_all(second),
    decreases second.len(),
{
    if second.len() == 0 {
        assert(first + second =~= first);
    } else {
        assert((first + second).drop_last() =~= first + second.drop_last());
        lemma_run_in_parts(walk, first, second.drop_last());
    }
}

/// While no unit starts, a walk per unit gathers into the unit it has: the
/// unit record is the one it had with every file taken in counted into it,
/// and it is handed over, unless empty, when the walk is done and not
/// before.
pub proof fn lemma_unit_gathers(walk: WalkModel, events: Seq<EventModel>)
    requires
        walk.verbose != ClocVerbosity::File,
        walk.phase != WalkPhase::Done,
        walk.starts_no_unit(events),
    ensures
        walk.after_all(events).verbose == walk.verbose,
        walk.after_all(events).current == walk.current.after_files(walk.reads_taken(events)),
        walk.after_all(events).records == if walk.after_all(events).phase == WalkPhase::Done
            && !walk.after_all(events).current.is_empty() {
            walk.records.push(walk.after_all(events).current)
        } else {
            walk.records
        },
    decreases events.len(),
{
    if events.len() > 0 {
        let before = walk.after_all(events.drop_last());
        let event = events.last();
        lemma_unit_gathers(walk, events.drop_last());
        match before.phase {
            WalkPhase::Listing => match event {
                EventModel::Listed(entries) => {
                    lemma_advanced_keeps(before.entered(entries));
                },
                _ => {},
            },
            WalkPhase::Reading => match event {
                EventModel::Read(contents) => {
                    lemma_advanced_keeps(before.absorbed(contents));
                    let taken = walk.reads_taken(events.drop_last());
                    assert(taken.push(contents).drop_last() =~= taken);
                },
                _ => {},
            },
            _ => {},
        }
    }
}

/// The listing that starts a unit hands over the unit so far, unless empty,
/// and leaves an empty unit under the label of the directory listed.
pub proof fn lemma_unit_starts(walk: WalkModel, event: EventModel)
    requires
        walk.starts_unit(event),
    ensures
        walk.after(event).verbose == ClocVerbosity::Crate,
        walk.after(event).phase != WalkPhase::Failed,
        walk.after(event).current == StatsModel::empty(walk.listed),
        walk.after(event).records == if walk.current.is_empty() {
            walk.records
        } else {
            walk.records.push(walk.current)
        },
{
    match event {
        EventModel::Listed(entries) => {
            lemma_advanced_keeps(walk.entered(entries));
        },
        _ => {},
    }
}

/// Two crates give two records. A walk per crate that starts with nothing
/// counted, takes in no file before the first manifest directory, and comes
/// by exactly two manifest directories before it is done, completes exactly
/// two records: one under the label of each, holding the files taken in from
/// its listing to the next unit, or to the end. `first` and `second` are the
/// listings of the two directories; `lead`, `middle` and `rest` are the
/// events before, between and after them.
pub proof fn lemma_two_crates_two_records(
    walk: WalkModel,
    lead: Seq<EventModel>,
    first: EventModel,
    middle: Seq<EventModel>,
    second: EventModel,
    rest: Seq<EventModel>,
)
    requires
        walk.verbose == ClocVerbosity::Crate,
        walk.phase == WalkPhase::Listing,
        walk.records.len() == 0,
        walk.current.is_empty(),
        walk.starts_no_unit(lead),
        walk.reads_taken(lead).len() == 0,
        walk.after_all(lead).starts_unit(first),
        walk.after_all(lead).after(first).starts_no_unit(middle),
        walk.after_all(lead).after(first).after_all(middle).starts_unit(second),
        walk.after_all(lead).after(first).after_all(middle).after(second).starts_no_unit(rest),
        walk.after_all(lead + seq![first] + middle + seq![second] + rest).phase
            == WalkPhase::Done,
        !StatsModel::empty(walk.after_all(lead).listed).after_files(
            walk.after_all(lead).after(first).reads_taken(middle),
        ).is_empty(),
        !StatsModel::empty(walk.after_all(lead).after(first).after_all(middle).listed).after_files(
            walk.after_all(lead).after(first).after_all(middle).after(second).reads_taken(rest),
        ).is_empty(),
    ensures
        walk.after_all(lead + seq![first] + middle + seq![second] + rest).records == seq![
            StatsModel::empty(walk.after_all(lead).listed).after_files(
                walk.after_all(lead).after(first).reads_taken(middle),
            ),
            StatsModel::empty(
                walk.after_all(lead).after(first).after_all(middle).listed,
            ).after_files(
                walk.after_all(lead).after(first).after_all(middle).after(second).reads_taken(
                    rest,
                ),
            ),
        ],
{
    let at_first = walk.after_all(lead);
    let in_first = at_first.after(first);
    let at_second = in_first.after_all(middle);
    let in_second = at_second.after(second);
    let end = in_second.after_all(rest);
    // the run, part by part
    lemma_run_in_parts(walk, lead, seq![first]);
    lemma_run_of_one(at_first, first);
    lemma_run_in_parts(walk, lead + seq![first], middle);
    lemma_run_in_parts(walk, lead + seq![first] + middle, seq![second]);
    lemma_run_of_one(at_second, second);
    lemma_run_in_parts(walk, lead + seq![first] + middle + seq![second], rest);
    assert(walk.after_all(lead + seq![first] + middle + seq![second] + rest) == end);
    // the units, one by one
    lemma_unit_gathers(walk, lead);
    lemma_unit_starts(at_first, first);
    if in_first.phase == WalkPhase::Done {
        lemma_done_stays(in_first, middle);
    }
    lemma_unit_gathers(in_first, middle);
    lemma_unit_starts(at_second, second);
    if in_second.phase == WalkPhase::Done {
        lemma_done_stays(in_second, rest);
    }
    lemma_unit_gathers(in_second, rest);
    assert(at_first.current == walk.current);
    assert(in_first.records =~= Seq::<StatsModel>::empty());
}

/// Units start at manifests, and nowhere else. Where units are crates and the
/// directory entered holds a manifest, the unit so far is handed over unless
/// empty, and an empty unit starts under the label of the directory;
/// entering any other directory, or in any other mode, changes neither the
/// unit nor the records.
pub proof fn lemma_units_start_at_manifests(walk: WalkModel, entries: Seq<EntryModel>)
    ensures
        walk.verbose == ClocVerbosity::Crate && holds_manifest(entries) ==> {
            &&& walk.entered(entries).current == StatsModel::empty(walk.listed)
            &&& walk.entered(entries).records == if walk.current.is_empty() {
                walk.records
            } else {
                walk.records.push(walk.current)
            }
        },
        !(walk.verbose == ClocVerbosity::Crate && holds_manifest(entries)) ==> {
            &&& walk.entered(entries).current == walk.current
            &&& walk.entered(entries).records == walk.records
        },
{
}

/// A walk over a directory tree.
#[derive(Debug)]
pub struct DirWalk {
    verbose: ClocVerbosity,
    exclusion: Exclusion,
    phase: WalkPhase,
    pending: Vec<Entry>,
    listed: String,
    entries: Vec<Entry>,
    next: usize,
    current: ClocStats,
    records: Vec<ClocStats>,
}

impl View for DirWalk {
    type V = WalkModel;

    closed spec fn view(&self) -> WalkModel {
        WalkModel {
            verbose: self.verbose,
            exclusion: self.exclusion,
            phase: self.phase,
            pending: entries_of(self.pending@),
            listed: self.listed@,
            entries: entries_of(self.entries@).skip(self.next as int),
            current: self.current@,
            records: views_of(self.records@),
        }
    }
}

impl DirWalk {
    /// The walk is in a state that its own steps lead to.
    pub closed spec fn wf(&self) -> bool {
        self.next <= self.entries@.len() && self@.wf()
    }

    /// A walk of the tree under `dir`, gathering in the mode `verbose` and
    /// leaving out directories by their names; `is_dir` says whether `dir`
    /// names a directory, and there is no walk where it does not. The first
    /// request of a walk is the listing of `dir`.
    pub fn new(verbose: ClocVerbosity, dir: &str, is_dir: bool) -> (made: Result<
        DirWalk,
        ClocError,
    >)
        ensures
            match made {
                Ok(walk) => is_dir && walk.wf() && walk@.wf() && walk@ == WalkModel::start(
                    verbose,
                    dir@,
                ),
                Err(error) => !is_dir && error == ClocError::NotADirectory,
            },
    {
        DirWalk::begin(verbose, Exclusion::Named, dir, is_dir)
    }

    /// A walk that gathers everything under `dir` into one record and
    /// leaves out only what lies on a path that holds `.git`; `is_dir` says
    /// whether `dir` names a directory.
    pub fn whole(dir: &str, is_dir: bool) -> (made: Result<DirWalk, ClocError>)
        ensures
            match made {
                Ok(walk) => is_dir && walk.wf() && walk@.wf() && walk@ == WalkModel::start_whole(
                    dir@,
                ),
                Err(error) => !is_dir && error == ClocError::NotADirectory,
            },
    {
        DirWalk::begin(ClocVerbosity::TopLevel, Exclusion::GitPaths, dir, is_dir)
    }

    /// A walk that is about to list `dir`, where `dir` is a directory.
    fn begin(verbose: ClocVerbosity, exclusion: Exclusion, dir: &str, is_dir: bool) -> (made:
        Result<DirWalk, ClocError>)
        ensures
            match made {
                Ok(walk) => is_dir && walk.wf() && walk@ == (WalkModel {
                    verbose,
                    exclusion,
                    ..WalkModel::start_whole(dir@)
                }),
                Err(error) => !is_dir && error == ClocError::NotADirectory,
            },
    {
        if !is_dir {
            return Err(ClocError::NotADirectory);
        }
        let walk = DirWalk {
            verbose,
            exclusion,
            phase: WalkPhase::Listing,
            pending: Vec::new(),
            listed: dir.to_owned(),
            entries: Vec::new(),
            next: 0,
            current: ClocStats::new(dir.to_owned()),
            records: Vec::new(),
        };
        proof {
            assert(walk@.pending =~= Seq::empty());
            assert(walk@.entries =~= Seq::empty());
            assert(walk@.records =~= Seq::empty());
        }
        Ok(walk)
    }

    /// A walk in a state that its own steps lead to has a model that is
    /// well formed.
    pub proof fn lemma_wf(&self)
        requires
            self.wf(),
        ensures
            self@.wf(),
    {
    }

    /// Where the walk stands.
    pub fn phase(&self) -> (phase: WalkPhase)
        ensures
            phase == self@.phase,
    {
        self.phase
    }

    /// The record of the unit that files are counted into.
    pub fn current(&self) -> (unit: &ClocStats)
        ensures
            unit@ == self@.current,
    {
        &self.current
    }

    /// The records that are complete so far.
    pub fn records(&self) -> (records: &Vec<ClocStats>)
        ensures
            views_of(records@) == self@.records,
    {
        &self.records
    }

    /// What the walk is waiting for.
    pub fn request(&self) -> (action: WalkAction)
        requires
            self.wf(),
        ensures
            action@ == self@.request(),
    {
        match self.phase {
            WalkPhase::Listing => WalkAction::ListDir(self.listed.clone()),
            WalkPhase::Reading => WalkAction::ReadFile(self.entries[self.next].path.clone()),
            WalkPhase::Done => WalkAction::Done,
            WalkPhase::Failed => WalkAction::Abort(ClocError::IoFailure),
        }
    }

    /// Whether the counters have room for what `event` brings.
    pub fn can_take(&self, event: &WalkEvent) -> (fits: bool)
        requires
            self.wf(),
        ensures
            fits == self@.can_take(event@),
    {
        match self.phase {
            WalkPhase::Reading => match event {
                WalkEvent::Read(contents) => match self.verbose {
                    ClocVerbosity::File => ClocStats::new(String::new()).has_room_for(
                        contents.as_str(),
                    ),
                    _ => self.current.has_room_for(contents.as_str()),
                },
                _ => true,
            },
            _ => true,
        }
    }

    /// Takes in the answer to the last request and says what is needed next.
    pub fn step(&mut self, patterns: &PatternSet, event: WalkEvent) -> (action: WalkAction)
        requires
            old(self).wf(),
            old(self)@.can_take(event@),
        ensures
            final(self).wf(),
            final(self)@.wf(),
            final(self)@ == old(self)@.after(event@),
            action@ == final(self)@.request(),
    {
        match self.phase {
            WalkPhase::Done => WalkAction::Done,
            WalkPhase::Failed => WalkAction::Abort(ClocError::IoFailure),
            WalkPhase::Listing => match event {
                WalkEvent::Listed(entries) => {
                    self.enter(entries);
                    self.advance()
                },
                _ => self.fail(),
            },
            WalkPhase::Reading => match event {
                WalkEvent::Read(contents) => {
                    self.absorb(patterns, contents.as_str());
                    self.advance()
                },
                _ => self.fail(),
            },
        }
    }

    /// The records of a walk that is done, in the order they were completed.
    /// A walk that was given up, or has not come to its end, has none to
    /// hand out.
    pub fn into_records(self) -> (outcome: Result<Vec<ClocStats>, ClocError>)
        ensures
            match outcome {
                Ok(records) => self@.phase == WalkPhase::Done && views_of(records@)
                    == self@.records,
                Err(error) => self@.phase != WalkPhase::Done && error == ClocError::IoFailure,
            },
    {
        match self.phase {
            WalkPhase::Done => Ok(self.records),
            _ => Err(ClocError::IoFailure),
        }
    }

    /// The one record of a walk that is done: that of the unit counted into
    /// last, handed out even where no function was found. A walk that was
    /// given up, or has not come to its end, has none to hand out.
    pub fn into_combined(self) -> (outcome: Result<ClocStats, ClocError>)
        ensures
            match outcome {
                Ok(record) => self@.phase == WalkPhase::Done && record@ == self@.current,
                Err(error) => self@.phase != WalkPhase::Done && error == ClocError::IoFailure,
            },
    {
        match self.phase {
            WalkPhase::Done => Ok(self.current),
            _ => Err(ClocError::IoFailure),
        }
    }

    /// Gives the walk up.
    fn fail(&mut self) -> (action: WalkAction)
        requires
            old(self).wf(),
        ensures
            final(self).wf(),
            final(self)@ == old(self)@.failed(),
            action@ == final(self)@.request(),
    {
        self.phase = WalkPhase::Failed;
        WalkAction::Abort(ClocError::IoFailure)
    }

    /// Hands the unit record over to the complete ones, unless it is empty.
    fn emit(&mut self)
        ensures
            final(self)@ == old(self)@.emitted(),
            final(self).next == old(self).next,
            final(self).entries == old(self).entries,
    {
        if !self.current.is_empty() {
            let ghost held = self.records@;
            self.records.push(self.current.clone());
            proof {
                assert(views_of(self.records@) =~= views_of(held).push(self.current@));
            }
        }
    }

    /// Steps into the directory that was asked for.
    fn enter(&mut self, entries: Vec<Entry>)
        requires
            old(self).wf(),
            old(self)@.phase == WalkPhase::Listing,
        ensures
            final(self).wf(),
            final(self)@ == old(self)@.entered(entries_of(entries@)),
    {
        let mut found = false;
        let mut i: usize = 0;
        while i < entries.len()
            invariant
                i <= entries@.len(),
                found == holds_manifest(entries_of(entries@).take(i as int)),
            decreases entries@.len() - i,
        {
            if is_manifest(entries[i].name.as_str()) {
                found = true;
            }
            proof {
                let seen = entries_of(entries@).take(i as int);
                let more = entries_of(entries@).take(i + 1);
                assert(more[i as int] == entries@[i as int]@);
                if holds_manifest(more) {
                    let k = choose|k: int|
                        0 <= k < more.len() && (#[trigger] more[k]).name == manifest_name();
                    if k < i {
                        assert(seen[k].name == manifest_name());
                    }
                }
            }
            i = i + 1;
        }
        if found && self.verbose == ClocVerbosity::Crate {
            self.emit();
            self.current = ClocStats::new(self.listed.clone());
        }
        self.entries = entries;
        self.next = 0;
        proof {
            assert(entries_of(self.entries@).skip(0) =~= entries_of(entries@));
        }
    }

    /// Counts the file that was asked for.
    fn absorb(&mut self, patterns: &PatternSet, contents: &str)
        requires
            old(self).wf(),
            old(self)@.phase == WalkPhase::Reading,
            old(self)@.can_take(EventModel::Read(contents@)),
        ensures
            final(self).next <= final(self).entries@.len(),
            final(self)@ == old(self)@.absorbed(contents@),
    {
        let ghost held = self.records@;
        let ghost front = entries_of(self.entries@).skip(self.next as int);
        match self.verbose {
            ClocVerbosity::File => {
                let mut fresh = ClocStats::new(self.entries[self.next].path.clone());
                fresh.cloc_file(patterns, contents);
                proof {
                    assert(views_of(self.records@.push(fresh)) =~= views_of(held).push(fresh@));
                }
                self.records.push(fresh);
            },
            _ => {
                self.current.cloc_file(patterns, contents);
            },
        }
        assert(self.next < self.entries.len());
        self.next = self.next + 1;
        proof {
            assert(entries_of(self.entries@).skip(self.next as int) =~= front.drop_first());
        }
    }

    /// Moves on to the next request.
    fn advance(&mut self) -> (action: WalkAction)
        requires
            old(self).next <= old(self).entries@.len(),
            old(self)@.pending_are_open(),
            old(self)@.verbose == ClocVerbosity::File ==> old(self)@.current.is_empty(),
        ensures
            final(self).wf(),
            final(self)@ == old(self)@.advanced(),
            action@ == final(self)@.request(),
    {
        while self.next < self.entries.len()
            invariant
                self.next <= self.entries@.len(),
                self@.advanced() == old(self)@.advanced(),
                self@.pending_are_open(),
                self@.verbose == ClocVerbosity::File ==> self@.current.is_empty(),
            decreases self.entries@.len() - self.next,
        {
            let ghost front = self@.entries;
            let ghost stack = self.pending@;
            if self.entries[self.next].is_dir {
                let left_out = match self.exclusion {
                    Exclusion::Named => is_excluded(self.entries[self.next].name.as_str()),
                    Exclusion::GitPaths => holds_git(self.entries[self.next].path.as_str()),
                };
                if !left_out {
                    let found = self.entries[self.next].clone();
                    self.pending.push(found);
                    proof {
                        assert(entries_of(self.pending@) =~= entries_of(stack).push(front[0]));
                    }
                }
                self.next = self.next + 1;
                proof {
                    assert(self@.entries =~= front.drop_first());
                }
            } else if is_source_file(self.entries[self.next].name.as_str()) {
                self.phase = WalkPhase::Reading;
                return WalkAction::ReadFile(self.entries[self.next].path.clone());
            } else {
                self.next = self.next + 1;
                proof {
                    assert(self@.entries =~= front.drop_first());
                }
            }
        }
        let ghost stack = self.pending@;
        match self.pending.pop() {
            Some(dir) => {
                self.phase = WalkPhase::Listing;
                self.listed = dir.path;
                proof {
                    assert(entries_of(self.pending@) =~= entries_of(stack).drop_last());
                }
                WalkAction::ListDir(self.listed.clone())
            },
            None => {
                self.emit();
                self.phase = WalkPhase::Done;
                WalkAction::Done
            },
        }
    }
}

} // verus!
