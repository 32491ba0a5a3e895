//! One fetch task: from a resolved backend to the text of the metadata.
//!
//! The work that reaches outside (opening the archive, reading an entry) is
//! done by the caller, who reports what came of it as an event. What to do
//! with each event is decided here.

use crate::reader::WheelUrl;
use crate::trusted::{regex_is_match, regex_search, string_from_utf8};
use vstd::prelude::*;
use vstd::utf8::*;

verus! {

/// The expression that the name of the metadata entry matches: any directory,
/// then the file `METADATA`.
pub const METADATA_PATTERN: &'static str = ".*/METADATA$";

/// What can go wrong in a fetch task.
#[derive(Debug, Clone, Copy, PartialEq, Eq, Hash, Structural)]
pub enum FetchError {
    /// The network or the file system failed.
    Io,
    /// The directory of the archive cannot be found or read.
    InvalidFormat,
    /// No entry of the archive matches the pattern.
    NotFound,
    /// The entry is not UTF-8.
    Encoding,
}

/// The steps of a fetch task, by which a failure is placed.
#[derive(Debug, Clone, Copy, PartialEq, Eq, Hash, Structural)]
pub enum FetchStep {
    ResolveBackend,
    OpenArchive,
    LocateEntry,
    ReadEntry,
    DecodeText,
}

/// A failure and the step at which it came.
#[derive(Debug, Clone, Copy, PartialEq, Eq, Hash, Structural)]
pub struct FetchFailure {
    pub step: FetchStep,
    pub cause: FetchError,
}

/// The mathematical value of an entry name: its characters, or `None` for a
/// name that is not UTF-8.
pub open spec fn name_view(name: Option<String>) -> Option<Seq<char>> {
    match name {
        Some(text) => Some(text@),
        None => None,
    }
}

/// The mathematical value of a directory: the values of its names, in
/// directory order.
pub open spec fn names_view(names: Seq<Option<String>>) -> Seq<Option<Seq<char>>> {
    names.map_values(|name: Option<String>| name_view(name))
}

/// Whether an entry name matches `pattern`. A name that is not UTF-8 matches
/// nothing.
pub open spec fn name_matches(name: Option<Seq<char>>, pattern: Seq<char>) -> bool {
    name matches Some(text) && regex_is_match(pattern, text)
}

/// Whether the entry at `at` matches `pattern` and none before it does.
pub open spec fn is_first_match(
    names: Seq<Option<Seq<char>>>,
    pattern: Seq<char>,
    at: int,
) -> bool {
    &&& 0 <= at < names.len()
    &&& name_matches(names[at], pattern)
    &&& forall|before: int| 0 <= before < at ==> !name_matches(#[trigger] names[before], pattern)
}

/// The position of the first entry that matches `pattern`, in directory
/// order, if any entry does.
pub open spec fn first_match(names: Seq<Option<Seq<char>>>, pattern: Seq<char>) -> Option<int> {
    if exists|at: int| is_first_match(names, pattern, at) {
        Some(choose|at: int| is_first_match(names, pattern, at))
    } else {
        None
    }
}

/// There is one first match at most.
pub proof fn lemma_first_match_is(names: Seq<Option<Seq<char>>>, pattern: Seq<char>, at: int)
    requires
        is_first_match(names, pattern, at),
    ensures
        first_match(names, pattern) == Some(at),
{
    let chosen = choose|at: int| is_first_match(names, pattern, at);
    assert(is_first_match(names, pattern, chosen));
    if chosen < at {
        assert(!name_matches(names[chosen], pattern));
    }
    if at < chosen {
        assert(!name_matches(names[at], pattern));
    }
}

/// Where no entry matches there is no first match.
pub proof fn lemma_no_match(names: Seq<Option<Seq<char>>>, pattern: Seq<char>)
    requires
        forall|at: int| 0 <= at < names.len() ==> !name_matches(#[trigger] names[at], pattern),
    ensures
        first_match(names, pattern) is None,
{
}

/// Where some entry matches there is a first match, and it matches.
pub proof fn lemma_first_match_exists(names: Seq<Option<Seq<char>>>, pattern: Seq<char>, at: int)
    requires
        0 <= at < names.len(),
        name_matches(names[at], pattern),
    ensures
        first_match(names, pattern) matches Some(first) && is_first_match(names, pattern, first)
            && first <= at,
    decreases at,
{
    if forall|before: int| 0 <= before < at ==> !name_matches(#[trigger] names[before], pattern) {
        assert(is_first_match(names, pattern, at));
        lemma_first_match_is(names, pattern, at);
    } else {
        let before = choose|before: int|
            0 <= before < at && name_matches(#[trigger] names[before], pattern);
        lemma_first_match_exists(names, pattern, before);
    }
}

/// Whether the flag at `at` is set and none before it is.
pub open spec fn is_first_set(flags: Seq<bool>, at: int) -> bool {
    &&& 0 <= at < flags.len()
    &&& flags[at]
    &&& forall|before: int| 0 <= before < at ==> !flags[before]
}

/// For each name of a directory, whether it matches `pattern`.
pub fn matching_entries(names: &Vec<Option<String>>, pattern: &str) -> (flags: Vec<bool>)
    ensures
        flags@.len() == names@.len(),
        forall|at: int|
            0 <= at < flags@.len() ==> flags@[at] == name_matches(
                #[trigger] names_view(names@)[at],
                pattern@,
            ),
{
    let ghost view = names_view(names@);
    let mut flags: Vec<bool> = Vec::new();
    let mut at: usize = 0;
    while at < names.len()
        invariant
            at <= names.len(),
            view == names_view(names@),
            flags@.len() == at,
            forall|before: int|
                0 <= before < at ==> flags@[before] == name_matches(
                    #[trigger] view[before],
                    pattern@,
                ),
        decreases names.len() - at,
    {
        let matches = match &names[at] {
            Some(text) => regex_search(pattern, text.as_str()),
            None => false,
        };
        flags.push(matches);
        at += 1;
    }
    flags
}

/// The position of the first flag that is set.
pub fn first_set(flags: &Vec<bool>) -> (found: Option<usize>)
    ensures
        match found {
            Some(at) => is_first_set(flags@, at as int),
            None => forall|at: int| 0 <= at < flags@.len() ==> !flags@[at],
        },
{
    let mut at: usize = 0;
    while at < flags.len()
        invariant
            at <= flags.len(),
            forall|before: int| 0 <= before < at ==> !flags@[before],
        decreases flags.len() - at,
    {
        if flags[at] {
            return Some(at);
        }
        at += 1;
    }
    None
}

/// Scans the names of a directory in directory order and gives the position
/// of the first that matches `pattern`. Only the first match counts, however
/// many there are. A pattern that is no regular expression matches no name.
pub fn find_entry(names: &Vec<Option<String>>, pattern: &str) -> (found: Result<usize, FetchError>)
    ensures
        match first_match(names_view(names@), pattern@) {
            Some(at) => found == Ok::<usize, FetchError>(at as usize) && at < names.len(),
            None => found == Err::<usize, FetchError>(FetchError::NotFound),
        },
{
    let flags = matching_entries(names, pattern);
    match first_set(&flags) {
        Some(at) => {
            proof {
                let view = names_view(names@);
                assert(name_matches(view[at as int], pattern@));
                assert forall|before: int| 0 <= before < at implies !name_matches(
                    #[trigger] view[before],
                    pattern@,
                ) by {
                    assert(!flags@[before]);
                }
                lemma_first_match_is(view, pattern@, at as int);
            }
            Ok(at)
        },
        None => {
            proof {
                let view = names_view(names@);
                assert forall|at: int| 0 <= at < view.len() implies !name_matches(
                    #[trigger] view[at],
                    pattern@,
                ) by {
                    assert(!flags@[at]);
                }
                lemma_no_match(view, pattern@);
            }
            Err(FetchError::NotFound)
        },
    }
}

/// The text that the bytes of an entry hold.
pub fn decode_text(bytes: Vec<u8>) -> (decoded: Result<String, FetchError>)
    ensures
        match decoded {
            Ok(text) => valid_utf8(bytes@) && text@ == decode_utf8(bytes@),
            Err(error) => !valid_utf8(bytes@) && error == FetchError::Encoding,
        },
{
    match string_from_utf8(bytes) {
        Some(text) => Ok(text),
        None => Err(FetchError::Encoding),
    }
}

/// Where a fetch task stands.
#[derive(Debug, Clone, PartialEq, Eq)]
pub enum FetchState {
    /// Nothing has been done yet: the backend is awaited.
    Pending,
    /// The backend is there: the archive is to be opened.
    BackendResolved,
    /// The archive is open and its directory read: the metadata entry is to
    /// be located.
    ArchiveOpened { names: Vec<Option<String>> },
    /// The metadata entry is found: it is to be read.
    EntryLocated { index: usize },
    /// The entry has been read: its bytes are to be decoded.
    EntryRead { bytes: Vec<u8> },
    /// The task is done and holds the text of the metadata.
    Completed { text: String },
    /// The task has failed at a step.
    Failed { step: FetchStep, cause: FetchError },
}

/// The mathematical value of a [`FetchState`].
pub ghost enum FetchStateView {
    Pending,
    BackendResolved,
    ArchiveOpened { names: Seq<Option<Seq<char>>> },
    EntryLocated { index: int },
    EntryRead { bytes: Seq<u8> },
    Completed { text: Seq<char> },
    Failed { step: FetchStep, cause: FetchError },
}

impl View for FetchState {
    type V = FetchStateView;

    open spec fn view(&self) -> FetchStateView {
        match self {
            FetchState::Pending => FetchStateView::Pending,
            FetchState::BackendResolved => FetchStateView::BackendResolved,
            FetchState::ArchiveOpened { names } => FetchStateView::ArchiveOpened {
                names: names_view(names@),
            },
            FetchState::EntryLocated { index } => FetchStateView::EntryLocated {
                index: *index as int,
            },
            FetchState::EntryRead { bytes } => FetchStateView::EntryRead { bytes: bytes@ },
            FetchState::Completed { text } => FetchStateView::Completed { text: text@ },
            FetchState::Failed { step, cause } => FetchStateView::Failed {
                step: *step,
                cause: *cause,
            },
        }
    }
}

/// What came of the work that a fetch task had done outside.
#[derive(Debug, Clone, PartialEq, Eq)]
pub enum FetchEvent {
    /// The backend handle is there.
    BackendReady,
    /// The backend could not be built.
    BackendFailed,
    /// The archive was opened. Holds the names of its entries in directory
    /// order, `None` for a name that is not UTF-8.
    ArchiveOpened { names: Vec<Option<String>> },
    /// The archive could not be reached.
    OpenFailed,
    /// The archive was reached but its directory cannot be found or read.
    ArchiveInvalid,
    /// The entry was read to its end. Holds its bytes.
    EntryRead { bytes: Vec<u8> },
    /// The entry could not be read.
    ReadFailed,
}

/// The mathematical value of a [`FetchEvent`].
pub ghost enum FetchEventView {
    BackendReady,
    BackendFailed,
    ArchiveOpened { names: Seq<Option<Seq<char>>> },
    OpenFailed,
    ArchiveInvalid,
    EntryRead { bytes: Seq<u8> },
    ReadFailed,
}

impl View for FetchEvent {
    type V = FetchEventView;

    open spec fn view(&self) -> FetchEventView {
        match self {
            FetchEvent::BackendReady => FetchEventView::BackendReady,
            FetchEvent::BackendFailed => FetchEventView::BackendFailed,
            FetchEvent::ArchiveOpened { names } => FetchEventView::ArchiveOpened {
                names: names_view(names@),
            },
            FetchEvent::OpenFailed => FetchEventView::OpenFailed,
            FetchEvent::ArchiveInvalid => FetchEventView::ArchiveInvalid,
            FetchEvent::EntryRead { bytes } => FetchEventView::EntryRead { bytes: bytes@ },
            FetchEvent::ReadFailed => FetchEventView::ReadFailed,
        }
    }
}

/// The work outside that a fetch task asks for next.
#[derive(Debug, Clone, Copy, PartialEq, Eq, Hash, Structural)]
pub enum FetchAction {
    /// Get the backend handle for the locator.
    ResolveBackend,
    /// Open the archive at the locator's path and read its directory.
    OpenArchive,
    /// Read the entry at this position of the directory to its end.
    ReadEntry { index: usize },
    /// Nothing: the task has ended.
    Finish,
}

/// A failed state.
pub open spec fn failed(step: FetchStep, cause: FetchError) -> FetchStateView {
    FetchStateView::Failed { step, cause }
}

impl FetchStateView {
    /// How far the task has come.
    pub open spec fn rank(self) -> nat {
        match self {
            FetchStateView::Pending => 0,
            FetchStateView::BackendResolved => 1,
            FetchStateView::ArchiveOpened { .. } => 2,
            FetchStateView::EntryLocated { .. } => 3,
            FetchStateView::EntryRead { .. } => 4,
            FetchStateView::Completed { .. } => 5,
            FetchStateView::Failed { .. } => 5,
        }
    }

    /// Whether the task has ended, in success or in failure.
    pub open spec fn is_terminal(self) -> bool {
        self is Completed || self is Failed
    }

    /// The state after an event. Each state takes in the events that report
    /// on the work it awaits; any other event is dropped.
    pub open spec fn after_event(self, event: FetchEventView) -> FetchStateView {
        match (self, event) {
            (
                FetchStateView::Pending,
                FetchEventView::BackendReady,
            ) => FetchStateView::BackendResolved,
            (FetchStateView::Pending, FetchEventView::BackendFailed) => failed(
                FetchStep::ResolveBackend,
                FetchError::Io,
            ),
            (
                FetchStateView::BackendResolved,
                FetchEventView::ArchiveOpened { names },
            ) => FetchStateView::ArchiveOpened { names },
            (FetchStateView::BackendResolved, FetchEventView::OpenFailed) => failed(
                FetchStep::OpenArchive,
                FetchError::Io,
            ),
            (FetchStateView::BackendResolved, FetchEventView::ArchiveInvalid) => failed(
                FetchStep::OpenArchive,
                FetchError::InvalidFormat,
            ),
            (
                FetchStateView::EntryLocated { .. },
                FetchEventView::EntryRead { bytes },
            ) => FetchStateView::EntryRead { bytes },
            (FetchStateView::EntryLocated { .. }, FetchEventView::ReadFailed) => failed(
                FetchStep::ReadEntry,
                FetchError::Io,
            ),
            _ => self,
        }
    }

    /// The state after the steps that need no work outside: an open archive
    /// has its metadata entry located, bytes read are decoded. Any other
    /// state stays.
    pub open spec fn settled(self) -> FetchStateView {
        match self {
            FetchStateView::ArchiveOpened { names } => match first_match(names, METADATA_PATTERN@) {
                Some(index) => FetchStateView::EntryLocated { index },
                None => failed(FetchStep::LocateEntry, FetchError::NotFound),
            },
            FetchStateView::EntryRead { bytes } => if valid_utf8(bytes) {
                FetchStateView::Completed { text: decode_utf8(bytes) }
            } else {
                failed(FetchStep::DecodeText, FetchError::Encoding)
            },
            _ => self,
        }
    }

    /// The state in which the task next waits: after the event, and after
    /// the steps that need no work outside.
    pub open spec fn step(self, event: FetchEventView) -> FetchStateView {
        self.after_event(event).settled()
    }

    /// The work outside that the state waits for.
    pub open spec fn action(self) -> FetchAction {
        match self.settled() {
            FetchStateView::Pending => FetchAction::ResolveBackend,
            FetchStateView::BackendResolved => FetchAction::OpenArchive,
            FetchStateView::EntryLocated { index } => FetchAction::ReadEntry {
                index: index as usize,
            },
            _ => FetchAction::Finish,
        }
    }

    /// What the task has to show at its end.
    pub open spec fn outcome(self) -> Option<Result<Seq<char>, FetchFailure>> {
        match self {
            FetchStateView::Completed { text } => Some(Ok(text)),
            FetchStateView::Failed { step, cause } => Some(Err(FetchFailure { step, cause })),
            _ => None,
        }
    }
}

impl FetchState {
    /// Takes in an event.
    pub fn on_event(self, event: FetchEvent) -> (next: FetchState)
        ensures
            next@ == self@.after_event(event@),
    {
        match self {
            FetchState::Pending => match event {
                FetchEvent::BackendReady => FetchState::BackendResolved,
                FetchEvent::BackendFailed => FetchState::Failed {
                    step: FetchStep::ResolveBackend,
                    cause: FetchError::Io,
                },
                _ => FetchState::Pending,
            },
            FetchState::BackendResolved => match event {
                FetchEvent::ArchiveOpened { names } => FetchState::ArchiveOpened { names },
                FetchEvent::OpenFailed => FetchState::Failed {
                    step: FetchStep::OpenArchive,
                    cause: FetchError::Io,
                },
                FetchEvent::ArchiveInvalid => FetchState::Failed {
                    step: FetchStep::OpenArchive,
                    cause: FetchError::InvalidFormat,
                },
                _ => FetchState::BackendResolved,
            },
            FetchState::EntryLocated { index } => match event {
                FetchEvent::EntryRead { bytes } => FetchState::EntryRead { bytes },
                FetchEvent::ReadFailed => FetchState::Failed {
                    step: FetchStep::ReadEntry,
                    cause: FetchError::Io,
                },
                _ => FetchState::EntryLocated { index },
            },
            other => other,
        }
    }

    /// Makes the steps that need no work outside.
    pub fn settle(self) -> (next: FetchState)
        ensures
            next@ == self@.settled(),
    {
        match self {
            FetchState::ArchiveOpened { names } => match find_entry(&names, METADATA_PATTERN) {
                Ok(index) => FetchState::EntryLocated { index },
                Err(cause) => FetchState::Failed { step: FetchStep::LocateEntry, cause },
            },
            FetchState::EntryRead { bytes } => match decode_text(bytes) {
                Ok(text) => FetchState::Completed { text },
                Err(cause) => FetchState::Failed { step: FetchStep::DecodeText, cause },
            },
            other => other,
        }
    }

    /// Whether the task has ended.
    pub fn is_terminal(&self) -> (ended: bool)
        ensures
            ended == self@.is_terminal(),
    {
        match self {
            FetchState::Completed { .. } => true,
            FetchState::Failed { .. } => true,
            _ => false,
        }
    }
}

/// What a fetch task hands to the encoder: the locator, for the name, with
/// the text of the metadata or the reason why there is none.
#[derive(Debug, PartialEq, Eq)]
pub struct MetadataResult {
    pub url: WheelUrl,
    pub outcome: Result<String, FetchFailure>,
}

impl MetadataResult {
    /// The member that the result adds to the output: the output key of the
    /// locator with the text. A failed task adds none.
    pub open spec fn member(&self) -> Option<(Seq<char>, Seq<char>)> {
        match self.outcome {
            Ok(text) => Some((self.url@.output_key(), text@)),
            Err(_) => None,
        }
    }

    /// The result of a task for `url` that has ended in `state`; `None`
    /// while the task has not ended.
    pub fn of(url: WheelUrl, state: FetchState) -> (result: Option<MetadataResult>)
        ensures
            match result {
                Some(made) => {
                    &&& made.url@ == url@
                    &&& state@.outcome() == Some(
                        match made.outcome {
                            Ok(text) => Ok::<Seq<char>, FetchFailure>(text@),
                            Err(failure) => Err::<Seq<char>, FetchFailure>(failure),
                        },
                    )
                },
                None => !state@.is_terminal(),
            },
    {
        match state {
            FetchState::Completed { text } => Some(MetadataResult { url, outcome: Ok(text) }),
            FetchState::Failed { step, cause } => Some(
                MetadataResult { url, outcome: Err(FetchFailure { step, cause }) },
            ),
            _ => None,
        }
    }
}

/// A task never goes back, and once ended it stays as it is.
pub proof fn lemma_no_way_back(state: FetchStateView, event: FetchEventView)
    ensures
        state.step(event).rank() >= state.rank(),
        state.is_terminal() ==> state.step(event) == state,
{
}

/// Settling leaves a state in which the task waits for work outside or has
/// ended.
pub proof fn lemma_settled_waits(state: FetchStateView)
    ensures
        !(state.settled() is ArchiveOpened),
        !(state.settled() is EntryRead),
        state.settled().settled() == state.settled(),
{
}

/// An archive in which exactly one entry matches the pattern, that entry
/// holding well-formed UTF-8, yields the text that the bytes of the entry
/// encode: the task asks for that entry and ends with its decoded bytes.
pub proof fn lemma_single_entry_round_trip(names: Seq<Option<Seq<char>>>, at: int, bytes: Seq<u8>)
    requires
        0 <= at < names.len() <= usize::MAX,
        forall|i: int|
            0 <= i < names.len() ==> (name_matches(#[trigger] names[i], METADATA_PATTERN@) <==> i
                == at),
        valid_utf8(bytes),
    ensures
        ({
            let resolved = FetchStateView::Pending.step(FetchEventView::BackendReady);
            let located = resolved.step(FetchEventView::ArchiveOpened { names });
            let ended = located.step(FetchEventView::EntryRead { bytes });
            &&& resolved.action() == FetchAction::OpenArchive
            &&& located == FetchStateView::EntryLocated { index: at }
            &&& located.action() == FetchAction::ReadEntry { index: at as usize }
            &&& ended == FetchStateView::Completed { text: decode_utf8(bytes) }
            &&& ended.outcome() == Some(Ok::<Seq<char>, FetchFailure>(decode_utf8(bytes)))
        }),
{
    assert(name_matches(names[at], METADATA_PATTERN@));
    assert(is_first_match(names, METADATA_PATTERN@, at));
    lemma_first_match_is(names, METADATA_PATTERN@, at);
}

/// An archive in which no entry matches the pattern makes the task fail with
/// `NotFound`, at the step that locates the entry, and no later event
/// changes that.
pub proof fn lemma_no_entry_not_found(names: Seq<Option<Seq<char>>>, event: FetchEventView)
    requires
        forall|i: int|
            0 <= i < names.len() ==> !name_matches(#[trigger] names[i], METADATA_PATTERN@),
    ensures
        ({
            let ended = FetchStateView::BackendResolved.step(
                FetchEventView::ArchiveOpened { names },
            );
            &&& ended == failed(FetchStep::LocateEntry, FetchError::NotFound)
            &&& ended.action() == FetchAction::Finish
            &&& ended.step(event) == ended
        }),
{
    lemma_no_match(names, METADATA_PATTERN@);
}

} // verus!
