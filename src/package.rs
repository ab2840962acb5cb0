//! Unpacking a package, as decisions over the entries of its object table.
//!
//! The caller walks the table in order and hands each entry's resolved name (or
//! the failure to resolve it, or to copy its bytes) to an [`Unpacker`], which
//! answers with what to do: write the entry to a path relative to the target
//! directory, abort with an error, or nothing more once an error has stopped it.
//! An empty name is replaced by `unnamed_file_<n>`, where `n` counts the unnamed
//! entries of this unpack from 1.

use vstd::prelude::*;
use vstd::string::StringExecFns;
use crate::text::{dec_text, push_decimal};
use crate::error::starts_with;

verus! {

/// An error of unpacking.
pub enum UnpackError {
    /// The package could not be read.
    Bpxp(bpx::error::Error),
    Io(std::io::Error),
    /// An object's name could not be read from the string table.
    Strings(bpx::error::Error),
}

/// An error of packing.
pub enum PackError {
    /// The package could not be written.
    Bpxp(bpx::error::Error),
    /// The container could not be written.
    Bpx(bpx::error::Error),
    Io(std::io::Error),
}

impl UnpackError {
    /// The one-line message that reports the error.
    pub fn message(&self) -> (r: String)
        ensures
            match self {
                UnpackError::Bpxp(_) => starts_with(r@, "BPXP error: "@),
                UnpackError::Io(_) => starts_with(r@, "IO error: "@),
                UnpackError::Strings(_) => starts_with(r@, "Strings error: "@),
            },
    {
        let mut out = String::new();
        match self {
            UnpackError::Bpxp(e) => {
                out.append("BPXP error: ");
                let text = e.to_string();
                out.append(text.as_str());
                assert(out@.subrange(0, "BPXP error: "@.len() as int) =~= "BPXP error: "@);
            },
            UnpackError::Io(e) => {
                out.append("IO error: ");
                let text = e.to_string();
                out.append(text.as_str());
                assert(out@.subrange(0, "IO error: "@.len() as int) =~= "IO error: "@);
            },
            UnpackError::Strings(e) => {
                out.append("Strings error: ");
                let text = e.to_string();
                out.append(text.as_str());
                assert(out@.subrange(0, "Strings error: "@.len() as int) =~= "Strings error: "@);
            },
        }
        out
    }
}

impl PackError {
    /// The one-line message that reports the error.
    pub fn message(&self) -> (r: String)
        ensures
            match self {
                PackError::Bpxp(_) => starts_with(r@, "BPXP error: "@),
                PackError::Bpx(_) => starts_with(r@, "BPX error: "@),
                PackError::Io(_) => starts_with(r@, "IO error: "@),
            },
    {
        let mut out = String::new();
        match self {
            PackError::Bpxp(e) => {
                out.append("BPXP error: ");
                let text = e.to_string();
                out.append(text.as_str());
                assert(out@.subrange(0, "BPXP error: "@.len() as int) =~= "BPXP error: "@);
            },
            PackError::Bpx(e) => {
                out.append("BPX error: ");
                let text = e.to_string();
                out.append(text.as_str());
                assert(out@.subrange(0, "BPX error: "@.len() as int) =~= "BPX error: "@);
            },
            PackError::Io(e) => {
                out.append("IO error: ");
                let text = e.to_string();
                out.append(text.as_str());
                assert(out@.subrange(0, "IO error: "@.len() as int) =~= "IO error: "@);
            },
        }
        out
    }
}

/// What happened to the next entry of the object table.
pub enum UnpackEvent {
    /// Its name resolved to `name`; it holds `size` bytes.
    Entry { name: String, size: u64 },
    /// Its name could not be resolved, or its bytes could not be copied.
    Failure(UnpackError),
}

/// What the caller does next.
pub enum UnpackAction {
    /// Write the entry's bytes to `path`, relative to the target directory,
    /// creating its parent directories and replacing any file there; print
    /// `progress` first where there is one.
    Extract { path: String, progress: Option<String> },
    /// Stop, and report the error.
    Abort(UnpackError),
    /// Nothing: an earlier error has stopped the unpack.
    Halted,
}

/// An event as the decisions see it.
pub enum EventModel {
    Entry(Seq<char>, u64),
    Failure,
}

/// An action as the decisions see it.
pub enum ActionModel {
    Extract(Seq<char>, Option<Seq<char>>),
    Abort,
    Halted,
}

/// The state of an unpack as the decisions see it.
pub struct UnpackModel {
    /// How many unnamed entries have been met.
    pub unnamed: nat,
    pub verbose: bool,
    /// Whether an error has stopped the unpack.
    pub halted: bool,
}

impl View for UnpackEvent {
    type V = EventModel;

    open spec fn view(&self) -> EventModel {
        match self {
            UnpackEvent::Entry { name, size } => EventModel::Entry(name@, *size),
            UnpackEvent::Failure(_) => EventModel::Failure,
        }
    }
}

impl View for UnpackAction {
    type V = ActionModel;

    open spec fn view(&self) -> ActionModel {
        match self {
            UnpackAction::Extract { path, progress } => ActionModel::Extract(
                path@,
                match progress {
                    Some(p) => Some(p@),
                    None => None,
                },
            ),
            UnpackAction::Abort(_) => ActionModel::Abort,
            UnpackAction::Halted => ActionModel::Halted,
        }
    }
}

/// The name given to the `n`-th unnamed entry.
pub open spec fn unnamed_name(n: nat) -> Seq<char> {
    "unnamed_file_"@ + dec_text(n)
}

/// The line printed before an entry is written, in verbose mode.
pub open spec fn progress_text(path: Seq<char>, size: u64) -> Seq<char> {
    "Unpacking object name "@ + path + " with "@ + dec_text(size as nat) + " byte(s)...\n"@
}

/// One decision: the next state and the action for event `e` in state `s`.
pub open spec fn step_model(s: UnpackModel, e: EventModel) -> (UnpackModel, ActionModel) {
    if s.halted {
        (s, ActionModel::Halted)
    } else {
        match e {
            EventModel::Failure => (UnpackModel { halted: true, ..s }, ActionModel::Abort),
            EventModel::Entry(name, size) => {
                let unnamed = if name.len() == 0 { s.unnamed + 1 } else { s.unnamed };
                let path = if name.len() == 0 { unnamed_name(unnamed) } else { name };
                let progress = if s.verbose { Some(progress_text(path, size)) } else { None };
                (UnpackModel { unnamed, ..s }, ActionModel::Extract(path, progress))
            },
        }
    }
}

/// The actions for a run of events from state `s`.
pub open spec fn run_model(s: UnpackModel, events: Seq<EventModel>) -> Seq<ActionModel>
    decreases events.len(),
{
    if events.len() == 0 {
        Seq::empty()
    } else {
        let (next, a) = step_model(s, events[0]);
        seq![a] + run_model(next, events.drop_first())
    }
}

/// The decisions of one unpack.
pub struct Unpacker {
    unnamed_count: u64,
    verbose: bool,
    halted: bool,
}

impl View for Unpacker {
    type V = UnpackModel;

    closed spec fn view(&self) -> UnpackModel {
        UnpackModel { unnamed: self.unnamed_count as nat, verbose: self.verbose, halted: self.halted }
    }
}

/// Appends the name of the `n`-th unnamed entry.
fn push_unnamed_name(out: &mut String, n: u64)
    ensures
        final(out)@ == old(out)@ + unnamed_name(n as nat),
{
    out.append("unnamed_file_");
    push_decimal(out, n);
    assert(final(out)@ =~= old(out)@ + unnamed_name(n as nat));
}

impl Unpacker {
    /// A new unpack: no unnamed entry met yet, not stopped.
    pub fn new(verbose: bool) -> (r: Unpacker)
        ensures
            r@ == (UnpackModel { unnamed: 0, verbose, halted: false }),
    {
        Unpacker { unnamed_count: 0, verbose, halted: false }
    }

    /// How many unnamed entries have been met.
    pub fn unnamed_count(&self) -> (r: u64)
        ensures
            r as nat == self@.unnamed,
    {
        self.unnamed_count
    }

    /// Whether an error has stopped the unpack.
    pub fn is_halted(&self) -> (r: bool)
        ensures
            r == self@.halted,
    {
        self.halted
    }

    /// Decides what to do with the next entry. A failure is handed back in
    /// `Abort` as it came.
    pub fn step(&mut self, event: UnpackEvent) -> (r: UnpackAction)
        requires
            old(self)@.unnamed < u64::MAX,
        ensures
            (final(self)@, r@) == step_model(old(self)@, event@),
            !old(self)@.halted && event is Failure ==> r == UnpackAction::Abort(event->Failure_0),
    {
        if self.halted {
            return UnpackAction::Halted;
        }
        match event {
            UnpackEvent::Failure(e) => {
                self.halted = true;
                UnpackAction::Abort(e)
            },
            UnpackEvent::Entry { name, size } => {
                let path = if name.as_str().is_empty() {
                    self.unnamed_count = self.unnamed_count + 1;
                    let mut p = String::new();
                    push_unnamed_name(&mut p, self.unnamed_count);
                    assert(p@ =~= unnamed_name(self.unnamed_count as nat));
                    p
                } else {
                    name
                };
                let progress = if self.verbose {
                    let mut line = String::new();
                    line.append("Unpacking object name ");
                    line.append(path.as_str());
                    line.append(" with ");
                    push_decimal(&mut line, size);
                    line.append(" byte(s)...\n");
                    assert(line@ =~= progress_text(path@, size));
                    Some(line)
                } else {
                    None
                };
                UnpackAction::Extract { path, progress }
            },
        }
    }
}

/// Whether an event is an entry whose name is empty.
pub open spec fn is_unnamed(e: EventModel) -> bool {
    e matches EventModel::Entry(name, _) && name.len() == 0
}

/// How many of `events` are entries with an empty name.
pub open spec fn count_unnamed(events: Seq<EventModel>) -> nat
    decreases events.len(),
{
    if events.len() == 0 {
        0
    } else {
        (if is_unnamed(events[0]) { 1nat } else { 0nat }) + count_unnamed(events.drop_first())
    }
}

/// The path of an entry named `name`, when `unnamed_before` unnamed entries came before it.
pub open spec fn entry_path(unnamed_before: nat, name: Seq<char>) -> Seq<char> {
    if name.len() == 0 {
        unnamed_name(unnamed_before + 1)
    } else {
        name
    }
}

/// Every event gets one action.
pub proof fn lemma_run_len(s: UnpackModel, events: Seq<EventModel>)
    ensures
        run_model(s, events).len() == events.len(),
    decreases events.len(),
{
    if events.len() > 0 {
        lemma_run_len(step_model(s, events[0]).0, events.drop_first());
    }
}

/// Once stopped, an unpack does nothing more.
pub proof fn lemma_halted_stays(s: UnpackModel, events: Seq<EventModel>)
    requires
        s.halted,
    ensures
        forall|j: int| 0 <= j < events.len() ==> run_model(s, events)[j] == ActionModel::Halted,
    decreases events.len(),
{
    lemma_run_len(s, events);
    if events.len() > 0 {
        lemma_halted_stays(s, events.drop_first());
        lemma_run_len(s, events.drop_first());
        assert forall|j: int| 0 <= j < events.len() implies run_model(s, events)[j] == ActionModel::Halted by {
            if j > 0 {
                assert(run_model(s, events)[j] == run_model(s, events.drop_first())[j - 1]);
            }
        }
    }
}

/// An error stops the unpack: the entry that failed is answered with `Abort`
/// (or nothing, where an earlier error stopped the unpack already), and no entry
/// after it is written.
pub proof fn lemma_failure_stops(s: UnpackModel, events: Seq<EventModel>, k: int)
    requires
        0 <= k < events.len(),
        events[k] is Failure,
    ensures
        run_model(s, events)[k] is Abort || run_model(s, events)[k] is Halted,
        forall|j: int| k < j < events.len() ==> run_model(s, events)[j] == ActionModel::Halted,
    decreases k,
{
    lemma_run_len(s, events);
    let next = step_model(s, events[0]).0;
    let rest = events.drop_first();
    lemma_run_len(next, rest);
    if k == 0 {
        assert(next.halted);
        lemma_halted_stays(next, rest);
        assert forall|j: int| k < j < events.len() implies run_model(s, events)[j] == ActionModel::Halted by {
            assert(run_model(s, events)[j] == run_model(next, rest)[j - 1]);
        }
    } else {
        lemma_failure_stops(next, rest, k - 1);
        assert(run_model(s, events)[k] == run_model(next, rest)[k - 1]);
        assert forall|j: int| k < j < events.len() implies run_model(s, events)[j] == ActionModel::Halted by {
            assert(run_model(s, events)[j] == run_model(next, rest)[j - 1]);
        }
    }
}

/// Where no error came before it, entry `j` is written to its own name, or,
/// where its name is empty, to `unnamed_file_<n>`, where `n` is one more than
/// the unnamed entries before it: from a new unpack the first unnamed entry is
/// `unnamed_file_1` whatever named entries come before it, and unnamed entries
/// are numbered 1, 2, 3, ... in table order.
pub proof fn lemma_entry_paths(s: UnpackModel, events: Seq<EventModel>, j: int)
    requires
        !s.halted,
        0 <= j < events.len(),
        forall|i: int| 0 <= i <= j ==> #[trigger] events[i] is Entry,
    ensures
        run_model(s, events)[j] matches ActionModel::Extract(path, _)
            && path == entry_path(s.unnamed + count_unnamed(events.take(j)), events[j]->Entry_0),
    decreases j,
{
    lemma_run_len(s, events);
    let next = step_model(s, events[0]).0;
    let rest = events.drop_first();
    assert(events[0] is Entry);
    if j == 0 {
        assert(events.take(0) =~= Seq::<EventModel>::empty());
    } else {
        assert forall|i: int| 0 <= i <= j - 1 implies #[trigger] rest[i] is Entry by {
            assert(rest[i] == events[i + 1]);
        }
        lemma_entry_paths(next, rest, j - 1);
        lemma_run_len(next, rest);
        assert(run_model(s, events)[j] == run_model(next, rest)[j - 1]);
        assert(events.take(j).drop_first() =~= rest.take(j - 1));
        assert(events.take(j)[0] == events[0]);
    }
}

} // verus!
