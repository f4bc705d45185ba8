//! The change aggregator: the state a debounce window accumulates, and the
//! driver loop's event classification.
//!
//! Raw watcher events arrive arbitrarily often. Each relevant event path is
//! scoped to the base directory, filtered through the ignore rules, dropped
//! while the self-inhibition flag is set, and otherwise recorded in a
//! deduplicated, canonically ordered pending set. A debounce tick then takes
//! the next [`Action`]: a pending custom trigger first, else the accumulated
//! changes, else nothing.

use crate::filter::{query_rules, verdict_of, IgnoreVerdict};
use crate::order::{insert_sorted, sorted_unique};
use crate::paths::{is_absolute, lemma_canonical_rel_clean, relative_to_base, strip_rel};
use ignore::gitignore::Gitignore;
use vstd::prelude::*;

verus! {

/// What one debounce tick hands the pipeline runner.
#[derive(Debug, PartialEq, Eq)]
pub enum Action {
    /// Nothing accumulated: the runner does nothing.
    Nothing,
    /// A one-shot, non-file-based trigger reason.
    Custom(String),
    /// The relative paths that changed, deduplicated and in bytewise
    /// lexicographic order.
    FilesChanged(Vec<Vec<u8>>),
}

impl Action {
    /// Whether this action triggers a command batch: anything but `Nothing`.
    pub fn triggers_run(&self) -> (b: bool)
        ensures
            b == !(self is Nothing),
    {
        match self {
            Action::Nothing => false,
            Action::Custom(_) => true,
            Action::FilesChanged(_) => true,
        }
    }
}

/// A raw filesystem event as the watcher delivers it, possibly spurious or
/// duplicated.
#[derive(Debug, Clone)]
pub enum RawEvent {
    Created(Vec<u8>),
    Written(Vec<u8>),
    Removed(Vec<u8>),
    /// A rename carries both ends; each is recorded on its own.
    Renamed(Vec<u8>, Vec<u8>),
    /// Metadata-only change: never recorded.
    MetadataOnly(Vec<u8>),
    /// The event source asks for a rescan: logged by the driver, no state
    /// change.
    RescanRequested,
    /// An event-source error for a specific path: logged by the driver, no
    /// state change.
    ErrorEvent(String, Option<Vec<u8>>),
}

/// The mathematical state of the aggregator.
pub ghost struct AggregatorModel {
    /// The absolute base directory being watched.
    pub base: Seq<u8>,
    /// The compiled ignore rules.
    pub rules: Gitignore,
    /// The self-inhibition flag: while set, observed changes are dropped so
    /// that a running command batch cannot retrigger itself.
    pub inhibited: bool,
    /// The pending one-shot trigger reason, if any.
    pub custom: Option<Seq<char>>,
    /// The pending set of changed relative paths.
    pub pending: Set<Seq<u8>>,
}

/// One `add` step on the model: scope the path to the base directory, filter
/// it through the ignore rules and the inhibition flag, and record its
/// relative form.
pub open spec fn add_spec(m: AggregatorModel, path: Seq<u8>) -> AggregatorModel {
    match strip_rel(m.base, path) {
        Option::Some(rel) => {
            if verdict_of(m.rules, rel) is Ignored {
                m
            } else if m.inhibited {
                m
            } else {
                AggregatorModel {
                    base: m.base,
                    rules: m.rules,
                    inhibited: m.inhibited,
                    custom: m.custom,
                    pending: m.pending.insert(rel),
                }
            }
        },
        Option::None => m,
    }
}

/// Registering a custom one-shot trigger reason overwrites any earlier one.
pub open spec fn add_custom_spec(m: AggregatorModel, reason: Seq<char>) -> AggregatorModel {
    AggregatorModel {
        base: m.base,
        rules: m.rules,
        inhibited: m.inhibited,
        custom: Option::Some(reason),
        pending: m.pending,
    }
}

/// The state after one debounce tick takes its action: a custom trigger
/// clears both the reason and the pending set and inhibits; pending changes
/// are flushed and inhibit; an empty state is untouched.
pub open spec fn take_state_spec(m: AggregatorModel) -> AggregatorModel {
    if m.custom is Some || m.pending != Set::<Seq<u8>>::empty() {
        AggregatorModel {
            base: m.base,
            rules: m.rules,
            inhibited: true,
            custom: Option::None,
            pending: Set::empty(),
        }
    } else {
        m
    }
}

/// Clearing the self-inhibition flag; everything else is kept.
pub open spec fn clear_spec(m: AggregatorModel) -> AggregatorModel {
    AggregatorModel {
        base: m.base,
        rules: m.rules,
        inhibited: false,
        custom: m.custom,
        pending: m.pending,
    }
}

/// One driver-loop dispatch step on the model: create, write and remove
/// record the path, a rename records both ends, everything else changes
/// nothing.
pub open spec fn event_spec(m: AggregatorModel, ev: RawEvent) -> AggregatorModel {
    match ev {
        RawEvent::Created(p) => add_spec(m, p@),
        RawEvent::Written(p) => add_spec(m, p@),
        RawEvent::Removed(p) => add_spec(m, p@),
        RawEvent::Renamed(src, dst) => add_spec(add_spec(m, src@), dst@),
        RawEvent::MetadataOnly(_) => m,
        RawEvent::RescanRequested => m,
        RawEvent::ErrorEvent(_, _) => m,
    }
}

/// The debounce window's accumulated state.
pub struct Changes {
    base_dir: Vec<u8>,
    gitignore: Gitignore,
    ignore_changes: bool,
    custom: Option<String>,
    changed: Vec<Vec<u8>>,
}

impl View for Changes {
    type V = AggregatorModel;

    closed spec fn view(&self) -> AggregatorModel {
        AggregatorModel {
            base: self.base_dir@,
            rules: self.gitignore,
            inhibited: self.ignore_changes,
            custom: self.custom.deep_view(),
            pending: self.changed.deep_view().to_set(),
        }
    }
}

impl Changes {
    /// Internal well-formedness: the base directory is absolute and the
    /// pending set is kept sorted and duplicate-free.
    pub closed spec fn wf(self) -> bool {
        &&& is_absolute(self.base_dir@)
        &&& sorted_unique(self.changed.deep_view())
    }

    /// Builds the aggregator over an absolute base directory and compiled
    /// ignore rules; nothing is pending and inhibition is off.
    pub fn new(base_dir: Vec<u8>, gitignore: Gitignore) -> (c: Changes)
        requires
            is_absolute(base_dir@),
        ensures
            c.wf(),
            c@.base == base_dir@,
            c@.rules == gitignore,
            !c@.inhibited,
            c@.custom is None,
            c@.pending == Set::<Seq<u8>>::empty(),
    {
        let c = Changes {
            base_dir,
            gitignore,
            ignore_changes: false,
            custom: Option::None,
            changed: Vec::new(),
        };
        proof {
            assert(c.changed.deep_view() =~= Seq::<Seq<u8>>::empty());
            assert(c.changed.deep_view().to_set() =~= Set::<Seq<u8>>::empty());
        }
        c
    }

    /// Registers a one-shot trigger reason, overwriting any pending one.
    pub fn add_custom(&mut self, reason: String)
        requires
            old(self).wf(),
        ensures
            final(self).wf(),
            final(self)@ == add_custom_spec(old(self)@, reason@),
    {
        self.custom = Option::Some(reason);
    }

    /// Records one observed path: scoped to the base directory, filtered
    /// through the ignore rules, dropped while inhibited, inserted into the
    /// pending set otherwise.
    pub fn add(&mut self, path: &Vec<u8>)
        requires
            old(self).wf(),
        ensures
            final(self).wf(),
            final(self)@ == add_spec(old(self)@, path@),
    {
        let stripped = relative_to_base(&self.base_dir, path);
        match stripped {
            Option::Some(rel) => {
                proof {
                    lemma_canonical_rel_clean(path@.skip(self.base_dir@.len() as int));
                }
                let verdict = query_rules(&self.gitignore, &rel);
                match verdict {
                    IgnoreVerdict::Ignored => {
                        // suppressed by the ignore rules
                    },
                    IgnoreVerdict::Whitelisted | IgnoreVerdict::NoMatch => {
                        if self.ignore_changes {
                            // dropped: a running batch's own side effects
                        } else {
                            insert_sorted(&mut self.changed, rel);
                        }
                    },
                }
            },
            Option::None => {
                // outside the base directory: dropped
            },
        }
    }

    /// Takes the next action for one debounce tick: a pending custom reason
    /// first, discarding incidental file changes; else the accumulated
    /// change set in canonical order; else nothing. Taking a non-`Nothing`
    /// action sets the inhibition flag.
    pub fn take_current_action(&mut self) -> (action: Action)
        requires
            old(self).wf(),
        ensures
            final(self).wf(),
            final(self)@ == take_state_spec(old(self)@),
            action is Nothing <==> (old(self)@.custom is None && old(self)@.pending == Set::<
                Seq<u8>,
            >::empty()),
            match action {
                Action::Custom(reason) => old(self)@.custom == Option::Some(reason@),
                Action::FilesChanged(files) => {
                    &&& old(self)@.custom is None
                    &&& files.deep_view().to_set() == old(self)@.pending
                    &&& sorted_unique(files.deep_view())
                    &&& files@.len() > 0
                },
                Action::Nothing => old(self)@.custom is None && old(self)@.pending == Set::<
                    Seq<u8>,
                >::empty(),
            },
    {
        let cur = self.custom.take();
        match cur {
            Option::Some(reason) => {
                self.changed = Vec::new();
                self.ignore_changes = true;
                proof {
                    assert(self.changed.deep_view() =~= Seq::<Seq<u8>>::empty());
                    assert(self.changed.deep_view().to_set() =~= Set::<Seq<u8>>::empty());
                }
                Action::Custom(reason)
            },
            Option::None => {
                if self.changed.len() > 0 {
                    let mut flushed: Vec<Vec<u8>> = Vec::new();
                    core::mem::swap(&mut flushed, &mut self.changed);
                    self.ignore_changes = true;
                    proof {
                        assert(self.changed.deep_view() =~= Seq::<Seq<u8>>::empty());
                        assert(self.changed.deep_view().to_set() =~= Set::<Seq<u8>>::empty());
                        assert(flushed.deep_view().to_set().contains(flushed.deep_view()[0]));
                        assert(flushed.deep_view().to_set() != Set::<Seq<u8>>::empty());
                    }
                    Action::FilesChanged(flushed)
                } else {
                    proof {
                        assert(self.changed.deep_view() =~= Seq::<Seq<u8>>::empty());
                        assert(self.changed.deep_view().to_set() =~= Set::<Seq<u8>>::empty());
                    }
                    Action::Nothing
                }
            },
        }
    }

    /// The pipeline runner's signal that its command batch is over, however
    /// it ended: observed changes count again. Clears only the inhibition
    /// flag.
    pub fn clear_inhibition(&mut self)
        requires
            old(self).wf(),
        ensures
            final(self).wf(),
            final(self)@ == clear_spec(old(self)@),
    {
        self.ignore_changes = false;
    }
}

/// Classifies one raw watcher event and applies it to the aggregator.
pub fn apply_event(changes: &mut Changes, ev: &RawEvent)
    requires
        old(changes).wf(),
    ensures
        final(changes).wf(),
        final(changes)@ == event_spec(old(changes)@, *ev),
{
    match ev {
        RawEvent::Created(p) => changes.add(p),
        RawEvent::Written(p) => changes.add(p),
        RawEvent::Removed(p) => changes.add(p),
        RawEvent::Renamed(src, dst) => {
            changes.add(src);
            changes.add(dst);
        },
        RawEvent::MetadataOnly(_) => {},
        RawEvent::RescanRequested => {},
        RawEvent::ErrorEvent(_, _) => {},
    }
}

} // verus!
