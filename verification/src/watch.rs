use vstd::prelude::*;

use crate::entries::{
    entries_map, insert_entry, keyed_view, keys_sorted, lemma_entries_map_empty,
    lemma_entries_map_push, lemma_sorted_unique,
};

verus! {

/// When a watched path was last modified, as its metadata gives it.
#[derive(Clone, Copy, PartialEq, Eq, Structural, Debug)]
pub enum Modified {
    /// The time could not be read (the path is missing or unreadable).
    Unknown,
    /// Whole seconds and nanoseconds from the Unix epoch; before it when
    /// `before_epoch` is set.
    At { before_epoch: bool, secs: u64, nanos: u32 },
}

impl View for Modified {
    type V = Modified;

    open spec fn view(&self) -> Modified {
        *self
    }
}

/// What one look at the watched paths saw: each path with its modification
/// time (where a path is listed twice, the later listing counts).
pub open spec fn stamps_map(stamps: Seq<(String, Modified)>) -> Map<Seq<char>, Modified> {
    entries_map(keyed_view(stamps))
}

/// One look at the watched paths: the configuration file, the fixtures
/// directory and every entry of it, each with its modification time.
pub struct WatchSnapshot {
    entries: Vec<(String, Modified)>,
}

impl WatchSnapshot {
    /// The paths are kept in increasing order, each once.
    #[verifier::type_invariant]
    closed spec fn sorted(self) -> bool {
        keys_sorted(keyed_view(self.entries@))
    }
}

impl View for WatchSnapshot {
    type V = Map<Seq<char>, Modified>;

    closed spec fn view(&self) -> Map<Seq<char>, Modified> {
        entries_map(keyed_view(self.entries@))
    }
}

impl WatchSnapshot {
    /// The look made of the paths and times read, in whatever order the
    /// directory listed them.
    pub fn take(stamps: Vec<(String, Modified)>) -> (r: WatchSnapshot)
        ensures
            r@ == stamps_map(stamps@),
    {
        let mut entries: Vec<(String, Modified)> = Vec::new();
        proof {
            lemma_entries_map_empty(keyed_view(entries@));
            lemma_entries_map_empty(keyed_view(stamps@.take(0)));
        }
        let mut i: usize = 0;
        while i < stamps.len()
            invariant
                i <= stamps.len(),
                keys_sorted(keyed_view(entries@)),
                entries_map(keyed_view(entries@)) == stamps_map(stamps@.take(i as int)),
            decreases stamps.len() - i,
        {
            let path = stamps[i].0.clone();
            let modified = stamps[i].1;
            insert_entry(&mut entries, path, modified);
            proof {
                let x = (stamps@[i as int].0@, stamps@[i as int].1);
                assert(keyed_view(stamps@.take(i + 1)) =~= keyed_view(stamps@.take(i as int)).push(x));
                lemma_entries_map_push(keyed_view(stamps@.take(i as int)), x);
            }
            i = i + 1;
        }
        proof {
            assert(stamps@.take(stamps.len() as int) =~= stamps@);
        }
        WatchSnapshot { entries }
    }

    /// Whether two looks saw the same paths with the same times.
    pub fn same_as(&self, other: &WatchSnapshot) -> (r: bool)
        ensures
            r == (self@ == other@),
    {
        proof {
            use_type_invariant(self);
            use_type_invariant(other);
        }
        let a = &self.entries;
        let b = &other.entries;
        let ghost av = keyed_view(a@);
        let ghost bv = keyed_view(b@);
        if a.len() != b.len() {
            proof {
                assert(av.len() == a.len() && bv.len() == b.len());
                if self@ == other@ {
                    lemma_sorted_unique(av, bv);
                }
            }
            return false;
        }
        let mut i: usize = 0;
        while i < a.len()
            invariant
                a.len() == b.len(),
                i <= a.len(),
                av == keyed_view(a@),
                bv == keyed_view(b@),
                keys_sorted(av),
                keys_sorted(bv),
                self@ == entries_map(av),
                other@ == entries_map(bv),
                forall|j: int| 0 <= j < i ==> av[j] == bv[j],
            decreases a.len() - i,
        {
            if a[i].0 != b[i].0 || a[i].1 != b[i].1 {
                proof {
                    if self@ == other@ {
                        lemma_sorted_unique(av, bv);
                        assert(av[i as int] == bv[i as int]);
                    }
                }
                return false;
            }
            i = i + 1;
        }
        proof {
            assert(av =~= bv);
        }
        true
    }
}

/// Whether `watch` re-runs the tests: never on its first look, and after
/// that exactly when the look differs from the last one, some watched path
/// having appeared, gone or changed its modification time.
pub fn rerun_needed(last: Option<&WatchSnapshot>, current: &WatchSnapshot) -> (r: bool)
    ensures
        r == (last matches Some(l) && l@ != current@),
{
    match last {
        Some(l) => !l.same_as(current),
        None => false,
    }
}

/// A watched path that appeared, disappeared or was modified between two
/// looks makes them differ, so the next poll re-runs the tests.
pub proof fn lemma_any_change_is_seen(last: WatchSnapshot, current: WatchSnapshot, path: Seq<char>)
    requires
        last@.dom().contains(path) != current@.dom().contains(path) || (last@.dom().contains(path)
            && current@.dom().contains(path) && last@[path] != current@[path]),
    ensures
        last@ != current@,
{
}

} // verus!
