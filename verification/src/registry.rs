//! The handle registry: the single owner of every compiled pattern, keyed by
//! a positive 32-bit handle.
//!
//! Handles are allocated from a counter that starts at 1 and only ever grows,
//! so a handle is never reused within the life of a store; handle 0 is the
//! sentinel for a failed compilation and is never a key.

use crate::engine::CompiledPattern;
use vstd::prelude::*;

verus! {

struct Entry {
    handle: u32,
    pat: CompiledPattern,
}

/// Looks the handle up in the entries, front to back, and yields the pattern
/// text of the matching entry.
spec fn find_entry(entries: Seq<Entry>, h: u32) -> Option<Seq<char>>
    decreases entries.len(),
{
    if entries.len() == 0 {
        None
    } else if entries[0].handle == h {
        Some(entries[0].pat.source_spec())
    } else {
        find_entry(entries.skip(1), h)
    }
}

/// If no entry carries the handle, the lookup misses.
proof fn lemma_find_entry_absent(entries: Seq<Entry>, h: u32)
    requires
        forall|i: int| 0 <= i < entries.len() ==> (#[trigger] entries[i]).handle != h,
    ensures
        find_entry(entries, h) is None,
    decreases entries.len(),
{
    if entries.len() > 0 {
        assert(entries.skip(1) =~= entries.subrange(1, entries.len() as int));
        assert(forall|i: int|
            0 <= i < entries.skip(1).len() ==> (#[trigger] entries.skip(1)[i]).handle != h);
        lemma_find_entry_absent(entries.skip(1), h);
    }
}

/// If the lookup hits, some entry carries the handle.
proof fn lemma_find_entry_present(entries: Seq<Entry>, h: u32)
    requires
        find_entry(entries, h) is Some,
    ensures
        exists|i: int| 0 <= i < entries.len() && (#[trigger] entries[i]).handle == h,
    decreases entries.len(),
{
    if entries.len() > 0 && entries[0].handle != h {
        lemma_find_entry_present(entries.skip(1), h);
        let i = choose|i: int|
            0 <= i < entries.skip(1).len() && (#[trigger] entries.skip(1)[i]).handle == h;
        assert(entries[i + 1].handle == h);
    }
}

/// Appending an entry changes only the lookup of its own handle, and that one
/// only if it missed before.
proof fn lemma_find_entry_push(entries: Seq<Entry>, e: Entry, h: u32)
    ensures
        find_entry(entries.push(e), h) == (if find_entry(entries, h) is Some {
            find_entry(entries, h)
        } else if e.handle == h {
            Some(e.pat.source_spec())
        } else {
            None
        }),
    decreases entries.len(),
{
    if entries.len() == 0 {
        assert(find_entry(entries, h) is None);
        assert(entries.push(e)[0] == e);
        assert(entries.push(e).skip(1) =~= Seq::<Entry>::empty());
        assert(find_entry(entries.push(e).skip(1), h) is None);
        if e.handle == h {
            assert(find_entry(entries.push(e), h) == Some(e.pat.source_spec()));
        } else {
            assert(find_entry(entries.push(e), h) is None);
        }
    } else {
        assert(entries.push(e)[0] == entries[0]);
        assert(entries.push(e).skip(1) =~= entries.skip(1).push(e));
        lemma_find_entry_push(entries.skip(1), e, h);
        if entries[0].handle == h {
            assert(find_entry(entries, h) == Some(entries[0].pat.source_spec()));
            assert(find_entry(entries.push(e), h) == Some(entries.push(e)[0].pat.source_spec()));
        }
    }
}

/// An entry that carries the handle makes the lookup hit.
proof fn lemma_find_entry_hit(entries: Seq<Entry>, i: int)
    requires
        0 <= i < entries.len(),
    ensures
        find_entry(entries, entries[i].handle) is Some,
    decreases entries.len(),
{
    if entries[0].handle != entries[i].handle {
        lemma_find_entry_hit(entries.skip(1), i - 1);
    }
}

/// Removing the entry at `i` erases the lookup of its handle and, when every
/// handle occurs at most once, leaves every other lookup unchanged.
proof fn lemma_find_entry_remove(entries: Seq<Entry>, i: int, h: u32)
    requires
        0 <= i < entries.len(),
        forall|j: int, k: int|
            0 <= j < k < entries.len() ==> (#[trigger] entries[j]).handle != (
            #[trigger] entries[k]).handle,
    ensures
        find_entry(entries.remove(i), h) == (if entries[i].handle == h {
            None
        } else {
            find_entry(entries, h)
        }),
    decreases entries.len(),
{
    if i == 0 {
        assert(entries.remove(0) =~= entries.skip(1));
        if entries[0].handle == h {
            assert(forall|j: int|
                0 <= j < entries.skip(1).len() ==> (#[trigger] entries.skip(1)[j]).handle != h);
            lemma_find_entry_absent(entries.skip(1), h);
        }
    } else {
        assert(entries.remove(i)[0] == entries[0]);
        assert(entries.remove(i).skip(1) =~= entries.skip(1).remove(i - 1));
        assert(forall|j: int, k: int|
            0 <= j < k < entries.skip(1).len() ==> (#[trigger] entries.skip(1)[j]).handle != (
            #[trigger] entries.skip(1)[k]).handle);
        lemma_find_entry_remove(entries.skip(1), i - 1, h);
        assert(entries.skip(1)[i - 1] == entries[i]);
        if entries[i].handle != h && entries[0].handle == h {
            assert(find_entry(entries.remove(i), h) == Some(entries.remove(i)[0].pat.source_spec()));
        }
    }
}

/// The registry of live compiled patterns.  Its observable state is the
/// partial map from handles to pattern texts (`lookup_spec`) and the next
/// handle to allocate (`next_spec`).
pub struct PatternStore {
    entries: Vec<Entry>,
    next: u32,
}

impl PatternStore {
    /// The next handle the store will allocate.
    pub closed spec fn next_spec(self) -> u32 {
        self.next
    }

    /// The pattern text registered under the handle, if the handle is live.
    pub closed spec fn lookup_spec(self, h: u32) -> Option<Seq<char>> {
        find_entry(self.entries@, h)
    }

    /// Whether the handle is live.
    pub open spec fn contains_handle(self, h: u32) -> bool {
        self.lookup_spec(h) is Some
    }

    /// The store's invariant: the counter is positive, every live handle is
    /// positive and below the counter, and no handle occurs twice.
    pub closed spec fn wf(self) -> bool {
        &&& self.next >= 1
        &&& forall|i: int|
            0 <= i < self.entries@.len() ==> 0 < (#[trigger] self.entries@[i]).handle < self.next
        &&& forall|i: int, j: int|
            0 <= i < j < self.entries@.len() ==> (#[trigger] self.entries@[i]).handle != (
            #[trigger] self.entries@[j]).handle
    }

    /// A fresh store: counter at 1, no live handle.
    pub fn new() -> (s: PatternStore)
        ensures
            s.wf(),
            s.next_spec() == 1,
            forall|h: u32| !(#[trigger] s.contains_handle(h)),
    {
        let s = PatternStore { entries: Vec::new(), next: 1 };
        proof {
            assert(forall|h: u32| (#[trigger] s.lookup_spec(h)) is None);
        }
        s
    }

    /// The next handle to be allocated, as a value.
    pub fn next_handle(&self) -> (n: u32)
        ensures
            n == self.next_spec(),
    {
        self.next
    }

    /// Registers a compiled pattern under a fresh handle and advances the
    /// counter.  Only the fresh handle's lookup changes.
    pub fn register(&mut self, p: CompiledPattern) -> (h: u32)
        requires
            old(self).wf(),
            old(self).next_spec() < u32::MAX,
        ensures
            final(self).wf(),
            h == old(self).next_spec(),
            h != 0,
            final(self).next_spec() == old(self).next_spec() + 1,
            final(self).lookup_spec(h) == Some(p.source_spec()),
            forall|h2: u32|
                h2 != h ==> #[trigger] final(self).lookup_spec(h2) == old(self).lookup_spec(h2),
    {
        let h = self.next;
        let ghost old_entries = self.entries@;
        let entry = Entry { handle: h, pat: p };
        proof {
            assert(forall|i: int| 0 <= i < old_entries.len() ==> (#[trigger] old_entries[i]).handle != h);
            lemma_find_entry_absent(old_entries, h);
        }
        self.entries.push(entry);
        self.next = self.next + 1;
        proof {
            assert forall|h2: u32| true implies #[trigger] find_entry(old_entries.push(entry), h2)
                == (if h2 == h {
                Some(entry.pat.source_spec())
            } else {
                find_entry(old_entries, h2)
            }) by {
                lemma_find_entry_push(old_entries, entry, h2);
                if h2 == h {
                    lemma_find_entry_absent(old_entries, h);
                }
            }
        }
        h
    }

    /// Finds the compiled pattern a live handle refers to.
    pub fn lookup(&self, h: u32) -> (r: Option<&CompiledPattern>)
        ensures
            r is Some <==> self.lookup_spec(h) is Some,
            r is Some ==> r->0.source_spec() == self.lookup_spec(h)->0,
    {
        let n = self.entries.len();
        let mut i: usize = 0;
        proof {
            assert(self.entries@.skip(0) =~= self.entries@);
        }
        while i < n
            invariant
                i <= n,
                n == self.entries@.len(),
                find_entry(self.entries@, h) == find_entry(self.entries@.skip(i as int), h),
                forall|j: int| 0 <= j < i ==> (#[trigger] self.entries@[j]).handle != h,
            decreases n - i,
        {
            proof {
                assert(self.entries@.skip(i as int)[0] == self.entries@[i as int]);
            }
            if self.entries[i].handle == h {
                return Some(&self.entries[i].pat);
            }
            proof {
                assert(self.entries@.skip(i as int).skip(1) =~= self.entries@.skip(i as int + 1));
            }
            i = i + 1;
        }
        proof {
            assert(self.entries@.skip(n as int) =~= Seq::<Entry>::empty());
        }
        None
    }

    /// Removes the handle's entry if it is live; removing an unknown handle
    /// changes nothing at all.  The counter never moves, so the handle is not
    /// reused later.
    pub fn unregister(&mut self, h: u32)
        requires
            old(self).wf(),
        ensures
            final(self).wf(),
            final(self).next_spec() == old(self).next_spec(),
            final(self).lookup_spec(h) is None,
            forall|h2: u32|
                h2 != h ==> #[trigger] final(self).lookup_spec(h2) == old(self).lookup_spec(h2),
            old(self).lookup_spec(h) is None ==> *final(self) == *old(self),
    {
        let ghost old_entries = self.entries@;
        let n = self.entries.len();
        let mut i: usize = 0;
        while i < n
            invariant
                i <= n,
                n == self.entries@.len(),
                self.entries@ == old_entries,
                self.next == old(self).next,
                *self == *old(self),
                old(self).wf(),
                forall|j: int| 0 <= j < i ==> (#[trigger] old_entries[j]).handle != h,
            decreases n - i,
        {
            if self.entries[i].handle == h {
                proof {
                    lemma_find_entry_hit(old_entries, i as int);
                }
                self.entries.remove(i);
                proof {
                    assert forall|h2: u32| true implies #[trigger] find_entry(
                        old_entries.remove(i as int),
                        h2,
                    ) == (if h2 == h {
                        None::<Seq<char>>
                    } else {
                        find_entry(old_entries, h2)
                    }) by {
                        lemma_find_entry_remove(old_entries, i as int, h2);
                    }
                    assert(forall|k: int|
                        0 <= k < self.entries@.len() ==> self.entries@[k]
                            == if k < i { old_entries[k] } else { old_entries[k + 1] });
                }
                return ;
            }
            i = i + 1;
        }
        proof {
            lemma_find_entry_absent(old_entries, h);
        }
    }
}

/// Law: every live handle of a well-formed store is positive and lies below
/// the allocation counter.  Together with the contracts of the operations
/// (compilation hands out exactly the counter's value and advances it, and no
/// operation ever decreases the counter) this makes the handles returned by
/// any sequence of successful compilations pairwise distinct and nonzero.
pub proof fn lemma_live_handles_bounded(s: PatternStore, h: u32)
    requires
        s.wf(),
        s.contains_handle(h),
    ensures
        0 < h < s.next_spec(),
{
    lemma_find_entry_present(s.entries@, h);
}

/// Law (handle uniqueness): a handle allocated when the counter stood at
/// `s0.next_spec()` differs from zero and from every handle live in `s0`,
/// and lies strictly below the counter of every later state, so no later
/// state can allocate it again.
pub proof fn lemma_handle_uniqueness(s0: PatternStore, h1: u32, s1: PatternStore)
    requires
        s0.wf(),
        h1 == s0.next_spec(),
        s0.next_spec() < s1.next_spec(),
    ensures
        h1 != 0,
        !s0.contains_handle(h1),
        h1 < s1.next_spec(),
{
    if s0.contains_handle(h1) {
        lemma_live_handles_bounded(s0, h1);
    }
}

/// Law (dispose idempotence): disposing a handle that is already absent
/// leaves every observation of the store unchanged, so a second disposal of
/// the same handle, or a disposal of a handle never issued, has no effect.
pub proof fn lemma_dispose_idempotent(s0: PatternStore, s1: PatternStore, h: u32)
    requires
        s0.lookup_spec(h) is None,
        s1.next_spec() == s0.next_spec(),
        s1.lookup_spec(h) is None,
        forall|h2: u32| h2 != h ==> #[trigger] s1.lookup_spec(h2) == s0.lookup_spec(h2),
    ensures
        forall|h2: u32| #[trigger] s1.lookup_spec(h2) == s0.lookup_spec(h2),
{
}

} // verus!
