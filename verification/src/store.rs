//! TrashStore: the ledger of holding-area entries.
//!
//! The store is an in-memory snapshot of the holding area, rebuilt from the
//! live state at the start of each invocation; it owns the entry metadata for
//! the duration of the process. Its invariant is that no two live entries
//! share a name, so a name identifies exactly one entry. Mutations mirror the
//! lifecycle: an entry appears on insert (the item moved into the holding
//! area) and disappears on restore (moved back) or purge (permanently
//! deleted). The filesystem moves themselves are carried out by the caller,
//! which feeds their outcomes in as plain values.
//!
//! The holding area is shared, OS-scoped state. Two concurrent invocations
//! racing on the same name are not protected: the check-then-insert sequence
//! of conflict resolution is not atomic across processes, and only the
//! atomicity of the underlying rename primitive bounds such a race. The
//! invariant here speaks of one snapshot within one invocation.

use vstd::prelude::*;

use crate::conflict::seq_views;
use crate::retention::{is_expired, is_expired_spec};

verus! {

/// One item held in the trash: the name it is stored under, the absolute path
/// it was moved from, and the moment it was moved in (seconds since epoch,
/// immutable once set).
#[derive(Debug)]
pub struct TrashEntry {
    pub name: String,
    pub original_location: String,
    pub deleted_at: i64,
}

impl Clone for TrashEntry {
    fn clone(&self) -> (r: Self)
        ensures
            r == *self,
    {
        TrashEntry {
            name: self.name.clone(),
            original_location: self.original_location.clone(),
            deleted_at: self.deleted_at,
        }
    }
}

/// The names of a run of entries, in order.
pub open spec fn names_of(entries: Seq<TrashEntry>) -> Seq<Seq<char>> {
    entries.map_values(|e: TrashEntry| e.name@)
}

/// Whether an entry is expired at `now` under `window_days`.
pub open spec fn entry_expired(e: TrashEntry, now: int, window_days: int) -> bool {
    is_expired_spec(e.deleted_at as int, now, window_days)
}

/// Errors of ledger operations. Failures of the underlying filesystem moves
/// are reported by the caller that performs them; the ledger itself can only
/// fail to find a name, refuse a nameless path, or refuse to restore onto an
/// existing file.
#[derive(Clone, Copy, Debug, PartialEq, Eq, Structural)]
pub enum TrashError {
    /// No holding-area entry bears the requested name.
    NotFound,
    /// The path to remove has no filename component.
    InvalidName,
    /// A file already sits at the entry's original location; restoring would
    /// overwrite it, so the entry is left in the holding area untouched.
    RestoreConflict,
}

/// Entries deduplicated by name, keeping the first entry of each name.
pub open spec fn dedup_by_name(entries: Seq<TrashEntry>) -> Seq<TrashEntry>
    decreases entries.len(),
{
    if entries.len() == 0 {
        entries
    } else {
        let front = dedup_by_name(entries.drop_last());
        if names_of(front).contains(entries.last().name@) {
            front
        } else {
            front.push(entries.last())
        }
    }
}

/// Deduplication keeps exactly the names that were there, without duplicates.
pub proof fn lemma_dedup_by_name(entries: Seq<TrashEntry>)
    ensures
        names_of(dedup_by_name(entries)).no_duplicates(),
        forall|n: Seq<char>| names_of(dedup_by_name(entries)).contains(n) == names_of(
            entries,
        ).contains(n),
    decreases entries.len(),
{
    if entries.len() == 0 {
    } else {
        let d = entries.drop_last();
        let front = dedup_by_name(d);
        lemma_dedup_by_name(d);
        let last = entries.last();
        assert forall|n: Seq<char>| names_of(entries).contains(n) implies names_of(
            dedup_by_name(entries),
        ).contains(n) by {
            let i = choose|i: int| 0 <= i < entries.len() && names_of(entries)[i] == n;
            if i < d.len() {
                assert(names_of(d)[i] == n);
                assert(names_of(d).contains(n));
                if !names_of(front).contains(last.name@) {
                    let j = choose|j: int| 0 <= j < front.len() && names_of(front)[j] == n;
                    assert(names_of(front.push(last))[j] == n);
                }
            } else {
                assert(n == last.name@);
                if !names_of(front).contains(last.name@) {
                    assert(names_of(front.push(last))[front.len() as int] == n);
                }
            }
        }
        assert forall|n: Seq<char>| names_of(dedup_by_name(entries)).contains(n) implies names_of(
            entries,
        ).contains(n) by {
            let out = dedup_by_name(entries);
            let i = choose|i: int| 0 <= i < out.len() && names_of(out)[i] == n;
            if names_of(front).contains(last.name@) {
                assert(names_of(d).contains(n));
                let j = choose|j: int| 0 <= j < d.len() && names_of(d)[j] == n;
                assert(names_of(entries)[j] == n);
            } else {
                if i < front.len() {
                    assert(names_of(front)[i] == n);
                    assert(names_of(d).contains(n));
                    let j = choose|j: int| 0 <= j < d.len() && names_of(d)[j] == n;
                    assert(names_of(entries)[j] == n);
                } else {
                    assert(n == last.name@);
                    assert(names_of(entries)[entries.len() - 1] == n);
                }
            }
        }
        if !names_of(front).contains(last.name@) {
            lemma_push_no_dup(names_of(front), last.name@);
            assert(names_of(front.push(last)) =~= names_of(front).push(last.name@));
        }
    }
}

/// A name not yet present can be appended without creating a duplicate.
proof fn lemma_push_no_dup(s: Seq<Seq<char>>, x: Seq<char>)
    requires
        s.no_duplicates(),
        !s.contains(x),
    ensures
        s.push(x).no_duplicates(),
{
    let t = s.push(x);
    assert forall|p: int, q: int|
        0 <= p < t.len() && 0 <= q < t.len() && p != q implies t[p] != t[q] by {
        if p == s.len() && t[q] == x {
            assert(s[q] == x);
            assert(s.contains(x));
        } else if q == s.len() && t[p] == x {
            assert(s[p] == x);
            assert(s.contains(x));
        }
    }
}

/// The ledger of holding-area entries.
pub struct TrashStore {
    pub entries: Vec<TrashEntry>,
}

impl View for TrashStore {
    type V = Seq<TrashEntry>;

    open spec fn view(&self) -> Seq<TrashEntry> {
        self.entries@
    }
}

impl TrashStore {
    /// The store never holds two entries of the same name.
    pub open spec fn wf(self) -> bool {
        names_of(self@).no_duplicates()
    }

    /// An empty ledger.
    pub fn new() -> (s: Self)
        ensures
            s@ == Seq::<TrashEntry>::empty(),
            s.wf(),
    {
        let s = TrashStore { entries: Vec::new() };
        proof {
            assert(names_of(s@) =~= Seq::<Seq<char>>::empty());
        }
        s
    }

    /// Build the ledger from a raw enumeration of the holding area, keeping
    /// the first entry of each name.
    pub fn from_entries(entries: Vec<TrashEntry>) -> (s: Self)
        ensures
            s@ == dedup_by_name(entries@),
            s.wf(),
    {
        let mut out: Vec<TrashEntry> = Vec::new();
        let mut i: usize = 0;
        proof {
            assert(entries@.subrange(0, 0) =~= Seq::<TrashEntry>::empty());
            assert(names_of(out@) =~= Seq::<Seq<char>>::empty());
        }
        while i < entries.len()
            invariant
                i <= entries@.len(),
                out@ == dedup_by_name(entries@.subrange(0, i as int)),
            decreases entries@.len() - i,
        {
            let e = entries[i].clone();
            let keep = !contains_entry_name(&out, &e.name);
            proof {
                assert(entries@.subrange(0, i + 1).drop_last() =~= entries@.subrange(0, i as int));
                assert(entries@.subrange(0, i + 1).last() == entries@[i as int]);
            }
            if keep {
                out.push(e);
            }
            i = i + 1;
        }
        proof {
            assert(entries@.subrange(0, entries@.len() as int) =~= entries@);
            lemma_dedup_by_name(entries@);
        }
        TrashStore { entries: out }
    }

    /// Number of held entries.
    pub fn len(&self) -> (n: usize)
        ensures
            n == self@.len(),
    {
        self.entries.len()
    }

    /// The current snapshot of holding-area contents, in insertion order.
    /// Read-only: querying twice without a mutation in between yields the
    /// same entries.
    pub fn enumerate(&self) -> (r: &Vec<TrashEntry>)
        ensures
            r@ == self@,
    {
        &self.entries
    }

    /// The held names, in order, for conflict resolution.
    pub fn names_vec(&self) -> (r: Vec<String>)
        ensures
            seq_views(r@) == names_of(self@),
    {
        let mut out: Vec<String> = Vec::new();
        let mut i: usize = 0;
        while i < self.entries.len()
            invariant
                i <= self@.len(),
                out@.len() == i,
                forall|j: int| 0 <= j < i ==> out@[j]@ == self@[j].name@,
            decreases self@.len() - i,
        {
            out.push(self.entries[i].name.clone());
            i = i + 1;
        }
        proof {
            assert(seq_views(out@) =~= names_of(self@));
        }
        out
    }

    /// Index of the first entry named `name`, if any; under `wf` the only
    /// one.
    pub fn lookup(&self, name: &String) -> (r: Option<usize>)
        ensures
            match r {
                Some(i) => {
                    &&& i < self@.len()
                    &&& self@[i as int].name@ == name@
                    &&& forall|j: int| 0 <= j < i ==> self@[j].name@ != name@
                },
                None => !names_of(self@).contains(name@),
            },
    {
        let mut i: usize = 0;
        while i < self.entries.len()
            invariant
                i <= self@.len(),
                forall|j: int| 0 <= j < i ==> self@[j].name@ != name@,
            decreases self@.len() - i,
        {
            if self.entries[i].name.eq(name) {
                return Some(i);
            }
            i = i + 1;
        }
        proof {
            if names_of(self@).contains(name@) {
                let j = choose|j: int| 0 <= j < self@.len() && names_of(self@)[j] == name@;
                assert(self@[j].name@ == name@);
            }
        }
        None
    }

    /// Whether an entry named `name` is held.
    pub fn contains_name(&self, name: &String) -> (b: bool)
        ensures
            b == names_of(self@).contains(name@),
    {
        proof {
            if names_of(self@).contains(name@) {
                let j = choose|j: int| 0 <= j < self@.len() && names_of(self@)[j] == name@;
                assert(self@[j].name@ == name@);
            }
        }
        match self.lookup(name) {
            Some(i) => {
                proof {
                    assert(names_of(self@)[i as int] == name@);
                }
                true
            },
            None => false,
        }
    }

    /// Record a move-in under a name no held entry bears. The caller resolves
    /// conflicts first; overwriting a held entry is disallowed, so a taken
    /// name is refused by precondition.
    pub fn insert(&mut self, entry: TrashEntry)
        requires
            old(self).wf(),
            !names_of(old(self)@).contains(entry.name@),
        ensures
            final(self)@ == old(self)@.push(entry),
            final(self).wf(),
    {
        proof {
            lemma_push_no_dup(names_of(self@), entry.name@);
            assert(names_of(self@.push(entry)) =~= names_of(self@).push(entry.name@));
        }
        self.entries.push(entry);
    }

    /// Remove the entry named `name` from the ledger, handing it back; no
    /// entry of that name is held afterwards. `None` and no change when no
    /// entry bears the name.
    pub fn remove_by_name(&mut self, name: &String) -> (r: Option<TrashEntry>)
        requires
            old(self).wf(),
        ensures
            final(self).wf(),
            !names_of(final(self)@).contains(name@),
            match r {
                Some(e) => exists|i: int|
                    {
                        &&& 0 <= i < old(self)@.len()
                        &&& old(self)@[i].name@ == name@
                        &&& e == old(self)@[i]
                        &&& final(self)@ == old(self)@.remove(i)
                    },
                None => final(self)@ == old(self)@ && !names_of(old(self)@).contains(name@),
            },
    {
        match self.lookup(name) {
            Some(i) => {
                let e = self.entries.remove(i);
                proof {
                    lemma_names_remove_no_dup(old(self)@, i as int);
                    if names_of(self@).contains(name@) {
                        let p = choose|p: int|
                            0 <= p < self@.len() && names_of(self@)[p] == name@;
                        let q = if p < i {
                            p
                        } else {
                            p + 1
                        };
                        assert(self@[p] == old(self)@[q]);
                        assert(names_of(old(self)@)[q] == name@);
                        assert(names_of(old(self)@)[i as int] == name@);
                    }
                }
                Some(e)
            },
            None => None,
        }
    }
}

/// Keeps entries still within the retention window.
pub open spec fn within_pred(now: int, window_days: int) -> spec_fn(TrashEntry) -> bool {
    |e: TrashEntry| !entry_expired(e, now, window_days)
}

/// Keeps entries beyond the retention window.
pub open spec fn expired_pred(now: int, window_days: int) -> spec_fn(TrashEntry) -> bool {
    |e: TrashEntry| entry_expired(e, now, window_days)
}

impl TrashStore {
    /// The entries still within the retention window: deleted less than
    /// `window_days` days before `now`. Used by time-bounded list and
    /// recover-all; a window of zero days keeps nothing here, so callers
    /// treat zero as "no filter" and call `enumerate` instead.
    pub fn entries_within(&self, now: i64, window_days: i64) -> (r: Vec<TrashEntry>)
        ensures
            r@ == self@.filter(within_pred(now as int, window_days as int)),
    {
        let ghost p = within_pred(now as int, window_days as int);
        let mut out: Vec<TrashEntry> = Vec::new();
        let mut i: usize = 0;
        proof {
            assert(self@.subrange(0, 0).filter(p) =~= Seq::<TrashEntry>::empty());
        }
        while i < self.entries.len()
            invariant
                i <= self@.len(),
                p == within_pred(now as int, window_days as int),
                out@ == self@.subrange(0, i as int).filter(p),
            decreases self@.len() - i,
        {
            let keep = !is_expired(self.entries[i].deleted_at, now, window_days);
            proof {
                reveal(Seq::filter);
                assert(self@.subrange(0, i + 1).drop_last() =~= self@.subrange(0, i as int));
                assert(self@.subrange(0, i + 1).last() == self@[i as int]);
                assert(keep == p(self@[i as int]));
            }
            if keep {
                out.push(self.entries[i].clone());
            }
            i = i + 1;
        }
        proof {
            assert(self@.subrange(0, self@.len() as int) =~= self@);
        }
        out
    }

    /// The entries beyond the retention window: the set that a tidy of
    /// `window_days` days permanently deletes.
    pub fn entries_expired(&self, now: i64, window_days: i64) -> (r: Vec<TrashEntry>)
        ensures
            r@ == self@.filter(expired_pred(now as int, window_days as int)),
    {
        let ghost p = expired_pred(now as int, window_days as int);
        let mut out: Vec<TrashEntry> = Vec::new();
        let mut i: usize = 0;
        proof {
            assert(self@.subrange(0, 0).filter(p) =~= Seq::<TrashEntry>::empty());
        }
        while i < self.entries.len()
            invariant
                i <= self@.len(),
                p == expired_pred(now as int, window_days as int),
                out@ == self@.subrange(0, i as int).filter(p),
            decreases self@.len() - i,
        {
            let keep = is_expired(self.entries[i].deleted_at, now, window_days);
            proof {
                reveal(Seq::filter);
                assert(self@.subrange(0, i + 1).drop_last() =~= self@.subrange(0, i as int));
                assert(self@.subrange(0, i + 1).last() == self@[i as int]);
                assert(keep == p(self@[i as int]));
            }
            if keep {
                out.push(self.entries[i].clone());
            }
            i = i + 1;
        }
        proof {
            assert(self@.subrange(0, self@.len() as int) =~= self@);
        }
        out
    }

    /// Permanently drop every expired entry from the ledger, handing back the
    /// dropped entries; entries within the window stay, in order.
    pub fn tidy(&mut self, now: i64, window_days: i64) -> (purged: Vec<TrashEntry>)
        requires
            old(self).wf(),
        ensures
            purged@ == old(self)@.filter(expired_pred(now as int, window_days as int)),
            final(self)@ == old(self)@.filter(within_pred(now as int, window_days as int)),
            final(self).wf(),
    {
        let purged = self.entries_expired(now, window_days);
        let kept = self.entries_within(now, window_days);
        proof {
            lemma_filter_no_dup(self@, within_pred(now as int, window_days as int));
        }
        self.entries = kept;
        purged
    }

    /// Restore the entry named `name`: drop it from the ledger and hand it
    /// back so the caller can move its content to `original_location`.
    /// `dest_exists` reports whether a file already sits there; restoring
    /// must not overwrite it, so the entry then stays held and the item
    /// fails with `RestoreConflict`. An unknown name fails with `NotFound`.
    pub fn restore_one(&mut self, name: &String, dest_exists: bool) -> (r: Result<
        TrashEntry,
        TrashError,
    >)
        requires
            old(self).wf(),
        ensures
            final(self).wf(),
            !names_of(old(self)@).contains(name@) ==> r == Err::<TrashEntry, TrashError>(
                TrashError::NotFound,
            ) && final(self)@ == old(self)@,
            names_of(old(self)@).contains(name@) && dest_exists ==> r == Err::<
                TrashEntry,
                TrashError,
            >(TrashError::RestoreConflict) && final(self)@ == old(self)@,
            names_of(old(self)@).contains(name@) && !dest_exists ==> (r matches Ok(e)
                && exists|i: int|
                {
                    &&& 0 <= i < old(self)@.len()
                    &&& old(self)@[i].name@ == name@
                    &&& e == old(self)@[i]
                    &&& final(self)@ == old(self)@.remove(i)
                }),
            names_of(old(self)@).contains(name@) && !dest_exists ==> !names_of(
                final(self)@,
            ).contains(name@),
    {
        if !self.contains_name(name) {
            return Err(TrashError::NotFound);
        }
        if dest_exists {
            return Err(TrashError::RestoreConflict);
        }
        match self.remove_by_name(name) {
            Some(e) => Ok(e),
            None => {
                assert(false);
                Err(TrashError::NotFound)
            },
        }
    }

    /// Permanently delete the entry named `name` from the ledger, handing it
    /// back so the caller can delete its content. Only a currently held name
    /// can be purged; an unknown one fails with `NotFound`.
    pub fn purge_one(&mut self, name: &String) -> (r: Result<TrashEntry, TrashError>)
        requires
            old(self).wf(),
        ensures
            final(self).wf(),
            !names_of(old(self)@).contains(name@) ==> r == Err::<TrashEntry, TrashError>(
                TrashError::NotFound,
            ) && final(self)@ == old(self)@,
            names_of(old(self)@).contains(name@) ==> (r matches Ok(e) && exists|i: int|
                {
                    &&& 0 <= i < old(self)@.len()
                    &&& old(self)@[i].name@ == name@
                    &&& e == old(self)@[i]
                    &&& final(self)@ == old(self)@.remove(i)
                }),
            names_of(old(self)@).contains(name@) ==> !names_of(final(self)@).contains(name@),
    {
        match self.remove_by_name(name) {
            Some(e) => {
                proof {
                    let i = choose|i: int|
                        {
                            &&& 0 <= i < old(self)@.len()
                            &&& old(self)@[i].name@ == name@
                            &&& e == old(self)@[i]
                            &&& self@ == old(self)@.remove(i)
                        };
                    assert(names_of(old(self)@)[i] == name@);
                }
                Ok(e)
            },
            None => Err(TrashError::NotFound),
        }
    }
}

/// Filtering keeps the names free of duplicates: the kept entries are a
/// selection of the original ones, whose names were all distinct.
proof fn lemma_filter_no_dup(s: Seq<TrashEntry>, pred: spec_fn(TrashEntry) -> bool)
    requires
        names_of(s).no_duplicates(),
    ensures
        names_of(s.filter(pred)).no_duplicates(),
    decreases s.len(),
{
    reveal(Seq::filter);
    if s.len() == 0 {
    } else {
        let d = s.drop_last();
        assert forall|p: int, q: int|
            0 <= p < names_of(d).len() && 0 <= q < names_of(d).len() && p != q implies names_of(
            d,
        )[p] != names_of(d)[q] by {
            assert(names_of(s)[p] == names_of(d)[p]);
            assert(names_of(s)[q] == names_of(d)[q]);
        }
        lemma_filter_no_dup(d, pred);
        if pred(s.last()) {
            if names_of(d.filter(pred)).contains(s.last().name@) {
                let p = choose|p: int|
                    0 <= p < d.filter(pred).len() && names_of(d.filter(pred))[p] == s.last().name@;
                lemma_filter_member(d, pred, p);
                let j = choose|j: int| 0 <= j < d.len() && d[j] == d.filter(pred)[p];
                assert(names_of(s)[j] == s.last().name@);
                assert(names_of(s)[s.len() - 1] == s.last().name@);
                assert(false);
            }
            lemma_push_no_dup(names_of(d.filter(pred)), s.last().name@);
            assert(names_of(d.filter(pred).push(s.last())) =~= names_of(d.filter(pred)).push(
                s.last().name@,
            ));
        }
    }
}

/// Every kept entry occurs in the original run.
proof fn lemma_filter_member(s: Seq<TrashEntry>, pred: spec_fn(TrashEntry) -> bool, i: int)
    requires
        0 <= i < s.filter(pred).len(),
    ensures
        exists|j: int| 0 <= j < s.len() && s[j] == s.filter(pred)[i],
    decreases s.len(),
{
    reveal(Seq::filter);
    if s.len() == 0 {
    } else {
        let d = s.drop_last();
        if pred(s.last()) && i == s.filter(pred).len() - 1 {
            assert(s[s.len() - 1] == s.filter(pred)[i]);
        } else {
            lemma_filter_member(d, pred, i);
            let j = choose|j: int| 0 <= j < d.len() && d[j] == d.filter(pred)[i];
            assert(s[j] == s.filter(pred)[i]);
        }
    }
}

/// Whether some entry of `v` is named `name`.
fn contains_entry_name(v: &Vec<TrashEntry>, name: &String) -> (b: bool)
    ensures
        b == names_of(v@).contains(name@),
{
    let mut i: usize = 0;
    while i < v.len()
        invariant
            i <= v@.len(),
            forall|j: int| 0 <= j < i ==> v@[j].name@ != name@,
        decreases v@.len() - i,
    {
        if v[i].name.eq(name) {
            assert(names_of(v@)[i as int] == name@);
            return true;
        }
        i = i + 1;
    }
    proof {
        if names_of(v@).contains(name@) {
            let j = choose|j: int| 0 <= j < v@.len() && names_of(v@)[j] == name@;
            assert(v@[j].name@ == name@);
        }
    }
    false
}

/// Inserting an entry under a fresh name yields exactly one entry of that
/// name: the new entry sits at the end, and every earlier entry is unchanged
/// and bears a different name. With the entry built by `trash_insert`, whose
/// name is the filename of the removed path and whose original location is
/// the path itself, this is the shape of the ledger after removing a path
/// whose filename was not yet held.
pub proof fn law_insert_fresh(s: Seq<TrashEntry>, e: TrashEntry)
    requires
        !names_of(s).contains(e.name@),
    ensures
        s.push(e).len() == s.len() + 1,
        s.push(e)[s.len() as int] == e,
        forall|i: int| 0 <= i < s.len() ==> s.push(e)[i] == s[i],
        forall|i: int| 0 <= i < s.len() ==> (#[trigger] s.push(e)[i]).name@ != e.name@,
{
    assert forall|i: int| 0 <= i < s.len() implies (#[trigger] s.push(e)[i]).name@ != e.name@ by {
        if s[i].name@ == e.name@ {
            assert(names_of(s)[i] == e.name@);
        }
    }
}

/// Inserting an item whose desired name is already held never overwrites the
/// holder: the resolved name differs from every held name — in particular
/// from the desired one — the count grows by exactly one, and the entry that
/// held the desired name is still there, unchanged, at its index.
pub proof fn law_insert_conflict_preserves(
    s: Seq<TrashEntry>,
    e: TrashEntry,
    desired: Seq<char>,
    j: int,
)
    requires
        !names_of(s).contains(e.name@),
        0 <= j < s.len(),
        s[j].name@ == desired,
    ensures
        s.push(e).len() == s.len() + 1,
        s.push(e)[j] == s[j],
        s.push(e)[j].name@ == desired,
        e.name@ != desired,
{
    if e.name@ == desired {
        assert(names_of(s)[j] == desired);
    }
}

/// Enumerating twice without a mutation in between yields the same set of
/// names: the snapshot is a pure function of the ledger, so `enumerate` is
/// idempotent.
pub proof fn law_enumerate_stable(store: TrashStore, v1: Seq<TrashEntry>, v2: Seq<TrashEntry>)
    requires
        v1 == store@,
        v2 == store@,
    ensures
        names_of(v1).to_set() == names_of(v2).to_set(),
{
}

/// Restore is a left inverse of insert when no conflict intervenes: after an
/// insert under a fresh name, that name picks out exactly the inserted entry
/// — whose original location is the removed path — and removing it returns
/// the ledger to its old state.
pub proof fn law_restore_inverts_insert(s: Seq<TrashEntry>, e: TrashEntry)
    requires
        names_of(s).no_duplicates(),
        !names_of(s).contains(e.name@),
    ensures
        s.push(e).remove(s.len() as int) == s,
        forall|i: int|
            0 <= i < s.push(e).len() && (#[trigger] s.push(e)[i]).name@ == e.name@ ==> i
                == s.len(),
{
    assert(s.push(e).remove(s.len() as int) =~= s);
    assert forall|i: int|
        0 <= i < s.push(e).len() && (#[trigger] s.push(e)[i]).name@ == e.name@ implies i
        == s.len() by {
        if i < s.len() {
            assert(names_of(s)[i] == e.name@);
        }
    }
}

/// Removing an entry keeps the remaining names free of duplicates.
proof fn lemma_names_remove_no_dup(s: Seq<TrashEntry>, i: int)
    requires
        0 <= i < s.len(),
        names_of(s).no_duplicates(),
    ensures
        names_of(s.remove(i)).no_duplicates(),
{
    let t = names_of(s.remove(i));
    assert forall|p: int, q: int|
        0 <= p < t.len() && 0 <= q < t.len() && p != q implies t[p] != t[q] by {
        let sp = if p < i {
            p
        } else {
            p + 1
        };
        let sq = if q < i {
            q
        } else {
            q + 1
        };
        assert(t[p] == names_of(s)[sp]);
        assert(t[q] == names_of(s)[sq]);
    }
}

} // verus!
