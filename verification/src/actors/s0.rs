//! S0Actor: short-term memory, a bounded first-in first-out buffer of the most recent
//! actions.

use vstd::prelude::*;
use std::collections::VecDeque;
use crate::clock::Timestamp;

verus! {

/// Default capacity of the S0 buffer.
pub const S0_CAPACITY: usize = 20;

/// One short-term memory entry.
#[derive(Debug)]
pub struct S0Entry {
    pub id: String,
    pub source: String,
    pub summary: String,
    pub timestamp: Timestamp,
}

/// The content of an entry.
pub struct S0EntryView {
    pub id: Seq<char>,
    pub source: Seq<char>,
    pub summary: Seq<char>,
    pub timestamp: Timestamp,
}

impl View for S0Entry {
    type V = S0EntryView;

    open spec fn view(&self) -> S0EntryView {
        S0EntryView { id: self.id@, source: self.source@, summary: self.summary@, timestamp: self.timestamp }
    }
}

impl Clone for S0Entry {
    fn clone(&self) -> (r: Self)
        ensures
            r@ == self@,
    {
        S0Entry {
            id: self.id.clone(),
            source: self.source.clone(),
            summary: self.summary.clone(),
            timestamp: self.timestamp,
        }
    }
}

/// The views of a list of entries.
pub open spec fn s0_view(v: Seq<S0Entry>) -> Seq<S0EntryView> {
    v.map_values(|e: S0Entry| e@)
}

/// The buffer after pushing `e` into `s` with room for `cap`: the oldest entry leaves
/// when the buffer is full.
pub open spec fn pushed(s: Seq<S0EntryView>, cap: nat, e: S0EntryView) -> Seq<S0EntryView> {
    if s.len() >= cap { s.drop_first().push(e) } else { s.push(e) }
}

/// The `n` newest entries of `s`, newest first.
pub open spec fn newest(s: Seq<S0EntryView>, n: nat) -> Seq<S0EntryView> {
    let k = if n < s.len() { n as int } else { s.len() as int };
    Seq::new(k as nat, |i: int| s[s.len() - 1 - i])
}

/// S0Actor: a first-in first-out buffer of at most `capacity` entries.
pub struct S0Actor {
    capacity: usize,
    inner: VecDeque<S0Entry>,
}

impl S0Actor {
    /// The entries, oldest first.
    pub closed spec fn entries(&self) -> Seq<S0EntryView> {
        s0_view(self.inner@)
    }

    /// The capacity.
    pub closed spec fn cap(&self) -> nat {
        self.capacity as nat
    }

    /// The capacity is positive and not exceeded.
    pub open spec fn wf(&self) -> bool {
        self.cap() > 0 && self.entries().len() <= self.cap()
    }

    /// An empty buffer of the default capacity (20).
    pub fn new() -> (a: Self)
        ensures
            a.wf(),
            a.cap() == S0_CAPACITY,
            a.entries().len() == 0,
    {
        Self::with_capacity(S0_CAPACITY)
    }

    /// An empty buffer of capacity `capacity` (which must be positive).
    pub fn with_capacity(capacity: usize) -> (a: Self)
        requires
            capacity > 0,
        ensures
            a.wf(),
            a.cap() == capacity,
            a.entries().len() == 0,
    {
        let a = S0Actor { capacity, inner: VecDeque::new() };
        assert(a.entries() =~= Seq::<S0EntryView>::empty());
        a
    }

    /// Push an entry; when the buffer is full the oldest entry is evicted and returned.
    pub fn push(&mut self, entry: S0Entry) -> (evicted: Option<S0Entry>)
        requires
            old(self).wf(),
        ensures
            final(self).wf(),
            final(self).cap() == old(self).cap(),
            final(self).entries() == pushed(old(self).entries(), old(self).cap(), entry@),
            match evicted {
                Some(e) => old(self).entries().len() >= old(self).cap() && e@ == old(self).entries()[0],
                None => old(self).entries().len() < old(self).cap(),
            },
    {
        let ghost s = self.entries();
        let evicted = if self.inner.len() >= self.capacity {
            let e = self.inner.pop_front();
            assert(self.entries() =~= s.drop_first());
            e
        } else {
            None
        };
        let ghost mid = self.entries();
        self.inner.push_back(entry);
        assert(self.entries() =~= mid.push(entry@));
        evicted
    }

    /// The `n` most recent entries, newest first.
    pub fn get_recent(&self, n: usize) -> (r: Vec<S0Entry>)
        ensures
            s0_view(r@) == newest(self.entries(), n as nat),
    {
        let len = self.inner.len();
        let k = if n < len { n } else { len };
        let mut r: Vec<S0Entry> = Vec::new();
        let mut i: usize = 0;
        while i < k
            invariant
                k <= len,
                len == self.inner@.len(),
                k == (if n < len { n } else { len }),
                i <= k,
                s0_view(r@) == newest(self.entries(), n as nat).take(i as int),
            decreases k - i,
        {
            let ghost before = s0_view(r@);
            let e = self.inner[len - 1 - i].clone();
            assert(e@ == self.inner@[len - 1 - i]@);
            assert(self.entries()[len - 1 - i] == self.inner@[len - 1 - i]@);
            r.push(e);
            assert(s0_view(r@) =~= before.push(e@));
            assert(s0_view(r@) =~= newest(self.entries(), n as nat).take(i + 1));
            i += 1;
        }
        assert(newest(self.entries(), n as nat).take(k as int) =~= newest(self.entries(), n as nat));
        r
    }

    /// All entries, oldest first.
    pub fn get_all(&self) -> (r: Vec<S0Entry>)
        ensures
            s0_view(r@) == self.entries(),
    {
        let mut r: Vec<S0Entry> = Vec::new();
        let mut i: usize = 0;
        while i < self.inner.len()
            invariant
                i <= self.inner@.len(),
                s0_view(r@) == self.entries().take(i as int),
            decreases self.inner@.len() - i,
        {
            let ghost before = s0_view(r@);
            let e = self.inner[i].clone();
            assert(e@ == self.inner@[i as int]@);
            assert(self.entries()[i as int] == self.inner@[i as int]@);
            r.push(e);
            assert(s0_view(r@) =~= before.push(e@));
            assert(s0_view(r@) =~= self.entries().take(i + 1));
            i += 1;
        }
        assert(self.entries().take(self.inner@.len() as int) =~= self.entries());
        r
    }

    /// Remove every entry.
    pub fn clear(&mut self)
        requires
            old(self).wf(),
        ensures
            final(self).wf(),
            final(self).cap() == old(self).cap(),
            final(self).entries().len() == 0,
    {
        self.inner.clear();
        assert(self.entries() =~= Seq::<S0EntryView>::empty());
    }

    /// The number of entries.
    pub fn len(&self) -> (n: usize)
        ensures
            n == self.entries().len(),
    {
        self.inner.len()
    }

    /// The capacity.
    pub fn capacity(&self) -> (c: usize)
        ensures
            c == self.cap(),
    {
        self.capacity
    }
}

impl Default for S0Actor {
    fn default() -> (a: Self)
        ensures
            a.wf(),
            a.cap() == S0_CAPACITY,
            a.entries().len() == 0,
    {
        Self::new()
    }
}

impl super::Actor for S0Actor {
    fn name(&self) -> &'static str {
        "S0Actor"
    }

    /// The number of entries.
    fn size(&self) -> (r: usize)
        ensures
            r == self.entries().len(),
    {
        self.inner.len()
    }
}

} // verus!
