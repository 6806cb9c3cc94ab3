//! Single-flight memoization of target resolution within one computation
//! generation: the first request for a descriptor computes it, every later
//! request for a structurally equal descriptor waits for or reuses that
//! computation. Cached values are never compared: every computation counts as
//! a change for whatever depends on it.

use vstd::prelude::*;

use crate::anon_target::{AnonTargetKey, AnonTargetView};

verus! {

/// What the caller of [`MemoTable::request`] must do.
#[derive(Debug, Clone, Copy, PartialEq, Eq)]
pub enum Action {
    /// Run the analysis, then `complete` the key.
    Compute,
    /// Another request is computing the key.
    Wait,
    /// The result is cached.
    Ready,
}

#[derive(Debug)]
pub enum MemoState<T> {
    InFlight,
    Done(T),
}

/// The keys seen in this generation, each in flight or done.
#[derive(Debug)]
pub struct MemoTable<T> {
    entries: Vec<(AnonTargetKey, MemoState<T>)>,
}

pub open spec fn state_view<T>(s: MemoState<T>) -> Option<T> {
    match s {
        MemoState::InFlight => None,
        MemoState::Done(v) => Some(v),
    }
}

/// First index `>= i` whose descriptor is `k`, or -1.
pub open spec fn find_key<T>(es: Seq<(AnonTargetView, Option<T>)>, k: AnonTargetView, i: int) -> int
    decreases es.len() - i,
{
    if i < 0 || i >= es.len() {
        -1
    } else if es[i].0 == k {
        i
    } else {
        find_key(es, k, i + 1)
    }
}

pub open spec fn has_key<T>(es: Seq<(AnonTargetView, Option<T>)>, k: AnonTargetView) -> bool {
    find_key(es, k, 0) != -1
}

/// The table after a request for `k`, and the action the request gets.
pub open spec fn request_step<T>(es: Seq<(AnonTargetView, Option<T>)>, k: AnonTargetView) -> (
    Seq<(AnonTargetView, Option<T>)>,
    Action,
) {
    let j = find_key(es, k, 0);
    if j == -1 {
        (es.push((k, None)), Action::Compute)
    } else if es[j].1 is Some {
        (es, Action::Ready)
    } else {
        (es, Action::Wait)
    }
}

/// How many of the requests `ks`, made in order, for descriptors equal to
/// `k`, are told to compute.
pub open spec fn computes<T>(
    es: Seq<(AnonTargetView, Option<T>)>,
    ks: Seq<AnonTargetView>,
    k: AnonTargetView,
) -> nat
    decreases ks.len(),
{
    if ks.len() == 0 {
        0
    } else {
        let (es2, a) = request_step(es, ks[0]);
        (if a == Action::Compute && ks[0] == k {
            1nat
        } else {
            0nat
        }) + computes(es2, ks.drop_first(), k)
    }
}

proof fn lemma_find_key<T>(es: Seq<(AnonTargetView, Option<T>)>, k: AnonTargetView, i: int)
    requires
        0 <= i,
    ensures
        find_key(es, k, i) == -1 || (i <= find_key(es, k, i) < es.len() && es[find_key(
            es,
            k,
            i,
        )].0 == k),
    decreases es.len() - i,
{
    if i < es.len() && es[i].0 != k {
        lemma_find_key(es, k, i + 1);
    }
}

proof fn lemma_find_key_push<T>(
    es: Seq<(AnonTargetView, Option<T>)>,
    x: (AnonTargetView, Option<T>),
    k: AnonTargetView,
    i: int,
)
    requires
        0 <= i <= es.len(),
    ensures
        find_key(es.push(x), k, i) == if find_key(es, k, i) != -1 {
            find_key(es, k, i)
        } else if x.0 == k {
            es.len() as int
        } else {
            -1
        },
    decreases es.len() - i,
{
    if i < es.len() {
        assert(es.push(x)[i] == es[i]);
        lemma_find_key_push(es, x, k, i + 1);
    } else {
        assert(es.push(x)[i] == x);
        assert(find_key(es.push(x), k, i + 1) == -1);
    }
}

proof fn lemma_find_key_update<T>(
    es: Seq<(AnonTargetView, Option<T>)>,
    j: int,
    v: Option<T>,
    k: AnonTargetView,
    i: int,
)
    requires
        0 <= i,
        0 <= j < es.len(),
    ensures
        find_key(es.update(j, (es[j].0, v)), k, i) == find_key(es, k, i),
    decreases es.len() - i,
{
    if i < es.len() {
        lemma_find_key_update(es, j, v, k, i + 1);
    }
}

proof fn lemma_present_never_computes<T>(
    es: Seq<(AnonTargetView, Option<T>)>,
    ks: Seq<AnonTargetView>,
    k: AnonTargetView,
)
    requires
        has_key(es, k),
    ensures
        computes(es, ks, k) == 0,
    decreases ks.len(),
{
    if ks.len() > 0 {
        let (es2, a) = request_step(es, ks[0]);
        if find_key(es, ks[0], 0) == -1 {
            lemma_find_key_push(es, (ks[0], None), k, 0);
        }
        lemma_present_never_computes(es2, ks.drop_first(), k);
    }
}

/// Single flight: of any requests, in any order, for descriptors
/// structurally equal to `k`, exactly one is told to compute if `k` was
/// unknown to the table and is requested at all, and none otherwise.
pub proof fn lemma_single_flight<T>(
    es: Seq<(AnonTargetView, Option<T>)>,
    ks: Seq<AnonTargetView>,
    k: AnonTargetView,
)
    ensures
        computes(es, ks, k) <= 1,
        has_key(es, k) ==> computes(es, ks, k) == 0,
        !has_key(es, k) && ks.contains(k) ==> computes(es, ks, k) == 1,
        !ks.contains(k) ==> computes(es, ks, k) == 0,
    decreases ks.len(),
{
    if has_key(es, k) {
        lemma_present_never_computes(es, ks, k);
    } else if ks.len() > 0 {
        let (es2, a) = request_step(es, ks[0]);
        let rest = ks.drop_first();
        if ks[0] == k {
            lemma_find_key_push(es, (ks[0], None), k, 0);
            lemma_present_never_computes(es2, rest, k);
        } else {
            if find_key(es, ks[0], 0) == -1 {
                lemma_find_key_push(es, (ks[0], None), k, 0);
            }
            lemma_single_flight(es2, rest, k);
            if ks.contains(k) {
                let j = choose|j: int| 0 <= j < ks.len() && ks[j] == k;
                assert(rest[j - 1] == k);
            }
            if rest.contains(k) {
                let j = choose|j: int| 0 <= j < rest.len() && rest[j] == k;
                assert(ks[j + 1] == k);
            }
        }
    }
}

impl<T> View for MemoTable<T> {
    type V = Seq<(AnonTargetView, Option<T>)>;

    closed spec fn view(&self) -> Seq<(AnonTargetView, Option<T>)> {
        self.entries@.map_values(|e: (AnonTargetKey, MemoState<T>)| (e.0@, state_view(e.1)))
    }
}

impl<T> MemoTable<T> {
    pub fn new() -> (r: MemoTable<T>)
        ensures
            r@.len() == 0,
    {
        let r = MemoTable { entries: Vec::new() };
        assert(r@ =~= Seq::empty());
        r
    }

    fn find(&self, key: &AnonTargetKey) -> (r: Option<usize>)
        ensures
            match r {
                None => find_key(self@, key@, 0) == -1,
                Some(j) => j == find_key(self@, key@, 0) && j < self@.len(),
            },
    {
        let mut i: usize = 0;
        while i < self.entries.len()
            invariant
                i <= self@.len(),
                self@.len() == self.entries@.len(),
                find_key(self@, key@, i as int) == find_key(self@, key@, 0),
            decreases self@.len() - i,
        {
            assert(self@[i as int].0 == self.entries@[i as int].0@);
            if self.entries[i].0.same_as(key) {
                return Some(i);
            }
            i = i + 1;
        }
        None
    }

    /// Asks for `key`: the first request for a descriptor computes it, later
    /// ones wait for it or find it done.
    pub fn request(&mut self, key: AnonTargetKey) -> (r: Action)
        ensures
            (final(self)@, r) == request_step(old(self)@, key@),
    {
        match self.find(&key) {
            Some(j) => match &self.entries[j].1 {
                MemoState::InFlight => Action::Wait,
                MemoState::Done(_) => Action::Ready,
            },
            None => {
                let ghost before = self@;
                let ghost kv = key@;
                self.entries.push((key, MemoState::InFlight));
                assert(self@ =~= before.push((kv, None)));
                Action::Compute
            },
        }
    }

    /// Records the result of a computation that `request` asked for.
    pub fn complete(&mut self, key: &AnonTargetKey, value: T)
        requires
            has_key(old(self)@, key@),
        ensures
            final(self)@ == old(self)@.update(
                find_key(old(self)@, key@, 0),
                (key@, Some(value)),
            ),
            forall|k: AnonTargetView| find_key(final(self)@, k, 0) == find_key(old(self)@, k, 0),
    {
        proof {
            lemma_find_key(self@, key@, 0);
        }
        let j = self.find(key).unwrap();
        let ghost before = self@;
        let ghost kv = self@[j as int].0;
        let old_entry = self.entries.remove(j);
        let (k, _) = old_entry;
        self.entries.insert(j, (k, MemoState::Done(value)));
        assert(self@ =~= before.update(j as int, (kv, Some(value))));
        proof {
            assert forall|k2: AnonTargetView| find_key(self@, k2, 0) == find_key(before, k2, 0) by {
                lemma_find_key_update(before, j as int, Some(value), k2, 0);
            }
        }
    }

    /// The cached result for `key`, if its computation is done.
    pub fn get(&self, key: &AnonTargetKey) -> (r: Option<&T>)
        ensures
            match r {
                Some(v) => has_key(self@, key@) && self@[find_key(self@, key@, 0)].1 == Some(*v),
                None => !has_key(self@, key@) || self@[find_key(self@, key@, 0)].1 is None,
            },
    {
        match self.find(key) {
            Some(j) => match &self.entries[j].1 {
                MemoState::InFlight => None,
                MemoState::Done(v) => Some(v),
            },
            None => None,
        }
    }
}

} // verus!
