//! Resolving a drained batch: its keys flattened into one sequence, and the
//! results bound back to the promises in registration order, each in the
//! shape it was asked for.

use vstd::prelude::*;

use crate::anon_target::{AnonTargetKey, AnonTargetView};
use crate::registry::{AnonTargetsRegistry, PromiseId, Request, RequestView};

verus! {

/// Where an entry's results lie in the flattened key sequence: one index, or
/// the range `start..end`.
#[derive(Debug, Clone, Copy, PartialEq, Eq)]
pub enum Slot {
    Single(usize),
    Range(usize, usize),
}

pub open spec fn request_keys(r: RequestView) -> Seq<AnonTargetView> {
    match r {
        RequestView::Single(k) => seq![k],
        RequestView::List(ks) => ks,
    }
}

/// Every key of the entries, in registration order.
pub open spec fn flat_keys(es: Seq<(PromiseId, RequestView)>) -> Seq<AnonTargetView>
    decreases es.len(),
{
    if es.len() == 0 {
        Seq::empty()
    } else {
        flat_keys(es.drop_last()) + request_keys(es.last().1)
    }
}

pub open spec fn slot_for(off: int, r: RequestView) -> Slot {
    match r {
        RequestView::Single(_) => Slot::Single(off as usize),
        RequestView::List(ks) => Slot::Range(off as usize, (off + ks.len()) as usize),
    }
}

/// Each entry's promise with the slot its keys take in `flat_keys`.
pub open spec fn shape_of(es: Seq<(PromiseId, RequestView)>) -> Seq<(PromiseId, Slot)>
    decreases es.len(),
{
    if es.len() == 0 {
        Seq::empty()
    } else {
        shape_of(es.drop_last()).push(
            (es.last().0, slot_for(flat_keys(es.drop_last()).len() as int, es.last().1)),
        )
    }
}

pub open spec fn slot_start(s: Slot) -> int {
    match s {
        Slot::Single(j) => j as int,
        Slot::Range(a, _) => a as int,
    }
}

pub open spec fn slot_size(s: Slot) -> int {
    match s {
        Slot::Single(_) => 1,
        Slot::Range(a, b) => b - a,
    }
}

/// The number of keys that a shape's slots cover.
pub open spec fn shape_end(shape: Seq<(PromiseId, Slot)>) -> int
    decreases shape.len(),
{
    if shape.len() == 0 {
        0
    } else {
        shape_end(shape.drop_last()) + slot_size(shape.last().1)
    }
}

/// Slots follow one another without gap or overlap, starting at 0.
pub open spec fn shape_ok(shape: Seq<(PromiseId, Slot)>) -> bool {
    forall|i: int|
        0 <= i < shape.len() ==> slot_start(#[trigger] shape[i].1) == shape_end(
            shape.subrange(0, i),
        ) && slot_size(shape[i].1) >= 0
}

/// Whether a binding holds what the slot points at among the results.
pub open spec fn binding_ok<T>(slot: Slot, b: Binding<T>, values: Seq<T>) -> bool {
    match slot {
        Slot::Single(j) => b matches Binding::Single(v) && v == values[j as int],
        Slot::Range(s, e) => b matches Binding::List(vs) && vs@ == values.subrange(
            s as int,
            e as int,
        ),
    }
}

/// What a promise receives: one result, or a list in request order.
#[derive(Debug)]
pub enum Binding<T> {
    Single(T),
    List(Vec<T>),
}

/// A drained batch, its keys handed out for resolution: what remains is
/// where each promise's results lie.
#[derive(Debug)]
pub struct PromiseBatch {
    shape: Vec<(PromiseId, Slot)>,
    n_keys: usize,
}

impl PromiseBatch {
    pub closed spec fn shape(&self) -> Seq<(PromiseId, Slot)> {
        self.shape@
    }

    pub closed spec fn n_keys(&self) -> nat {
        self.n_keys as nat
    }

    pub open spec fn wf(&self) -> bool {
        shape_ok(self.shape()) && shape_end(self.shape()) == self.n_keys()
    }

    /// How many results the batch expects.
    pub fn len(&self) -> (r: usize)
        ensures
            r == self.n_keys(),
    {
        self.n_keys
    }
}

proof fn lemma_shape_end_step(shape: Seq<(PromiseId, Slot)>, i: int)
    requires
        0 <= i < shape.len(),
    ensures
        shape_end(shape.subrange(0, i + 1)) == shape_end(shape.subrange(0, i)) + slot_size(
            shape[i].1,
        ),
{
    assert(shape.subrange(0, i + 1).drop_last() =~= shape.subrange(0, i));
}

proof fn lemma_shape_end_mono(shape: Seq<(PromiseId, Slot)>, i: int, j: int)
    requires
        0 <= i <= j <= shape.len(),
        shape_ok(shape),
    ensures
        shape_end(shape.subrange(0, i)) <= shape_end(shape.subrange(0, j)),
    decreases j - i,
{
    if i < j {
        lemma_shape_end_step(shape, j - 1);
        assert(slot_size(shape[j - 1].1) >= 0);
        lemma_shape_end_mono(shape, i, j - 1);
    }
}

/// Splits a drained registry into the keys to resolve, in registration
/// order, and the batch that says where each promise's results lie.
#[verifier::rlimit(50)]
pub fn into_batch(registry: AnonTargetsRegistry) -> (r: (PromiseBatch, Vec<AnonTargetKey>))
    ensures
        r.0.wf(),
        r.0.shape() == shape_of(registry@.entries),
        r.1@.map_values(|k: AnonTargetKey| k@) == flat_keys(registry@.entries),
        r.0.n_keys() == r.1@.len(),
{
    let ghost es = registry@.entries;
    let mut entries = registry.take_entries();
    let mut keys: Vec<AnonTargetKey> = Vec::new();
    let mut shape: Vec<(PromiseId, Slot)> = Vec::new();
    let ghost mut i: int = 0;
    assert(entries@.map_values(|e: (PromiseId, Request)| (e.0, e.1@)) =~= es.subrange(0, es.len() as int));
    assert(es.subrange(0, 0) =~= Seq::<(PromiseId, RequestView)>::empty());
    assert(keys@.map_values(|k: AnonTargetKey| k@) =~= Seq::<AnonTargetView>::empty());
    while entries.len() > 0
        invariant
            0 <= i <= es.len(),
            entries@.map_values(|e: (PromiseId, Request)| (e.0, e.1@)) == es.subrange(i, es.len() as int),
            keys@.map_values(|k: AnonTargetKey| k@) == flat_keys(es.subrange(0, i)),
            shape@ == shape_of(es.subrange(0, i)),
            shape_ok(shape@),
            shape_end(shape@) == keys@.len(),
        decreases entries@.len(),
    {
        let ghost old_shape = shape@;
        let ghost old_keys = keys@.map_values(|k: AnonTargetKey| k@);
        let ghost ev = entries@.map_values(|e: (PromiseId, Request)| (e.0, e.1@));
        let ghost old_entries = entries@;
        assert(ev.len() == entries@.len());
        assert(i < es.len());
        assert(ev[0] == es.subrange(i, es.len() as int)[0]);
        assert(ev[0] == es[i]);
        let (promise, request) = entries.remove(0);
        assert(entries@ =~= old_entries.subrange(1, old_entries.len() as int));
        assert(entries@.map_values(|e: (PromiseId, Request)| (e.0, e.1@)) =~= ev.subrange(1, ev.len() as int));
        assert(entries@.map_values(|e: (PromiseId, Request)| (e.0, e.1@)) =~= es.subrange(i + 1, es.len() as int));
        assert(es.subrange(0, i + 1).drop_last() =~= es.subrange(0, i));
        let start = keys.len();
        let slot = match request {
            Request::Single(k) => {
                keys.push(k);
                assert(keys@.map_values(|k: AnonTargetKey| k@) =~= old_keys + request_keys(es[i].1));
                Slot::Single(start)
            },
            Request::List(mut ks) => {
                let ghost kv = ks@.map_values(|k: AnonTargetKey| k@);
                keys.append(&mut ks);
                assert(keys@.map_values(|k: AnonTargetKey| k@) =~= old_keys + kv);
                Slot::Range(start, keys.len())
            },
        };
        shape.push((promise, slot));
        proof {
            assert(shape@.drop_last() =~= old_shape);
            assert forall|j: int| 0 <= j < shape@.len() implies slot_start(#[trigger] shape@[j].1)
                == shape_end(shape@.subrange(0, j)) && slot_size(shape@[j].1) >= 0 by {
                if j < old_shape.len() {
                    assert(shape@.subrange(0, j) =~= old_shape.subrange(0, j));
                } else {
                    assert(shape@.subrange(0, j) =~= old_shape);
                }
            }
            i = i + 1;
        }
    }
    assert(es.subrange(0, es.len() as int) =~= es);
    let n_keys = keys.len();
    (PromiseBatch { shape, n_keys }, keys)
}

proof fn lemma_take_ok<T>(slot: Slot, before: Seq<T>, vals: Seq<T>, off: int, b: Binding<T>)
    requires
        0 <= off,
        slot_start(slot) == off,
        0 <= slot_size(slot) <= vals.len() - off,
        before == vals.subrange(off, vals.len() as int),
        match slot {
            Slot::Single(_) => b matches Binding::Single(v) && v == before[0],
            Slot::Range(_, _) => b matches Binding::List(vs) && vs@ == before.subrange(
                0,
                slot_size(slot),
            ),
        },
    ensures
        binding_ok(slot, b, vals),
        before.subrange(slot_size(slot), before.len() as int) == vals.subrange(
            off + slot_size(slot),
            vals.len() as int,
        ),
{
    assert(before.subrange(slot_size(slot), before.len() as int) =~= vals.subrange(
        off + slot_size(slot),
        vals.len() as int,
    ));
    match slot {
        Slot::Single(_) => {
            assert(before[0] == vals[off]);
        },
        Slot::Range(s, e) => {
            assert(before.subrange(0, slot_size(slot)) =~= vals.subrange(s as int, e as int));
        },
    }
}

fn take_binding<T>(rest: &mut Vec<T>, slot: Slot) -> (b: Binding<T>)
    requires
        0 <= slot_size(slot) <= old(rest)@.len(),
    ensures
        final(rest)@ == old(rest)@.subrange(slot_size(slot), old(rest)@.len() as int),
        match slot {
            Slot::Single(_) => b matches Binding::Single(v) && v == old(rest)@[0],
            Slot::Range(_, _) => b matches Binding::List(vs) && vs@ == old(rest)@.subrange(
                0,
                slot_size(slot),
            ),
        },
{
    match slot {
        Slot::Single(_) => {
            let v = rest.remove(0);
            Binding::Single(v)
        },
        Slot::Range(s, e) => {
            let mut taken = rest.split_off(e - s);
            std::mem::swap(rest, &mut taken);
            Binding::List(taken)
        },
    }
}

/// Hands each promise its results: one value, or a list in request order.
/// Bindings come in registration order.
#[verifier::rlimit(50)]
pub fn bind_values<T>(batch: PromiseBatch, values: Vec<T>) -> (r: Vec<(PromiseId, Binding<T>)>)
    requires
        batch.wf(),
        values@.len() == batch.n_keys(),
    ensures
        r@.len() == batch.shape().len(),
        forall|i: int|
            0 <= i < r@.len() ==> (#[trigger] r@[i]).0 == batch.shape()[i].0 && binding_ok(
                batch.shape()[i].1,
                r@[i].1,
                values@,
            ),
{
    let ghost shape_v = batch.shape();
    let ghost n = values@.len() as int;
    let shape = batch.shape;
    let mut rest = values;
    let ghost vals = rest@;
    let mut out: Vec<(PromiseId, Binding<T>)> = Vec::new();
    let mut i: usize = 0;
    assert(shape_v.subrange(0, 0) =~= Seq::<(PromiseId, Slot)>::empty());
    assert(vals.subrange(0, n) =~= vals);
    assert(shape_v.subrange(0, shape_v.len() as int) =~= shape_v);
    while i < shape.len()
        invariant
            shape@ == shape_v,
            shape_ok(shape_v),
            shape_end(shape_v) == n,
            vals.len() == n,
            i <= shape_v.len(),
            0 <= shape_end(shape_v.subrange(0, i as int)) <= n,
            rest@ == vals.subrange(shape_end(shape_v.subrange(0, i as int)), n),
            out@.len() == i,
            forall|j: int|
                0 <= j < i ==> (#[trigger] out@[j]).0 == shape_v[j].0 && binding_ok(
                    shape_v[j].1,
                    out@[j].1,
                    vals,
                ),
        decreases shape_v.len() - i,
    {
        proof {
            lemma_shape_end_step(shape_v, i as int);
            lemma_shape_end_mono(shape_v, i + 1, shape_v.len() as int);
            assert(shape_v.subrange(0, shape_v.len() as int) =~= shape_v);
            assert(slot_size(shape_v[i as int].1) >= 0);
        }
        let ghost off = shape_end(shape_v.subrange(0, i as int));
        let (promise, slot) = shape[i];
        assert(slot == shape_v[i as int].1);
        assert(slot_start(slot) == off);
        let ghost before = rest@;
        let b = take_binding(&mut rest, slot);
        proof {
            lemma_take_ok(slot, before, vals, off, b);
        }
        let ghost out_before = out@;
        out.push((promise, b));
        assert(out@ == out_before.push((promise, b)));
        i = i + 1;
    }
    out
}

/// Every failed resolution of a batch or of a target's dependencies: the
/// position of each failing key, with what went wrong, in order.
#[derive(Debug, Clone)]
pub struct ResolutionError {
    pub failures: Vec<(usize, String)>,
}

impl View for ResolutionError {
    type V = Seq<(usize, Seq<char>)>;

    open spec fn view(&self) -> Seq<(usize, Seq<char>)> {
        self.failures@.map_values(|f: (usize, String)| (f.0, f.1@))
    }
}

pub open spec fn all_ok<T>(rs: Seq<Result<T, String>>) -> bool {
    forall|i: int| 0 <= i < rs.len() ==> (#[trigger] rs[i]) is Ok
}

/// The successful values of results that all succeeded.
pub open spec fn ok_values<T>(rs: Seq<Result<T, String>>) -> Seq<T> {
    rs.map_values(|r: Result<T, String>| r->Ok_0)
}

/// The failures among the first `n` results, with their positions.
pub open spec fn failures_prefix<T>(rs: Seq<Result<T, String>>, n: int) -> Seq<(usize, Seq<char>)>
    decreases n,
{
    if n <= 0 {
        Seq::empty()
    } else {
        failures_prefix(rs, n - 1) + match rs[n - 1] {
            Ok(_) => Seq::empty(),
            Err(m) => seq![((n - 1) as usize, m@)],
        }
    }
}

proof fn lemma_failures_nonempty<T>(rs: Seq<Result<T, String>>, n: int, k: int)
    requires
        0 <= k < n <= rs.len(),
        rs[k] is Err,
    ensures
        failures_prefix(rs, n).len() > 0,
    decreases n,
{
    if k < n - 1 {
        lemma_failures_nonempty(rs, n - 1, k);
    }
}

/// Waits for every branch before failing: all values if every result
/// succeeded, else every failure.
pub fn keep_going_join<T>(results: Vec<Result<T, String>>) -> (r: Result<Vec<T>, ResolutionError>)
    ensures
        r is Ok <==> all_ok(results@),
        r matches Ok(vs) ==> vs@ == ok_values(results@),
        r matches Err(e) ==> e@ == failures_prefix(results@, results@.len() as int) && e@.len()
            > 0,
{
    let ghost rs = results@;
    let n = results.len();
    let mut rest = results;
    let mut values: Vec<T> = Vec::new();
    let mut failures: Vec<(usize, String)> = Vec::new();
    let mut i: usize = 0;
    assert(rest@ =~= rs.subrange(0, n as int));
    while i < n
        invariant
            n == rs.len(),
            i <= n,
            rest@ == rs.subrange(i as int, n as int),
            failures@.map_values(|f: (usize, String)| (f.0, f.1@)) == failures_prefix(rs, i as int),
            failures@.len() == 0 ==> values@ == ok_values(rs.subrange(0, i as int)),
            failures@.len() == 0 <==> all_ok(rs.subrange(0, i as int)),
        decreases n - i,
    {
        let ghost fv = failures@.map_values(|f: (usize, String)| (f.0, f.1@));
        let ghost before = rest@;
        assert(before[0] == rs[i as int]);
        let r = rest.remove(0);
        assert(rest@ =~= rs.subrange(i + 1, n as int));
        assert(rs.subrange(0, i + 1).drop_last() =~= rs.subrange(0, i as int));
        match r {
            Ok(v) => {
                if failures.len() == 0 {
                    let ghost vb = values@;
                    values.push(v);
                    assert(values@ =~= ok_values(rs.subrange(0, i + 1)));
                }
                assert(failures@.map_values(|f: (usize, String)| (f.0, f.1@)) =~= fv + Seq::empty());
                assert(all_ok(rs.subrange(0, i as int)) ==> all_ok(rs.subrange(0, i + 1)));
                assert(all_ok(rs.subrange(0, i + 1)) ==> all_ok(rs.subrange(0, i as int))) by {
                    if all_ok(rs.subrange(0, i + 1)) {
                        assert forall|j: int| 0 <= j < i implies (#[trigger] rs.subrange(0, i as int)[j]) is Ok by {
                            assert(rs.subrange(0, i + 1)[j] is Ok);
                        }
                    }
                }
            },
            Err(m) => {
                failures.push((i, m));
                assert(failures@.map_values(|f: (usize, String)| (f.0, f.1@)) =~= fv + seq![(i, m@)]);
                assert(!(rs.subrange(0, i + 1)[i as int] is Ok));
            },
        }
        i = i + 1;
    }
    assert(rs.subrange(0, n as int) =~= rs);
    if failures.len() == 0 {
        Ok(values)
    } else {
        Err(ResolutionError { failures })
    }
}

/// Binds a resolved batch: `results[k]` is the outcome for the k-th key that
/// `into_batch` handed out. If any key failed, no promise is bound and the
/// error holds every failure; else each promise gets its results, in
/// registration order.
pub fn run_promises<T>(batch: PromiseBatch, results: Vec<Result<T, String>>) -> (r: Result<
    Vec<(PromiseId, Binding<T>)>,
    ResolutionError,
>)
    requires
        batch.wf(),
        results@.len() == batch.n_keys(),
    ensures
        r is Ok <==> all_ok(results@),
        r matches Ok(bs) ==> bs@.len() == batch.shape().len() && forall|i: int|
            0 <= i < bs@.len() ==> (#[trigger] bs@[i]).0 == batch.shape()[i].0 && binding_ok(
                batch.shape()[i].1,
                bs@[i].1,
                ok_values(results@),
            ),
        r matches Err(e) ==> e@ == failures_prefix(results@, results@.len() as int) && e@.len()
            > 0,
{
    match keep_going_join(results) {
        Ok(values) => Ok(bind_values(batch, values)),
        Err(e) => Err(e),
    }
}

proof fn lemma_shape_of_index(es: Seq<(PromiseId, RequestView)>, i: int)
    requires
        0 <= i < es.len(),
    ensures
        shape_of(es).len() == es.len(),
        shape_of(es)[i] == (es[i].0, slot_for(flat_keys(es.subrange(0, i)).len() as int, es[i].1)),
    decreases es.len(),
{
    lemma_shape_of_len(es);
    if i < es.len() - 1 {
        lemma_shape_of_index(es.drop_last(), i);
        assert(es.drop_last().subrange(0, i) =~= es.subrange(0, i));
    } else {
        assert(es.drop_last() =~= es.subrange(0, i));
    }
}

proof fn lemma_shape_of_len(es: Seq<(PromiseId, RequestView)>)
    ensures
        shape_of(es).len() == es.len(),
    decreases es.len(),
{
    if es.len() > 0 {
        lemma_shape_of_len(es.drop_last());
    }
}

proof fn lemma_flat_keys_prefix(es: Seq<(PromiseId, RequestView)>, k: int)
    requires
        0 <= k <= es.len(),
    ensures
        flat_keys(es.subrange(0, k)).len() <= flat_keys(es).len(),
        flat_keys(es).subrange(0, flat_keys(es.subrange(0, k)).len() as int) == flat_keys(
            es.subrange(0, k),
        ),
    decreases es.len(),
{
    if k == es.len() {
        assert(es.subrange(0, k) =~= es);
        assert(flat_keys(es).subrange(0, flat_keys(es).len() as int) =~= flat_keys(es));
    } else {
        lemma_flat_keys_prefix(es.drop_last(), k);
        assert(es.drop_last().subrange(0, k) =~= es.subrange(0, k));
        let p = flat_keys(es.subrange(0, k));
        assert(flat_keys(es).subrange(0, p.len() as int) =~= flat_keys(es.drop_last()).subrange(
            0,
            p.len() as int,
        ));
    }
}

/// Order of list results: whatever order the keys of a batch are resolved
/// in, the list bound to a list request holds, at each position, the result
/// for the key at that position of the request.
pub proof fn lemma_list_results_in_order<T>(
    es: Seq<(PromiseId, RequestView)>,
    i: int,
    values: Seq<T>,
    b: Binding<T>,
)
    requires
        0 <= i < es.len(),
        es[i].1 is List,
        flat_keys(es).len() <= usize::MAX,
        values.len() == flat_keys(es).len(),
        binding_ok(shape_of(es)[i].1, b, values),
    ensures
        shape_of(es)[i].0 == es[i].0,
        b is List,
        b->List_0@.len() == es[i].1->List_0.len(),
        forall|j: int|
            0 <= j < b->List_0@.len() ==> #[trigger] b->List_0@[j] == values[flat_keys(
                es.subrange(0, i),
            ).len() + j],
        forall|j: int|
            0 <= j < es[i].1->List_0.len() ==> #[trigger] es[i].1->List_0[j] == flat_keys(es)[
                flat_keys(es.subrange(0, i)).len() + j],
{
    let ks = es[i].1->List_0;
    let off = flat_keys(es.subrange(0, i)).len() as int;
    lemma_shape_of_index(es, i);
    lemma_flat_keys_prefix(es, i + 1);
    assert(es.subrange(0, i + 1).drop_last() =~= es.subrange(0, i));
    assert(flat_keys(es.subrange(0, i + 1)) == flat_keys(es.subrange(0, i)) + ks);
    assert(off + ks.len() <= flat_keys(es).len());
    assert(shape_of(es)[i].1 == Slot::Range(off as usize, (off + ks.len()) as usize));
    assert(b is List);
    let vs = b->List_0;
    assert(vs@ == values.subrange(off, off + ks.len()));
    assert forall|j: int| 0 <= j < ks.len() implies #[trigger] ks[j] == flat_keys(es)[off + j] by {
        assert(flat_keys(es).subrange(0, off + ks.len())[off + j] == flat_keys(es)[off + j]);
        assert(flat_keys(es.subrange(0, i + 1))[off + j] == ks[j]);
    }
}

} // verus!
