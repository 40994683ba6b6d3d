//! A small in-memory multi-version store ordered through a registered
//! timestamp-aware comparator.
//!
//! Every record is one version of one raw key: `raw_key || timestamp` with a
//! payload, where a payload of `None` is a tombstone recording a deletion at
//! that timestamp. Records are kept strictly sorted in the comparator's
//! full-key order: raw keys ascending, and for one raw key timestamps
//! *descending*, so the newest version of a key stands first. Reads take a
//! target timestamp and see, per raw key, the version with the largest
//! timestamp at most the target; a tombstone there reads as "not found".
//! Range scans with a start timestamp yield every version in the inclusive
//! timestamp range, newest first, tombstones surfaced explicitly.

use vstd::prelude::*;
use vstd::slice::slice_to_vec;

use crate::bridge::ComparatorError;
use crate::bridge::ComparatorRAIIWrapper;
use crate::bridge::new_timestamp_aware_comparator;
use crate::bridge::valid_name;
use crate::comparator::ComparatorWithU64;
use crate::comparator::TimestampAwareComparator;
use crate::comparator::full_cmp;
use crate::comparator::lemma_comparator_with_u64_orders;
use crate::comparator::strip_ts;
use crate::comparator::ts_suffix;
use crate::ordering::lemma_lex_cmp_antisym;
use crate::ordering::lemma_lex_cmp_range;
use crate::ordering::lemma_lex_cmp_trans_neg;
use crate::ordering::lemma_lex_cmp_zero;
use crate::ordering::lex_cmp;

verus! {

/// One stored version in the model: raw key, timestamp, and payload, with
/// `None` recording a tombstone.
pub ghost struct RecordModel {
    pub raw: Seq<u8>,
    pub ts: Seq<u8>,
    pub val: Option<Seq<u8>>,
}

/// One stored version of one raw key; a `value` of `None` is a tombstone.
pub struct VersionedRecord {
    pub raw_key: Vec<u8>,
    pub timestamp: Vec<u8>,
    pub value: Option<Vec<u8>>,
}

impl View for VersionedRecord {
    type V = RecordModel;

    open spec fn view(&self) -> RecordModel {
        RecordModel {
            raw: self.raw_key@,
            ts: self.timestamp@,
            val: match self.value {
                Option::Some(v) => Option::Some(v@),
                Option::None => Option::None,
            },
        }
    }
}

/// The models of a sequence of records.
pub open spec fn models_of(s: Seq<VersionedRecord>) -> Seq<RecordModel> {
    s.map_values(|r: VersionedRecord| r@)
}

/// The store's order over versions, by their key parts: raw keys
/// byte-lexicographic ascending, and for equal raw keys timestamps
/// descending (the newest version first).
pub open spec fn key_cmp(raw_a: Seq<u8>, ts_a: Seq<u8>, raw_b: Seq<u8>, ts_b: Seq<u8>) -> int {
    if lex_cmp(raw_a, raw_b) != 0 {
        lex_cmp(raw_a, raw_b)
    } else {
        -lex_cmp(ts_a, ts_b)
    }
}

/// The store's order over two record models.
pub open spec fn rec_cmp(x: RecordModel, y: RecordModel) -> int {
    key_cmp(x.raw, x.ts, y.raw, y.ts)
}

/// `key_cmp` is the registered comparator's full-key order over the
/// concatenated keys `raw || ts`.
pub proof fn lemma_key_cmp_matches_full_cmp(
    c: &ComparatorWithU64,
    raw_a: Seq<u8>,
    ts_a: Seq<u8>,
    raw_b: Seq<u8>,
    ts_b: Seq<u8>,
)
    requires
        c.ts_width() == 8,
        raw_a.len() > 0,
        ts_a.len() == 8,
        raw_b.len() > 0,
        ts_b.len() == 8,
    ensures
        key_cmp(raw_a, ts_a, raw_b, ts_b) == full_cmp(c, raw_a + ts_a, raw_b + ts_b),
{
    lemma_comparator_with_u64_orders(c);
    assert(strip_ts(raw_a + ts_a, 8) =~= raw_a);
    assert(strip_ts(raw_b + ts_b, 8) =~= raw_b);
    assert(ts_suffix(raw_a + ts_a, 8) =~= ts_a);
    assert(ts_suffix(raw_b + ts_b, 8) =~= ts_b);
}

/// Sign range, antisymmetry, and the meaning of a tie for `rec_cmp`.
pub proof fn lemma_rec_cmp_basics(x: RecordModel, y: RecordModel)
    ensures
        -1 <= rec_cmp(x, y) <= 1,
        rec_cmp(x, y) == -rec_cmp(y, x),
        rec_cmp(x, y) == 0 <==> (x.raw == y.raw && x.ts == y.ts),
{
    lemma_lex_cmp_range(x.raw, y.raw);
    lemma_lex_cmp_range(x.ts, y.ts);
    lemma_lex_cmp_antisym(x.raw, y.raw);
    lemma_lex_cmp_antisym(x.ts, y.ts);
    lemma_lex_cmp_zero(x.raw, y.raw);
    lemma_lex_cmp_zero(x.ts, y.ts);
}

/// Strict order under `rec_cmp` is transitive.
pub proof fn lemma_rec_cmp_neg_trans(x: RecordModel, y: RecordModel, z: RecordModel)
    requires
        rec_cmp(x, y) < 0,
        rec_cmp(y, z) < 0,
    ensures
        rec_cmp(x, z) < 0,
{
    lemma_lex_cmp_zero(x.raw, y.raw);
    lemma_lex_cmp_zero(y.raw, z.raw);
    lemma_lex_cmp_zero(x.raw, z.raw);
    if x.raw == y.raw && y.raw == z.raw {
        lemma_lex_cmp_antisym(x.ts, y.ts);
        lemma_lex_cmp_antisym(y.ts, z.ts);
        lemma_lex_cmp_antisym(x.ts, z.ts);
        lemma_lex_cmp_trans_neg(z.ts, y.ts, x.ts);
    } else if x.raw == y.raw {
        assert(lex_cmp(x.raw, z.raw) == lex_cmp(y.raw, z.raw));
    } else if y.raw == z.raw {
        assert(lex_cmp(x.raw, z.raw) == lex_cmp(x.raw, y.raw));
    } else {
        lemma_lex_cmp_trans_neg(x.raw, y.raw, z.raw);
    }
}

/// A well-formed store model: every record shaped for the eight-byte
/// timestamp protocol, and the records strictly sorted by `rec_cmp`.
pub open spec fn store_wf(m: Seq<RecordModel>) -> bool {
    &&& forall|i: int|
        0 <= i < m.len() ==> (#[trigger] m[i]).raw.len() > 0 && m[i].ts.len() == 8
    &&& forall|i: int, j: int| 0 <= i < j < m.len() ==> #[trigger] rec_cmp(m[i], m[j]) < 0
}

/// Writing a version into a sorted store model: the new record replaces
/// the version with the same raw key and timestamp, or takes its sorted
/// place among the others.
pub open spec fn spec_write(m: Seq<RecordModel>, rec: RecordModel) -> Seq<RecordModel>
    decreases m.len(),
{
    if m.len() == 0 {
        seq![rec]
    } else if rec_cmp(rec, m[0]) < 0 {
        seq![rec] + m
    } else if rec_cmp(rec, m[0]) == 0 {
        seq![rec] + m.drop_first()
    } else {
        seq![m[0]] + spec_write(m.drop_first(), rec)
    }
}

/// The version of `raw` visible at read timestamp `target`: the first
/// record in store order with that raw key and a timestamp at most
/// `target` — under `store_wf` the one with the largest such timestamp.
pub open spec fn spec_lookup(m: Seq<RecordModel>, raw: Seq<u8>, target: Seq<u8>) -> Option<
    RecordModel,
>
    decreases m.len(),
{
    if m.len() == 0 {
        Option::None
    } else if m[0].raw == raw && lex_cmp(m[0].ts, target) <= 0 {
        Option::Some(m[0])
    } else {
        spec_lookup(m.drop_first(), raw, target)
    }
}

/// Forward iteration at read timestamp `target`: for each raw key in
/// order its visible version, where that version is not a tombstone.
/// `last` is the raw key whose versions are already accounted for.
pub open spec fn spec_visible_scan(
    m: Seq<RecordModel>,
    target: Seq<u8>,
    last: Option<Seq<u8>>,
) -> Seq<RecordModel>
    decreases m.len(),
{
    if m.len() == 0 {
        Seq::empty()
    } else if last == Option::Some(m[0].raw) {
        spec_visible_scan(m.drop_first(), target, last)
    } else if lex_cmp(m[0].ts, target) <= 0 {
        (if m[0].val is Some {
            seq![m[0]]
        } else {
            Seq::empty()
        }) + spec_visible_scan(m.drop_first(), target, Option::Some(m[0].raw))
    } else {
        spec_visible_scan(m.drop_first(), target, last)
    }
}

/// Whether a version's timestamp falls in the inclusive range
/// `[start, target]`.
pub open spec fn in_ts_range(e: RecordModel, start: Seq<u8>, target: Seq<u8>) -> bool {
    lex_cmp(start, e.ts) <= 0 && lex_cmp(e.ts, target) <= 0
}

/// Range iteration: every version whose timestamp lies in
/// `[start, target]`, in store order — per raw key newest first —
/// tombstones included.
pub open spec fn spec_range_scan(m: Seq<RecordModel>, start: Seq<u8>, target: Seq<u8>) -> Seq<
    RecordModel,
> {
    m.filter(|e: RecordModel| in_ts_range(e, start, target))
}

/// The visible version `spec_lookup` returns is the one with the largest
/// timestamp at most `target` among the stored versions of `raw`; when it
/// returns nothing, no stored version of `raw` is at or below `target`.
pub proof fn lemma_lookup_visibility(m: Seq<RecordModel>, raw: Seq<u8>, target: Seq<u8>)
    requires
        store_wf(m),
    ensures
        (match spec_lookup(m, raw, target) {
            Option::None => forall|j: int|
                0 <= j < m.len() ==> !((#[trigger] m[j]).raw == raw && lex_cmp(m[j].ts, target)
                    <= 0),
            Option::Some(e) => {
                &&& exists|j: int| 0 <= j < m.len() && m[j] == e
                &&& e.raw == raw
                &&& lex_cmp(e.ts, target) <= 0
                &&& forall|j: int|
                    0 <= j < m.len() && (#[trigger] m[j]).raw == raw && lex_cmp(m[j].ts, target)
                        <= 0 ==> lex_cmp(m[j].ts, e.ts) <= 0
            },
        }),
    decreases m.len(),
{
    if m.len() == 0 {
    } else if m[0].raw == raw && lex_cmp(m[0].ts, target) <= 0 {
        let e = m[0];
        assert(m[0] == e && 0 <= 0 < m.len());
        assert forall|j: int|
            0 <= j < m.len() && (#[trigger] m[j]).raw == raw && lex_cmp(m[j].ts, target)
                <= 0 implies lex_cmp(m[j].ts, e.ts) <= 0 by {
            if j > 0 {
                assert(rec_cmp(m[0], m[j]) < 0);
                lemma_lex_cmp_zero(m[0].raw, m[j].raw);
                lemma_lex_cmp_antisym(m[0].ts, m[j].ts);
                lemma_lex_cmp_range(m[j].ts, m[0].ts);
            } else {
                lemma_lex_cmp_zero(m[j].ts, e.ts);
            }
        }
    } else {
        assert(store_wf(m.drop_first())) by {
            assert(forall|i: int|
                0 <= i < m.drop_first().len() ==> #[trigger] m.drop_first()[i] == m[i + 1]);
        }
        lemma_lookup_visibility(m.drop_first(), raw, target);
        assert(forall|j: int|
            1 <= j < m.len() ==> #[trigger] m[j] == m.drop_first()[j - 1]);
        match spec_lookup(m, raw, target) {
            Option::None => {
                assert forall|j: int|
                    0 <= j < m.len() implies !((#[trigger] m[j]).raw == raw && lex_cmp(
                    m[j].ts,
                    target,
                ) <= 0) by {
                    if j > 0 {
                        assert(m.drop_first()[j - 1] == m[j]);
                    }
                }
            },
            Option::Some(e) => {
                let j0 = choose|j: int|
                    0 <= j < m.drop_first().len() && m.drop_first()[j] == e;
                assert(m[j0 + 1] == e && 0 <= j0 + 1 < m.len());
            },
        }
    }
}

/// Records of `last`'s raw key stand, if at all, only at the front of
/// `m`: every record of that raw key is preceded by records of it alone.
spec fn last_grouped(m: Seq<RecordModel>, last: Option<Seq<u8>>) -> bool {
    match last {
        Option::None => true,
        Option::Some(r) => forall|j: int, k: int|
            #![trigger m[j], m[k]]
            0 <= j < k < m.len() && m[k].raw == r ==> m[j].raw == r,
    }
}

/// Every record the visible scan yields is a non-tombstone, is what a
/// point read of its raw key sees, and is not of the raw key already
/// accounted for.
proof fn lemma_visible_scan_sound(m: Seq<RecordModel>, target: Seq<u8>, last: Option<Seq<u8>>)
    requires
        store_wf(m),
        last_grouped(m, last),
    ensures
        forall|k: int|
            0 <= k < spec_visible_scan(m, target, last).len() ==> {
                let e = #[trigger] spec_visible_scan(m, target, last)[k];
                &&& e.val is Some
                &&& spec_lookup(m, e.raw, target) == Option::Some(e)
                &&& (last is Some ==> e.raw != last->0)
            },
    decreases m.len(),
{
    if m.len() == 0 {
        return ;
    }
    let tail = m.drop_first();
    assert(forall|i: int| 0 <= i < tail.len() ==> #[trigger] tail[i] == m[i + 1]);
    assert(store_wf(tail));
    let out = spec_visible_scan(m, target, last);
    if last == Option::Some(m[0].raw) {
        assert(last_grouped(tail, last));
        lemma_visible_scan_sound(tail, target, last);
        assert forall|k: int| 0 <= k < out.len() implies {
            let e = #[trigger] out[k];
            &&& e.val is Some
            &&& spec_lookup(m, e.raw, target) == Option::Some(e)
            &&& (last is Some ==> e.raw != last->0)
        } by {
            let e = out[k];
            assert(e == spec_visible_scan(tail, target, last)[k]);
            assert(e.raw != m[0].raw);
        }
    } else if lex_cmp(m[0].ts, target) <= 0 {
        let sub = spec_visible_scan(tail, target, Option::Some(m[0].raw));
        assert(last_grouped(tail, Option::Some(m[0].raw))) by {
            assert forall|j: int, k: int|
                #![trigger tail[j], tail[k]]
                0 <= j < k < tail.len() && tail[k].raw == m[0].raw implies tail[j].raw == m[0].raw by {
                assert(rec_cmp(m[0], m[j + 1]) < 0);
                assert(rec_cmp(m[j + 1], m[k + 1]) < 0);
                lemma_lex_cmp_antisym(m[0].raw, m[j + 1].raw);
                lemma_lex_cmp_zero(m[0].raw, m[j + 1].raw);
                lemma_lex_cmp_zero(m[j + 1].raw, m[k + 1].raw);
            }
        }
        lemma_visible_scan_sound(tail, target, Option::Some(m[0].raw));
        if last is Some {
            // No record of the accounted-for raw key remains anywhere in m.
            assert forall|i: int| 0 <= i < m.len() implies (#[trigger] m[i]).raw != last->0 by {
                if i > 0 && m[i].raw == last->0 {
                    assert(m[0].raw == last->0);
                }
            }
        }
        assert forall|k: int| 0 <= k < out.len() implies {
            let e = #[trigger] out[k];
            &&& e.val is Some
            &&& spec_lookup(m, e.raw, target) == Option::Some(e)
            &&& (last is Some ==> e.raw != last->0)
        } by {
            let e = out[k];
            if m[0].val is Some && k == 0 {
                assert(e == m[0]);
                assert(spec_lookup(m, e.raw, target) == Option::Some(m[0]));
            } else {
                let k2: int = if m[0].val is Some { k - 1 } else { k };
                assert(e == sub[k2]);
                assert(e.raw != m[0].raw);
                assert(spec_lookup(m, e.raw, target) == spec_lookup(tail, e.raw, target));
                lemma_lookup_visibility(m, e.raw, target);
                if last is Some {
                    let j0 = choose|j: int| 0 <= j < m.len() && m[j] == e;
                    assert(m[j0].raw != last->0);
                }
            }
        }
    } else {
        assert(last_grouped(tail, last));
        lemma_visible_scan_sound(tail, target, last);
        assert forall|k: int| 0 <= k < out.len() implies {
            let e = #[trigger] out[k];
            &&& e.val is Some
            &&& spec_lookup(m, e.raw, target) == Option::Some(e)
            &&& (last is Some ==> e.raw != last->0)
        } by {
            let e = out[k];
            assert(e == spec_visible_scan(tail, target, last)[k]);
            assert(spec_lookup(m, e.raw, target) == spec_lookup(tail, e.raw, target));
        }
    }
}

/// Every raw key whose point read at `target` sees a non-tombstone
/// version, other than the raw key already accounted for, has that
/// version in the visible scan.
proof fn lemma_visible_scan_complete(m: Seq<RecordModel>, target: Seq<u8>, last: Option<Seq<u8>>)
    requires
        store_wf(m),
        last_grouped(m, last),
    ensures
        forall|raw: Seq<u8>|
            ((#[trigger] spec_lookup(m, raw, target)) matches Option::Some(e) && e.val is Some && (
            last is Some ==> raw != last->0)) ==> spec_visible_scan(m, target, last).contains(
                spec_lookup(m, raw, target)->0,
            ),
    decreases m.len(),
{
    if m.len() == 0 {
        return ;
    }
    let tail = m.drop_first();
    assert(forall|i: int| 0 <= i < tail.len() ==> #[trigger] tail[i] == m[i + 1]);
    assert(store_wf(tail));
    let out = spec_visible_scan(m, target, last);
    assert forall|raw: Seq<u8>|
        ((#[trigger] spec_lookup(m, raw, target)) matches Option::Some(e) && e.val is Some && (
        last is Some ==> raw != last->0)) implies spec_visible_scan(m, target, last).contains(
        spec_lookup(m, raw, target)->0,
    ) by {
        let e = spec_lookup(m, raw, target)->0;
        if last == Option::Some(m[0].raw) {
            assert(m[0].raw != raw);
            assert(spec_lookup(m, raw, target) == spec_lookup(tail, raw, target));
            assert(last_grouped(tail, last));
            lemma_visible_scan_complete(tail, target, last);
            let sub = spec_visible_scan(tail, target, last);
            assert(sub.contains(e));
            let k0 = choose|k: int| 0 <= k < sub.len() && sub[k] == e;
            assert(out[k0] == e);
        } else if lex_cmp(m[0].ts, target) <= 0 {
            let sub = spec_visible_scan(tail, target, Option::Some(m[0].raw));
            assert(last_grouped(tail, Option::Some(m[0].raw))) by {
                assert forall|j: int, k: int|
                    #![trigger tail[j], tail[k]]
                    0 <= j < k < tail.len() && tail[k].raw
                        == m[0].raw implies tail[j].raw == m[0].raw by {
                    assert(rec_cmp(m[0], m[j + 1]) < 0);
                    assert(rec_cmp(m[j + 1], m[k + 1]) < 0);
                    lemma_lex_cmp_antisym(m[0].raw, m[j + 1].raw);
                    lemma_lex_cmp_zero(m[0].raw, m[j + 1].raw);
                    lemma_lex_cmp_zero(m[j + 1].raw, m[k + 1].raw);
                }
            }
            lemma_visible_scan_complete(tail, target, Option::Some(m[0].raw));
            if raw == m[0].raw {
                assert(e == m[0]);
                assert(out[0] == m[0]);
            } else {
                assert(spec_lookup(m, raw, target) == spec_lookup(tail, raw, target));
                assert(sub.contains(e));
                let k0 = choose|k: int| 0 <= k < sub.len() && sub[k] == e;
                if m[0].val is Some {
                    assert(out[k0 + 1] == e);
                } else {
                    assert(out[k0] == e);
                }
            }
        } else {
            if raw == m[0].raw {
                assert(spec_lookup(m, raw, target) == spec_lookup(tail, raw, target));
            } else {
                assert(spec_lookup(m, raw, target) == spec_lookup(tail, raw, target));
            }
            assert(last_grouped(tail, last));
            lemma_visible_scan_complete(tail, target, last);
            if last is Some {
                assert(raw != last->0);
            }
            let sub = spec_visible_scan(tail, target, last);
            assert(sub.contains(e));
            let k0 = choose|k: int| 0 <= k < sub.len() && sub[k] == e;
            assert(out[k0] == e);
        }
    }
}

/// Iteration agrees with point reads, in both directions: every record
/// the scan at `target` yields is a non-tombstone and is exactly the
/// version a point read of its raw key at `target` sees; and every raw
/// key whose point read at `target` sees a non-tombstone version has
/// that version in the scan.
pub proof fn lemma_scan_agrees_with_reads(m: Seq<RecordModel>, target: Seq<u8>)
    requires
        store_wf(m),
    ensures
        forall|k: int|
            0 <= k < spec_visible_scan(m, target, Option::None).len() ==> {
                let e = #[trigger] spec_visible_scan(m, target, Option::None)[k];
                &&& e.val is Some
                &&& spec_lookup(m, e.raw, target) == Option::Some(e)
            },
        forall|raw: Seq<u8>|
            ((#[trigger] spec_lookup(m, raw, target)) matches Option::Some(e) && e.val is Some)
                ==> spec_visible_scan(m, target, Option::None).contains(
                spec_lookup(m, raw, target)->0,
            ),
{
    lemma_visible_scan_sound(m, target, Option::None);
    lemma_visible_scan_complete(m, target, Option::None);
}

/// Writes round-trip: after writing a version, a read of its raw key at
/// exactly its timestamp sees exactly that version — the written value,
/// or the tombstone where the write was a deletion.
pub proof fn lemma_write_then_read(m: Seq<RecordModel>, rec: RecordModel)
    requires
        store_wf(m),
        rec.raw.len() > 0,
        rec.ts.len() == 8,
    ensures
        spec_lookup(spec_write(m, rec), rec.raw, rec.ts) == Option::Some(rec),
    decreases m.len(),
{
    lemma_lex_cmp_zero(rec.ts, rec.ts);
    if m.len() == 0 {
        assert(spec_write(m, rec)[0] == rec);
    } else if rec_cmp(rec, m[0]) < 0 {
        assert(spec_write(m, rec)[0] == rec);
    } else if rec_cmp(rec, m[0]) == 0 {
        assert(spec_write(m, rec)[0] == rec);
    } else {
        let w = spec_write(m, rec);
        assert(w == seq![m[0]] + spec_write(m.drop_first(), rec));
        assert(w[0] == m[0]);
        lemma_rec_cmp_basics(rec, m[0]);
        lemma_lex_cmp_zero(m[0].raw, rec.raw);
        if m[0].raw == rec.raw {
            assert(lex_cmp(m[0].ts, rec.ts) > 0);
        }
        assert(!(m[0].raw == rec.raw && lex_cmp(m[0].ts, rec.ts) <= 0));
        assert(store_wf(m.drop_first())) by {
            assert(forall|i: int|
                0 <= i < m.drop_first().len() ==> #[trigger] m.drop_first()[i] == m[i + 1]);
        }
        lemma_write_then_read(m.drop_first(), rec);
        assert(w.drop_first() =~= spec_write(m.drop_first(), rec));
    }
}

/// An in-memory multi-version store: a registered timestamp-aware
/// comparator handle, and the stored versions kept strictly sorted in the
/// comparator's full-key order.
pub struct MultiVersionStore {
    handle: ComparatorRAIIWrapper<ComparatorWithU64>,
    records: Vec<VersionedRecord>,
}

impl MultiVersionStore {
    /// The stored versions, in store order, as the contracts see them.
    pub closed spec fn model(&self) -> Seq<RecordModel> {
        models_of(self.records@)
    }

    /// The registered comparator name, as the contracts see it.
    pub closed spec fn name_model(&self) -> Seq<u8> {
        self.handle.name_spec()
    }

    /// Well-formedness: the record models form a well-formed store.
    pub open spec fn wf(&self) -> bool {
        store_wf(self.model())
    }

    /// Opens an empty store with `comparator` registered under
    /// `comparator_name` and timestamp width `ts_sz`. Fails with
    /// `InvalidName` exactly when the name cannot serve as a display name.
    pub fn open(comparator_name: Vec<u8>, ts_sz: usize, comparator: ComparatorWithU64) -> (r:
        Result<MultiVersionStore, ComparatorError>)
        requires
            ts_sz as int == comparator.ts_width(),
            comparator.ts_width() == 8,
        ensures
            r is Ok <==> valid_name(comparator_name@),
            r is Ok ==> (r->Ok_0.model() == Seq::<RecordModel>::empty() && r->Ok_0.wf()
                && r->Ok_0.name_model() == comparator_name@),
            r is Err ==> r->Err_0 == ComparatorError::InvalidName,
    {
        match new_timestamp_aware_comparator(comparator_name, ts_sz, comparator) {
            Ok(handle) => {
                let store = MultiVersionStore { handle, records: Vec::new() };
                proof {
                    assert(store.model() =~= Seq::<RecordModel>::empty());
                }
                Ok(store)
            },
            Err(e) => Err(e),
        }
    }

    /// The display name of the registered comparator: the exact bytes
    /// given to `open`, for the store's whole lifetime.
    pub fn comparator_name(&self) -> (r: &Vec<u8>)
        ensures
            r@ == self.name_model(),
            valid_name(r@),
    {
        self.handle.get_name()
    }

    /// Orders two versions by their key parts through the registered
    /// comparator's entry points.
    fn compare_versions(&self, a_raw: &[u8], a_ts: &[u8], b_raw: &[u8], b_ts: &[u8]) -> (r: i32)
        ensures
            r as int == key_cmp(a_raw@, a_ts@, b_raw@, b_ts@),
            -1 <= r <= 1,
    {
        proof {
            lemma_comparator_with_u64_orders(&self.handle.comparator_spec());
            lemma_lex_cmp_range(a_raw@, b_raw@);
            lemma_lex_cmp_range(a_ts@, b_ts@);
        }
        let rc = self.handle.compare_without_timestamp(a_raw, false, b_raw, false);
        if rc != 0 {
            return rc;
        }
        let tc = self.handle.compare_timestamp(a_ts, b_ts);
        -tc
    }

    /// The first position whose record does not order strictly before the
    /// version with key parts `(raw, ts)`.
    fn find_write_pos(&self, raw: &[u8], ts: &[u8]) -> (i: usize)
        requires
            self.wf(),
        ensures
            0 <= i <= self.model().len(),
            forall|j: int| 0 <= j < i ==> rec_cmp(#[trigger] self.model()[j], record_model(raw@, ts@, Option::None)) < 0,
            i < self.model().len() ==> rec_cmp(self.model()[i as int], record_model(raw@, ts@, Option::None)) >= 0,
    {
        let ghost rec = record_model(raw@, ts@, Option::None);
        let mut i: usize = 0;
        while i < self.records.len()
            invariant
                self.wf(),
                rec == record_model(raw@, ts@, Option::None),
                0 <= i <= self.records@.len(),
                self.model().len() == self.records@.len(),
                forall|j: int| 0 <= j < i ==> rec_cmp(#[trigger] self.model()[j], rec) < 0,
            decreases self.records@.len() - i,
        {
            let c = self.compare_versions(
                self.records[i].raw_key.as_slice(),
                self.records[i].timestamp.as_slice(),
                raw,
                ts,
            );
            if c >= 0 {
                return i;
            }
            i = i + 1;
        }
        i
    }

    /// Writes `rec` into the store: it replaces the version with the same
    /// raw key and timestamp, or takes its sorted place among the others.
    fn write_record(&mut self, rec: VersionedRecord)
        requires
            old(self).wf(),
            rec@.raw.len() > 0,
            rec@.ts.len() == 8,
        ensures
            final(self).wf(),
            final(self).model() == spec_write(old(self).model(), rec@),
            final(self).name_model() == old(self).name_model(),
    {
        let ghost m0 = self.model();
        let ghost recm = rec@;
        let i = self.find_write_pos(rec.raw_key.as_slice(), rec.timestamp.as_slice());
        proof {
            assert(record_model(rec.raw_key@, rec.timestamp@, Option::None).raw == recm.raw);
            assert forall|j: int| 0 <= j < i implies rec_cmp(#[trigger] m0[j], recm) < 0 by {
                lemma_rec_cmp_same_key(record_model(rec.raw_key@, rec.timestamp@, Option::None), recm, m0[j]);
            }
            lemma_spec_write_skips_prefix(m0, recm, i as int);
        }
        let replace: bool = if i < self.records.len() {
            let c = self.compare_versions(
                self.records[i].raw_key.as_slice(),
                self.records[i].timestamp.as_slice(),
                rec.raw_key.as_slice(),
                rec.timestamp.as_slice(),
            );
            c == 0
        } else {
            false
        };
        if replace {
            proof {
                lemma_rec_cmp_basics(m0[i as int], recm);
                lemma_rec_cmp_same_key(record_model(rec.raw_key@, rec.timestamp@, Option::None), recm, m0[i as int]);
                assert(rec_cmp(recm, m0[i as int]) == 0);
            }
            self.records.set(i, rec);
            proof {
                assert(self.model() =~= m0.update(i as int, recm));
                assert(m0.skip(i as int)[0] == m0[i as int]);
                assert(m0.skip(i as int).drop_first() =~= m0.skip(i as int + 1));
                assert(spec_write(m0.skip(i as int), recm) == seq![recm] + m0.skip(i as int + 1));
                assert(self.model() =~= m0.take(i as int) + spec_write(m0.skip(i as int), recm));
                lemma_wf_after_replace(m0, recm, i as int);
            }
        } else {
            proof {
                if i < m0.len() {
                    lemma_rec_cmp_basics(m0[i as int], recm);
                    assert(rec_cmp(recm, m0[i as int]) < 0);
                }
            }
            self.records.insert(i, rec);
            proof {
                assert(self.model() =~= m0.insert(i as int, recm));
                if i < m0.len() {
                    assert(m0.skip(i as int)[0] == m0[i as int]);
                    assert(m0.skip(i as int).drop_first() =~= m0.skip(i as int + 1));
                    assert(spec_write(m0.skip(i as int), recm) == seq![recm] + m0.skip(i as int));
                } else {
                    assert(m0.skip(i as int).len() == 0);
                    assert(spec_write(m0.skip(i as int), recm) == seq![recm]);
                    assert(seq![recm] =~= seq![recm] + m0.skip(i as int));
                }
                assert(self.model() =~= m0.take(i as int) + spec_write(m0.skip(i as int), recm));
                lemma_wf_after_insert(m0, recm, i as int);
            }
        }
    }

    /// Records `value` as the version of `raw_key` at timestamp `ts`.
    pub fn put_with_ts(&mut self, raw_key: &[u8], ts: &[u8], value: &[u8])
        requires
            old(self).wf(),
            raw_key@.len() > 0,
            ts@.len() == 8,
        ensures
            final(self).wf(),
            final(self).model() == spec_write(
                old(self).model(),
                record_model(raw_key@, ts@, Option::Some(value@)),
            ),
            final(self).name_model() == old(self).name_model(),
    {
        let rec = VersionedRecord {
            raw_key: slice_to_vec(raw_key),
            timestamp: slice_to_vec(ts),
            value: Option::Some(slice_to_vec(value)),
        };
        self.write_record(rec);
    }

    /// Records a tombstone for `raw_key` at timestamp `ts`: a read at or
    /// above `ts` that selects this version sees the key as deleted.
    pub fn delete_with_ts(&mut self, raw_key: &[u8], ts: &[u8])
        requires
            old(self).wf(),
            raw_key@.len() > 0,
            ts@.len() == 8,
        ensures
            final(self).wf(),
            final(self).model() == spec_write(
                old(self).model(),
                record_model(raw_key@, ts@, Option::None),
            ),
            final(self).name_model() == old(self).name_model(),
    {
        let rec = VersionedRecord {
            raw_key: slice_to_vec(raw_key),
            timestamp: slice_to_vec(ts),
            value: Option::None,
        };
        self.write_record(rec);
    }

    /// The value and timestamp of the version of `raw_key` visible at
    /// `target_ts`: the stored version with the largest timestamp at most
    /// `target_ts`. Yields nothing when no version is visible or the
    /// visible version is a tombstone.
    pub fn get_opt_ts(&self, raw_key: &[u8], target_ts: &[u8]) -> (r: Option<(Vec<u8>, Vec<u8>)>)
        requires
            self.wf(),
        ensures
            (match spec_lookup(self.model(), raw_key@, target_ts@) {
                Option::None => r is None,
                Option::Some(e) => match e.val {
                    Option::Some(v) => r is Some && (r->0).0@ == v && (r->0).1@ == e.ts,
                    Option::None => r is None,
                },
            }),
    {
        let ghost m = self.model();
        let mut i: usize = 0;
        proof {
            assert(m.skip(0) =~= m);
        }
        while i < self.records.len()
            invariant
                self.wf(),
                m == self.model(),
                0 <= i <= self.records@.len(),
                m.len() == self.records@.len(),
                spec_lookup(m, raw_key@, target_ts@) == spec_lookup(
                    m.skip(i as int),
                    raw_key@,
                    target_ts@,
                ),
            decreases self.records@.len() - i,
        {
            proof {
                assert(m.skip(i as int)[0] == m[i as int]);
                lemma_comparator_with_u64_orders(&self.handle.comparator_spec());
            }
            let rec = &self.records[i];
            let raw_c = self.handle.compare_without_timestamp(
                rec.raw_key.as_slice(),
                false,
                raw_key,
                false,
            );
            let ts_c = self.handle.compare_timestamp(rec.timestamp.as_slice(), target_ts);
            proof {
                lemma_lex_cmp_zero(m[i as int].raw, raw_key@);
            }
            if raw_c == 0 && ts_c <= 0 {
                return match &rec.value {
                    Option::Some(v) => Option::Some(
                        (slice_to_vec(v.as_slice()), slice_to_vec(rec.timestamp.as_slice())),
                    ),
                    Option::None => Option::None,
                };
            }
            proof {
                assert(m.skip(i as int).drop_first() =~= m.skip(i as int + 1));
            }
            i = i + 1;
        }
        proof {
            assert(m.skip(i as int).len() == 0);
        }
        Option::None
    }

    /// The value of the version of `raw_key` visible at `target_ts`;
    /// nothing when no version is visible or the visible version is a
    /// tombstone.
    pub fn get_opt(&self, raw_key: &[u8], target_ts: &[u8]) -> (r: Option<Vec<u8>>)
        requires
            self.wf(),
        ensures
            (match spec_lookup(self.model(), raw_key@, target_ts@) {
                Option::None => r is None,
                Option::Some(e) => match e.val {
                    Option::Some(v) => r is Some && r->0@ == v,
                    Option::None => r is None,
                },
            }),
    {
        match self.get_opt_ts(raw_key, target_ts) {
            Option::Some((v, _ts)) => Option::Some(v),
            Option::None => Option::None,
        }
    }

    /// Forward iteration at read timestamp `target_ts`: for each raw key
    /// in order, its visible version where that is not a tombstone.
    pub fn scan(&self, target_ts: &[u8]) -> (out: Vec<VersionedRecord>)
        requires
            self.wf(),
        ensures
            models_of(out@) == spec_visible_scan(self.model(), target_ts@, Option::None),
    {
        let ghost m = self.model();
        let mut out: Vec<VersionedRecord> = Vec::new();
        let mut done_idx: usize = 0;
        let mut any_done: bool = false;
        let ghost done: Option<Seq<u8>> = Option::None;
        let mut i: usize = 0;
        proof {
            assert(models_of(out@) =~= Seq::<RecordModel>::empty());
            assert(m.skip(0) =~= m);
            assert(models_of(out@) + spec_visible_scan(m, target_ts@, Option::None)
                =~= spec_visible_scan(m, target_ts@, Option::None));
        }
        while i < self.records.len()
            invariant
                self.wf(),
                m == self.model(),
                0 <= i <= self.records@.len(),
                m.len() == self.records@.len(),
                any_done ==> done_idx < i && done == Option::Some(m[done_idx as int].raw),
                !any_done ==> done is None,
                spec_visible_scan(m, target_ts@, Option::None) == models_of(out@)
                    + spec_visible_scan(m.skip(i as int), target_ts@, done),
            decreases self.records@.len() - i,
        {
            proof {
                assert(m.skip(i as int)[0] == m[i as int]);
                assert(m.skip(i as int).drop_first() =~= m.skip(i as int + 1));
                lemma_comparator_with_u64_orders(&self.handle.comparator_spec());
            }
            let rec = &self.records[i];
            let same_as_done: bool = if any_done {
                let c = self.handle.compare_without_timestamp(
                    self.records[done_idx].raw_key.as_slice(),
                    false,
                    rec.raw_key.as_slice(),
                    false,
                );
                proof {
                    lemma_lex_cmp_zero(m[done_idx as int].raw, m[i as int].raw);
                }
                c == 0
            } else {
                false
            };
            proof {
                assert(same_as_done <==> done == Option::Some(m[i as int].raw));
            }
            if same_as_done {
            } else {
                let ts_c = self.handle.compare_timestamp(rec.timestamp.as_slice(), target_ts);
                if ts_c <= 0 {
                    match &rec.value {
                        Option::Some(_) => {
                            let ghost out0 = out@;
                            out.push(clone_record(rec));
                            proof {
                                assert(models_of(out@) =~= models_of(out0) + seq![m[i as int]]);
                            }
                        },
                        Option::None => {},
                    }
                    done_idx = i;
                    any_done = true;
                    proof {
                        done = Option::Some(m[i as int].raw);
                    }
                }
            }
            i = i + 1;
        }
        proof {
            assert(m.skip(i as int).len() == 0);
            assert(models_of(out@) + Seq::<RecordModel>::empty() =~= models_of(out@));
        }
        out
    }

    /// Range iteration: every version whose timestamp lies in the
    /// inclusive range `[start_ts, target_ts]`, in store order — per raw
    /// key newest first — tombstones surfaced explicitly with a `value`
    /// of `None`.
    pub fn scan_with_start_ts(&self, target_ts: &[u8], start_ts: &[u8]) -> (out: Vec<
        VersionedRecord,
    >)
        requires
            self.wf(),
        ensures
            models_of(out@) == spec_range_scan(self.model(), start_ts@, target_ts@),
    {
        let ghost m = self.model();
        let mut out: Vec<VersionedRecord> = Vec::new();
        let mut i: usize = 0;
        proof {
            reveal(Seq::filter);
            assert(m.take(0) =~= Seq::<RecordModel>::empty());
            assert(models_of(out@) =~= spec_range_scan(m.take(0), start_ts@, target_ts@));
        }
        while i < self.records.len()
            invariant
                self.wf(),
                m == self.model(),
                0 <= i <= self.records@.len(),
                m.len() == self.records@.len(),
                models_of(out@) == spec_range_scan(m.take(i as int), start_ts@, target_ts@),
            decreases self.records@.len() - i,
        {
            proof {
                lemma_comparator_with_u64_orders(&self.handle.comparator_spec());
            }
            let rec = &self.records[i];
            let lo_c = self.handle.compare_timestamp(start_ts, rec.timestamp.as_slice());
            let hi_c = self.handle.compare_timestamp(rec.timestamp.as_slice(), target_ts);
            proof {
                reveal(Seq::filter);
                assert(m.take(i as int + 1).drop_last() =~= m.take(i as int));
                assert(m.take(i as int + 1).last() == m[i as int]);
            }
            if lo_c <= 0 && hi_c <= 0 {
                let ghost out0 = out@;
                out.push(clone_record(rec));
                proof {
                    reveal(Seq::filter);
                    assert(in_ts_range(m[i as int], start_ts@, target_ts@));
                    assert(models_of(out@) =~= models_of(out0).push(m[i as int]));
                    assert(spec_range_scan(m.take(i as int + 1), start_ts@, target_ts@)
                        == spec_range_scan(m.take(i as int), start_ts@, target_ts@).push(
                        m[i as int]));
                }
            } else {
                proof {
                    reveal(Seq::filter);
                    assert(!in_ts_range(m[i as int], start_ts@, target_ts@));
                    assert(spec_range_scan(m.take(i as int + 1), start_ts@, target_ts@)
                        == spec_range_scan(m.take(i as int), start_ts@, target_ts@));
                }
            }
            i = i + 1;
        }
        proof {
            assert(m.take(i as int) =~= m);
        }
        out
    }
}

/// The model of a version with the given key parts and payload.
pub open spec fn record_model(raw: Seq<u8>, ts: Seq<u8>, val: Option<Seq<u8>>) -> RecordModel {
    RecordModel { raw: raw, ts: ts, val: val }
}

/// `rec_cmp` reads only the key parts: records with equal key parts
/// compare alike against everything.
proof fn lemma_rec_cmp_same_key(x: RecordModel, y: RecordModel, z: RecordModel)
    requires
        x.raw == y.raw,
        x.ts == y.ts,
    ensures
        rec_cmp(x, z) == rec_cmp(y, z),
        rec_cmp(z, x) == rec_cmp(z, y),
{
}

/// Writing a record that orders after the first `i` records leaves that
/// prefix in place.
proof fn lemma_spec_write_skips_prefix(m: Seq<RecordModel>, rec: RecordModel, i: int)
    requires
        0 <= i <= m.len(),
        forall|j: int| 0 <= j < i ==> rec_cmp(#[trigger] m[j], rec) < 0,
    ensures
        spec_write(m, rec) == m.take(i) + spec_write(m.skip(i), rec),
    decreases i,
{
    if i == 0 {
        assert(m.take(0) =~= Seq::<RecordModel>::empty());
        assert(m.skip(0) =~= m);
        assert(spec_write(m, rec) =~= m.take(0) + spec_write(m.skip(0), rec));
    } else {
        lemma_rec_cmp_basics(m[0], rec);
        assert(rec_cmp(rec, m[0]) > 0);
        assert(spec_write(m, rec) == seq![m[0]] + spec_write(m.drop_first(), rec));
        assert(forall|j: int|
            0 <= j < i - 1 ==> #[trigger] m.drop_first()[j] == m[j + 1]);
        lemma_spec_write_skips_prefix(m.drop_first(), rec, i - 1);
        assert(seq![m[0]] + m.drop_first().take(i - 1) =~= m.take(i));
        assert(m.drop_first().skip(i - 1) =~= m.skip(i));
        assert(spec_write(m, rec) =~= m.take(i) + spec_write(m.skip(i), rec));
    }
}

/// Replacing the record at `i` by one with the same key parts keeps the
/// store well formed.
proof fn lemma_wf_after_replace(m: Seq<RecordModel>, rec: RecordModel, i: int)
    requires
        store_wf(m),
        0 <= i < m.len(),
        rec_cmp(rec, m[i]) == 0,
        rec.raw.len() > 0,
        rec.ts.len() == 8,
    ensures
        store_wf(m.update(i, rec)),
{
    let m2 = m.update(i, rec);
    lemma_rec_cmp_basics(rec, m[i]);
    assert forall|p: int, q: int| 0 <= p < q < m2.len() implies #[trigger] rec_cmp(m2[p], m2[q])
        < 0 by {
        if p == i {
            lemma_rec_cmp_same_key(rec, m[i], m[q]);
        } else if q == i {
            lemma_rec_cmp_same_key(rec, m[i], m[p]);
        }
    }
}

/// Inserting a record at the position found for it keeps the store well
/// formed.
proof fn lemma_wf_after_insert(m: Seq<RecordModel>, rec: RecordModel, i: int)
    requires
        store_wf(m),
        0 <= i <= m.len(),
        forall|j: int| 0 <= j < i ==> rec_cmp(#[trigger] m[j], rec) < 0,
        i < m.len() ==> rec_cmp(rec, m[i]) < 0,
        rec.raw.len() > 0,
        rec.ts.len() == 8,
    ensures
        store_wf(m.insert(i, rec)),
{
    let m2 = m.insert(i, rec);
    assert(m2.len() == m.len() + 1);
    assert(forall|j: int| 0 <= j < i ==> #[trigger] m2[j] == m[j]);
    assert(m2[i] == rec);
    assert(forall|j: int| i < j < m2.len() ==> #[trigger] m2[j] == m[j - 1]);
    assert forall|p: int, q: int| 0 <= p < q < m2.len() implies #[trigger] rec_cmp(m2[p], m2[q])
        < 0 by {
        if p == i {
            if q > i {
                if i < m.len() {
                    if q - 1 > i {
                        lemma_rec_cmp_neg_trans(rec, m[i], m[q - 1]);
                    }
                }
            }
        } else if q == i {
        } else if p < i && q > i {
        }
    }
}

/// A fresh record with the same raw key, timestamp and payload.
fn clone_record(rec: &VersionedRecord) -> (out: VersionedRecord)
    ensures
        out@ == rec@,
{
    VersionedRecord {
        raw_key: slice_to_vec(rec.raw_key.as_slice()),
        timestamp: slice_to_vec(rec.timestamp.as_slice()),
        value: match &rec.value {
            Option::Some(v) => Option::Some(slice_to_vec(v.as_slice())),
            Option::None => Option::None,
        },
    }
}

} // verus!
