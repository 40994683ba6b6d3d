//! The timestamp-aware comparison protocol.
//!
//! A timestamp-aware comparator keeps a total order over full keys of the
//! form `raw_key || timestamp`, where the timestamp is a fixed-width suffix.
//! The protocol has three operations: `compare` over two full keys,
//! `compare_timestamp` over two bare timestamps, and
//! `compare_without_timestamp` over the raw-key portions alone. `compare`
//! orders first by raw key and breaks ties by *descending* timestamp, so
//! that for one raw key the newest version sorts first.

use vstd::prelude::*;
use vstd::slice::slice_subrange;

use crate::ordering::compare_bytes;
use crate::ordering::lemma_lex_cmp_antisym;
use crate::ordering::lemma_lex_cmp_range;
use crate::ordering::lemma_lex_cmp_trans_le;
use crate::ordering::lemma_lex_cmp_trans_neg;
use crate::ordering::lemma_lex_cmp_zero;
use crate::ordering::lex_cmp;

verus! {

/// The raw-key portion of a timestamp-suffixed key: everything before the
/// trailing `width` timestamp bytes.
pub open spec fn strip_ts(key: Seq<u8>, width: int) -> Seq<u8>
    recommends
        0 <= width <= key.len(),
{
    key.take(key.len() - width)
}

/// The timestamp suffix of a key: its trailing `width` bytes.
pub open spec fn ts_suffix(key: Seq<u8>, width: int) -> Seq<u8>
    recommends
        0 <= width <= key.len(),
{
    key.skip(key.len() - width)
}

/// A comparator over keys that carry a fixed-width timestamp suffix.
///
/// The comparison outcome convention is canonical throughout: `-1` when the
/// first operand orders before the second, `0` on a tie, `1` when it orders
/// after. `raw_cmp` and `ts_cmp` are the orders the implementation gives to
/// bare raw keys and to bare timestamps; `lemma_protocol_laws` obliges every
/// implementation to make `raw_cmp` a total order in sign form and `ts_cmp`
/// the byte-lexicographic order on timestamps of the configured width, so
/// that the engine's multi-version reads can rely on both.
pub trait TimestampAwareComparator: Sized {
    /// Width in bytes of the timestamp suffix at the tail of every full key.
    spec fn ts_width(&self) -> int;

    /// The order of two bare raw keys, as a sign.
    spec fn raw_cmp(&self, a: Seq<u8>, b: Seq<u8>) -> int;

    /// The order of two bare timestamps, as a sign.
    spec fn ts_cmp(&self, a: Seq<u8>, b: Seq<u8>) -> int;

    /// The laws of the protocol: the raw-key order is an antisymmetric,
    /// transitive sign, and the timestamp order on timestamps of the
    /// configured width is exactly the byte-lexicographic order.
    proof fn lemma_protocol_laws(&self)
        ensures
            self.ts_width() >= 0,
            forall|a: Seq<u8>, b: Seq<u8>| -1 <= #[trigger] self.raw_cmp(a, b) <= 1,
            forall|a: Seq<u8>, b: Seq<u8>| #[trigger] self.raw_cmp(a, b) == -self.raw_cmp(b, a),
            forall|a: Seq<u8>, b: Seq<u8>, c: Seq<u8>|
                (#[trigger] self.raw_cmp(a, b)) <= 0 && (#[trigger] self.raw_cmp(b, c)) <= 0
                    ==> self.raw_cmp(a, c) <= 0,
            forall|a: Seq<u8>, b: Seq<u8>|
                a.len() == self.ts_width() && b.len() == self.ts_width()
                    ==> #[trigger] self.ts_cmp(a, b) == lex_cmp(a, b),
    ;

    /// The configured timestamp width, as a run-time value.
    fn timestamp_width(&self) -> (w: usize)
        ensures
            w as int == self.ts_width(),
    ;

    /// Total order over two full keys, each carrying a timestamp suffix:
    /// by raw key first, and for equal raw keys by descending timestamp.
    fn compare(&self, a: &[u8], b: &[u8]) -> (r: i32)
        requires
            a@.len() > self.ts_width(),
            b@.len() > self.ts_width(),
        ensures
            ({
                let rc = self.raw_cmp(strip_ts(a@, self.ts_width()), strip_ts(b@, self.ts_width()));
                r as int == if rc != 0 {
                    rc
                } else {
                    -self.ts_cmp(ts_suffix(a@, self.ts_width()), ts_suffix(b@, self.ts_width()))
                }
            }),
    ;

    /// Total order over two bare timestamp values.
    fn compare_timestamp(&self, a: &[u8], b: &[u8]) -> (r: i32)
        ensures
            r as int == self.ts_cmp(a@, b@),
    ;

    /// Total order over the raw-key portions of the operands. An operand
    /// carries a timestamp suffix exactly when its paired flag is set; the
    /// suffix is excluded before comparing. A flagged operand must be
    /// strictly longer than the timestamp width.
    fn compare_without_timestamp(&self, a: &[u8], a_has_ts: bool, b: &[u8], b_has_ts: bool) -> (r:
        i32)
        requires
            a_has_ts ==> a@.len() > self.ts_width(),
            b_has_ts ==> b@.len() > self.ts_width(),
        ensures
            r as int == self.raw_cmp(
                if a_has_ts { strip_ts(a@, self.ts_width()) } else { a@ },
                if b_has_ts { strip_ts(b@, self.ts_width()) } else { b@ },
            ),
    ;
}

/// The full-key order of a timestamp-aware comparator: the raw-key order,
/// and on a raw-key tie the *inverted* timestamp order, so the largest
/// timestamp sorts first.
pub open spec fn full_cmp<C: TimestampAwareComparator>(c: &C, a: Seq<u8>, b: Seq<u8>) -> int {
    let rc = c.raw_cmp(strip_ts(a, c.ts_width()), strip_ts(b, c.ts_width()));
    if rc != 0 {
        rc
    } else {
        -c.ts_cmp(ts_suffix(a, c.ts_width()), ts_suffix(b, c.ts_width()))
    }
}

/// The full-key order is antisymmetric: swapping the operands flips the sign.
pub proof fn lemma_full_cmp_antisym<C: TimestampAwareComparator>(c: &C, a: Seq<u8>, b: Seq<u8>)
    requires
        a.len() > c.ts_width(),
        b.len() > c.ts_width(),
    ensures
        full_cmp(c, a, b) == -full_cmp(c, b, a),
{
    c.lemma_protocol_laws();
    lemma_lex_cmp_antisym(ts_suffix(a, c.ts_width()), ts_suffix(b, c.ts_width()));
}

/// Keys tied under the full-key order are tied transitively.
pub proof fn lemma_full_cmp_eq_trans<C: TimestampAwareComparator>(
    c: &C,
    a: Seq<u8>,
    b: Seq<u8>,
    k: Seq<u8>,
)
    requires
        a.len() > c.ts_width(),
        b.len() > c.ts_width(),
        k.len() > c.ts_width(),
        full_cmp(c, a, b) == 0,
        full_cmp(c, b, k) == 0,
    ensures
        full_cmp(c, a, k) == 0,
{
    c.lemma_protocol_laws();
    let w = c.ts_width();
    lemma_raw_cmp_eq_trans(c, strip_ts(a, w), strip_ts(b, w), strip_ts(k, w));
    lemma_lex_cmp_zero(ts_suffix(a, w), ts_suffix(b, w));
    lemma_lex_cmp_zero(ts_suffix(b, w), ts_suffix(k, w));
    lemma_lex_cmp_zero(ts_suffix(a, w), ts_suffix(k, w));
}

/// Strict order under the full-key order is transitive.
pub proof fn lemma_full_cmp_neg_trans<C: TimestampAwareComparator>(
    c: &C,
    a: Seq<u8>,
    b: Seq<u8>,
    k: Seq<u8>,
)
    requires
        a.len() > c.ts_width(),
        b.len() > c.ts_width(),
        k.len() > c.ts_width(),
        full_cmp(c, a, b) < 0,
        full_cmp(c, b, k) < 0,
    ensures
        full_cmp(c, a, k) < 0,
{
    c.lemma_protocol_laws();
    let w = c.ts_width();
    let sa = strip_ts(a, w);
    let sb = strip_ts(b, w);
    let sk = strip_ts(k, w);
    let ta = ts_suffix(a, w);
    let tb = ts_suffix(b, w);
    let tk = ts_suffix(k, w);
    if c.raw_cmp(sa, sb) == 0 && c.raw_cmp(sb, sk) == 0 {
        lemma_raw_cmp_eq_trans(c, sa, sb, sk);
        lemma_lex_cmp_antisym(ta, tb);
        lemma_lex_cmp_antisym(tb, tk);
        lemma_lex_cmp_antisym(ta, tk);
        lemma_lex_cmp_trans_neg(tk, tb, ta);
    } else if c.raw_cmp(sa, sb) == 0 {
        lemma_raw_cmp_eq_swap(c, sa, sb, sk);
    } else if c.raw_cmp(sb, sk) == 0 {
        lemma_raw_cmp_swap_eq(c, sa, sb, sk);
    } else {
        lemma_raw_cmp_neg_trans(c, sa, sb, sk);
    }
}

/// Raw-key ties are transitive, from antisymmetry and the orders-no-later
/// transitivity the protocol laws give.
proof fn lemma_raw_cmp_eq_trans<C: TimestampAwareComparator>(
    c: &C,
    x: Seq<u8>,
    y: Seq<u8>,
    z: Seq<u8>,
)
    requires
        c.raw_cmp(x, y) == 0,
        c.raw_cmp(y, z) == 0,
    ensures
        c.raw_cmp(x, z) == 0,
{
    c.lemma_protocol_laws();
    assert(c.raw_cmp(x, z) <= 0);
    assert(c.raw_cmp(z, y) == 0);
    assert(c.raw_cmp(y, x) == 0);
    assert(c.raw_cmp(z, x) <= 0);
}

/// A raw-key tie followed by a strict raw-key order is strict.
proof fn lemma_raw_cmp_eq_swap<C: TimestampAwareComparator>(
    c: &C,
    x: Seq<u8>,
    y: Seq<u8>,
    z: Seq<u8>,
)
    requires
        c.raw_cmp(x, y) == 0,
        c.raw_cmp(y, z) < 0,
    ensures
        c.raw_cmp(x, z) < 0,
{
    c.lemma_protocol_laws();
    assert(c.raw_cmp(x, z) <= 0);
    if c.raw_cmp(x, z) == 0 {
        assert(c.raw_cmp(z, x) == 0);
        assert(c.raw_cmp(x, y) == 0);
        assert(c.raw_cmp(z, y) <= 0);
        assert(c.raw_cmp(y, z) >= 0);
    }
}

/// A strict raw-key order followed by a raw-key tie is strict.
proof fn lemma_raw_cmp_swap_eq<C: TimestampAwareComparator>(
    c: &C,
    x: Seq<u8>,
    y: Seq<u8>,
    z: Seq<u8>,
)
    requires
        c.raw_cmp(x, y) < 0,
        c.raw_cmp(y, z) == 0,
    ensures
        c.raw_cmp(x, z) < 0,
{
    c.lemma_protocol_laws();
    assert(c.raw_cmp(x, z) <= 0);
    if c.raw_cmp(x, z) == 0 {
        assert(c.raw_cmp(z, y) == 0);
        assert(c.raw_cmp(z, x) == 0);
        assert(c.raw_cmp(x, y) >= 0);
    }
}

/// Strict raw-key order is transitive.
proof fn lemma_raw_cmp_neg_trans<C: TimestampAwareComparator>(
    c: &C,
    x: Seq<u8>,
    y: Seq<u8>,
    z: Seq<u8>,
)
    requires
        c.raw_cmp(x, y) < 0,
        c.raw_cmp(y, z) < 0,
    ensures
        c.raw_cmp(x, z) < 0,
{
    c.lemma_protocol_laws();
    assert(c.raw_cmp(x, z) <= 0);
    if c.raw_cmp(x, z) == 0 {
        assert(c.raw_cmp(z, x) == 0);
        assert(c.raw_cmp(z, y) <= 0);
        assert(c.raw_cmp(y, z) >= 0);
    }
}

/// For raw keys tied under the raw-key order, the full-key order puts the
/// key with the *larger* timestamp first.
pub proof fn lemma_timestamp_tiebreak_inversion<C: TimestampAwareComparator>(
    c: &C,
    a: Seq<u8>,
    b: Seq<u8>,
)
    requires
        a.len() > c.ts_width(),
        b.len() > c.ts_width(),
        c.raw_cmp(strip_ts(a, c.ts_width()), strip_ts(b, c.ts_width())) == 0,
        lex_cmp(ts_suffix(a, c.ts_width()), ts_suffix(b, c.ts_width())) > 0,
    ensures
        full_cmp(c, a, b) < 0,
{
    c.lemma_protocol_laws();
}

/// Stripping the timestamp of a suffixed key compares as a tie against the
/// bare raw key it was built from.
pub proof fn lemma_bare_vs_suffixed<C: TimestampAwareComparator>(c: &C, raw: Seq<u8>, ts: Seq<u8>)
    requires
        raw.len() > 0,
        ts.len() == c.ts_width(),
    ensures
        c.raw_cmp(strip_ts(raw + ts, c.ts_width()), raw) == 0,
{
    c.lemma_protocol_laws();
    assert(strip_ts(raw + ts, c.ts_width()) =~= raw);
}

/// Each comparison is a function of its operands alone: two results of the
/// same operation on bit-identical inputs are equal.
pub proof fn lemma_comparisons_deterministic<C: TimestampAwareComparator>(
    c: &C,
    a: Seq<u8>,
    b: Seq<u8>,
    r1: int,
    r2: int,
)
    ensures
        r1 == full_cmp(c, a, b) && r2 == full_cmp(c, a, b) ==> r1 == r2,
        r1 == c.ts_cmp(a, b) && r2 == c.ts_cmp(a, b) ==> r1 == r2,
        r1 == c.raw_cmp(a, b) && r2 == c.raw_cmp(a, b) ==> r1 == r2,
{
}

/// The trailing `*timestamp_size` bytes of `key`: its timestamp suffix.
pub fn extract_timestamp_from_user_key<'a>(key: &'a [u8], timestamp_size: &'a usize) -> (r: &'a [
    u8])
    requires
        *timestamp_size <= key@.len(),
    ensures
        r@ == ts_suffix(key@, *timestamp_size as int),
{
    slice_subrange(key, key.len() - *timestamp_size, key.len())
}

/// `key` with its trailing `*timestamp_size` timestamp bytes removed.
pub fn strip_timestamp_from_user_key<'a>(key: &'a [u8], timestamp_size: &'a usize) -> (r: &'a [u8])
    requires
        *timestamp_size <= key@.len(),
    ensures
        r@ == strip_ts(key@, *timestamp_size as int),
{
    slice_subrange(key, 0, key.len() - *timestamp_size)
}

/// Byte-wise comparator over keys whose trailing eight bytes are a
/// big-endian `u64` timestamp: raw keys and timestamps both order
/// byte-lexicographically.
pub struct ComparatorWithU64 {
    timestamp_size: usize,
}

impl ComparatorWithU64 {
    pub fn new() -> (c: ComparatorWithU64)
        ensures
            c.ts_width() == 8,
    {
        ComparatorWithU64 { timestamp_size: 8 }
    }
}

/// Both orders of `ComparatorWithU64` are the byte-lexicographic one.
pub proof fn lemma_comparator_with_u64_orders(c: &ComparatorWithU64)
    ensures
        forall|a: Seq<u8>, b: Seq<u8>| #[trigger] c.raw_cmp(a, b) == lex_cmp(a, b),
        forall|a: Seq<u8>, b: Seq<u8>| #[trigger] c.ts_cmp(a, b) == lex_cmp(a, b),
{
}

impl TimestampAwareComparator for ComparatorWithU64 {
    closed spec fn ts_width(&self) -> int {
        self.timestamp_size as int
    }

    closed spec fn raw_cmp(&self, a: Seq<u8>, b: Seq<u8>) -> int {
        lex_cmp(a, b)
    }

    closed spec fn ts_cmp(&self, a: Seq<u8>, b: Seq<u8>) -> int {
        lex_cmp(a, b)
    }

    proof fn lemma_protocol_laws(&self) {
        assert forall|a: Seq<u8>, b: Seq<u8>| -1 <= #[trigger] self.raw_cmp(a, b) <= 1 by {
            lemma_lex_cmp_range(a, b);
        }
        assert forall|a: Seq<u8>, b: Seq<u8>| #[trigger] self.raw_cmp(a, b) == -self.raw_cmp(
            b,
            a,
        ) by {
            lemma_lex_cmp_antisym(a, b);
        }
        assert forall|a: Seq<u8>, b: Seq<u8>, c: Seq<u8>|
            (#[trigger] self.raw_cmp(a, b)) <= 0 && (#[trigger] self.raw_cmp(b, c))
                <= 0 implies self.raw_cmp(a, c) <= 0 by {
            lemma_lex_cmp_trans_le(a, b, c);
        }
    }

    fn timestamp_width(&self) -> (w: usize) {
        self.timestamp_size
    }

    fn compare(&self, a: &[u8], b: &[u8]) -> (r: i32) {
        let ret = self.compare_without_timestamp(a, true, b, true);
        if ret != 0 {
            return ret;
        }
        let ts_a = extract_timestamp_from_user_key(a, &self.timestamp_size);
        let ts_b = extract_timestamp_from_user_key(b, &self.timestamp_size);
        let ts_ret = self.compare_timestamp(ts_a, ts_b);
        proof {
            lemma_lex_cmp_range(ts_a@, ts_b@);
        }
        -ts_ret
    }

    fn compare_timestamp(&self, a: &[u8], b: &[u8]) -> (r: i32) {
        compare_bytes(a, b)
    }

    fn compare_without_timestamp(&self, a: &[u8], a_has_ts: bool, b: &[u8], b_has_ts: bool) -> (r:
        i32) {
        let raw_a: &[u8] = if a_has_ts {
            strip_timestamp_from_user_key(a, &self.timestamp_size)
        } else {
            a
        };
        let raw_b: &[u8] = if b_has_ts {
            strip_timestamp_from_user_key(b, &self.timestamp_size)
        } else {
            b
        };
        compare_bytes(raw_a, raw_b)
    }
}

} // verus!
