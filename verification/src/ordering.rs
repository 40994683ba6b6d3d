//! Byte-lexicographic ordering over byte strings: the specification-level
//! order, its ordering laws, and a verified executable comparison.

use vstd::prelude::*;

verus! {

/// Byte-lexicographic comparison of two byte strings, as a sign:
/// `-1` when `a` orders before `b`, `0` when they are equal, `1` when `a`
/// orders after `b`. A proper prefix orders before its extensions.
pub open spec fn lex_cmp(a: Seq<u8>, b: Seq<u8>) -> int
    decreases a.len(),
{
    if a.len() == 0 && b.len() == 0 {
        0
    } else if a.len() == 0 {
        -1
    } else if b.len() == 0 {
        1
    } else if a[0] < b[0] {
        -1
    } else if b[0] < a[0] {
        1
    } else {
        lex_cmp(a.drop_first(), b.drop_first())
    }
}

pub proof fn lemma_lex_cmp_range(a: Seq<u8>, b: Seq<u8>)
    ensures
        -1 <= lex_cmp(a, b) <= 1,
    decreases a.len(),
{
    if a.len() > 0 && b.len() > 0 && a[0] == b[0] {
        lemma_lex_cmp_range(a.drop_first(), b.drop_first());
    }
}

/// The comparison reports equality exactly on equal byte strings.
pub proof fn lemma_lex_cmp_zero(a: Seq<u8>, b: Seq<u8>)
    ensures
        lex_cmp(a, b) == 0 <==> a == b,
    decreases a.len(),
{
    if a.len() == 0 && b.len() == 0 {
        assert(a =~= b);
    } else if a.len() > 0 && b.len() > 0 && a[0] == b[0] {
        lemma_lex_cmp_zero(a.drop_first(), b.drop_first());
        if lex_cmp(a, b) == 0 {
            assert(a.drop_first() == b.drop_first());
            assert(a.len() == b.len());
            assert forall|i: int| 0 <= i < a.len() implies a[i] == b[i] by {
                if i >= 1 {
                    assert(a.drop_first()[i - 1] == a[i]);
                    assert(b.drop_first()[i - 1] == b[i]);
                }
            }
            assert(a =~= b);
        }
        if a == b {
            assert(a.drop_first() =~= b.drop_first());
        }
    }
}

pub proof fn lemma_lex_cmp_antisym(a: Seq<u8>, b: Seq<u8>)
    ensures
        lex_cmp(a, b) == -lex_cmp(b, a),
    decreases a.len(),
{
    if a.len() > 0 && b.len() > 0 && a[0] == b[0] {
        lemma_lex_cmp_antisym(a.drop_first(), b.drop_first());
    }
}

pub proof fn lemma_lex_cmp_trans_neg(a: Seq<u8>, b: Seq<u8>, c: Seq<u8>)
    requires
        lex_cmp(a, b) < 0,
        lex_cmp(b, c) < 0,
    ensures
        lex_cmp(a, c) < 0,
    decreases a.len(),
{
    if a.len() > 0 && b.len() > 0 && c.len() > 0 && a[0] == b[0] && b[0] == c[0] {
        lemma_lex_cmp_trans_neg(a.drop_first(), b.drop_first(), c.drop_first());
    }
}

/// Transitivity in its orders-no-later form, together with equality taken as
/// identity of the byte strings.
pub proof fn lemma_lex_cmp_trans_le(a: Seq<u8>, b: Seq<u8>, c: Seq<u8>)
    requires
        lex_cmp(a, b) <= 0,
        lex_cmp(b, c) <= 0,
    ensures
        lex_cmp(a, c) <= 0,
{
    lemma_lex_cmp_zero(a, b);
    lemma_lex_cmp_zero(b, c);
    if lex_cmp(a, b) < 0 && lex_cmp(b, c) < 0 {
        lemma_lex_cmp_trans_neg(a, b, c);
    }
}

/// Equal prefixes do not decide the comparison: it is settled by what
/// follows them.
pub proof fn lemma_lex_cmp_skip_common_prefix(a: Seq<u8>, b: Seq<u8>, i: int)
    requires
        0 <= i <= a.len(),
        i <= b.len(),
        a.subrange(0, i) == b.subrange(0, i),
    ensures
        lex_cmp(a, b) == lex_cmp(a.skip(i), b.skip(i)),
    decreases i,
{
    if i == 0 {
        assert(a.skip(0) =~= a);
        assert(b.skip(0) =~= b);
    } else {
        assert(a[0] == a.subrange(0, i)[0]);
        assert(b[0] == b.subrange(0, i)[0]);
        assert(a.drop_first().subrange(0, i - 1) =~= b.drop_first().subrange(0, i - 1)) by {
            assert(forall|j: int| 0 <= j < i - 1 ==>
                #[trigger] a.drop_first().subrange(0, i - 1)[j] == a.subrange(0, i)[j + 1]);
            assert(forall|j: int| 0 <= j < i - 1 ==>
                #[trigger] b.drop_first().subrange(0, i - 1)[j] == b.subrange(0, i)[j + 1]);
        }
        lemma_lex_cmp_skip_common_prefix(a.drop_first(), b.drop_first(), i - 1);
        assert(a.drop_first().skip(i - 1) =~= a.skip(i));
        assert(b.drop_first().skip(i - 1) =~= b.skip(i));
    }
}

/// Byte-lexicographic comparison of two byte slices, returning the sign of
/// their order: `-1`, `0` or `1`.
pub fn compare_bytes(a: &[u8], b: &[u8]) -> (r: i32)
    ensures
        r as int == lex_cmp(a@, b@),
        -1 <= r <= 1,
{
    let a_len: usize = a.len();
    let b_len: usize = b.len();
    let min: usize = if a_len < b_len { a_len } else { b_len };
    let mut i: usize = 0;
    while i < min
        invariant
            0 <= i <= min,
            min <= a@.len(),
            min <= b@.len(),
            min == if a@.len() < b@.len() { a@.len() } else { b@.len() },
            a@.subrange(0, i as int) == b@.subrange(0, i as int),
        decreases min - i,
    {
        let x = a[i];
        let y = b[i];
        if x < y {
            proof {
                lemma_lex_cmp_skip_common_prefix(a@, b@, i as int);
                assert(a@.skip(i as int)[0] == x);
                assert(b@.skip(i as int)[0] == y);
            }
            return -1;
        }
        if y < x {
            proof {
                lemma_lex_cmp_skip_common_prefix(a@, b@, i as int);
                assert(a@.skip(i as int)[0] == x);
                assert(b@.skip(i as int)[0] == y);
            }
            return 1;
        }
        proof {
            assert(a@.subrange(0, i + 1) =~= b@.subrange(0, i + 1));
        }
        i = i + 1;
    }
    proof {
        lemma_lex_cmp_skip_common_prefix(a@, b@, min as int);
        assert(a@.skip(min as int).len() == a@.len() - min);
        assert(b@.skip(min as int).len() == b@.len() - min);
    }
    if a_len < b_len {
        -1
    } else if b_len < a_len {
        1
    } else {
        proof {
            assert(a@.skip(min as int) =~= b@.skip(min as int));
            lemma_lex_cmp_zero(a@.skip(min as int), b@.skip(min as int));
        }
        0
    }
}

} // verus!
