//! Lexicographic order on keys.
//!
//! Context entries are kept sorted by key.  Keys are compared character by
//! character, by Unicode scalar value; a proper prefix sorts first.  For
//! UTF-8 encoded strings this coincides with byte-wise lexicographic order.

use vstd::prelude::*;

verus! {

/// Strict lexicographic order on character sequences: `a` sorts before `b`.
pub open spec fn key_lt(a: Seq<char>, b: Seq<char>) -> bool
    decreases a.len(),
{
    if b.len() == 0 {
        false
    } else if a.len() == 0 {
        true
    } else if a[0] != b[0] {
        (a[0] as u32) < (b[0] as u32)
    } else {
        key_lt(a.drop_first(), b.drop_first())
    }
}

/// No key sorts before itself.
pub proof fn lemma_key_lt_irreflexive(a: Seq<char>)
    ensures
        !key_lt(a, a),
    decreases a.len(),
{
    if a.len() > 0 {
        lemma_key_lt_irreflexive(a.drop_first());
    }
}

/// The order is asymmetric, so two keys in order are in particular distinct.
pub proof fn lemma_key_lt_asymmetric(a: Seq<char>, b: Seq<char>)
    requires
        key_lt(a, b),
    ensures
        !key_lt(b, a),
        a != b,
    decreases a.len(),
{
    if a == b {
        lemma_key_lt_irreflexive(a);
    }
    if a.len() > 0 && b.len() > 0 && a[0] == b[0] {
        lemma_key_lt_asymmetric(a.drop_first(), b.drop_first());
    }
}

/// Any two keys are comparable: one sorts before the other, or they are equal.
pub proof fn lemma_key_lt_connex(a: Seq<char>, b: Seq<char>)
    ensures
        key_lt(a, b) || key_lt(b, a) || a == b,
    decreases a.len(),
{
    if a.len() == 0 && b.len() == 0 {
        assert(a =~= b);
    }
    if a.len() > 0 && b.len() > 0 && a[0] != b[0] {
        assert((a[0] as u32) != (b[0] as u32)) by {
            vstd::utf8::char_u32_cast(a[0], a[0] as u32);
            vstd::utf8::char_u32_cast(b[0], b[0] as u32);
        }
    }
    if a.len() > 0 && b.len() > 0 && a[0] == b[0] {
        lemma_key_lt_connex(a.drop_first(), b.drop_first());
        if a.drop_first() == b.drop_first() {
            assert(a.drop_first().len() == a.len() - 1);
            assert(b.drop_first().len() == b.len() - 1);
            assert(a.len() == b.len());
            assert forall|i: int| 0 <= i < a.len() implies a[i] == b[i] by {
                if i > 0 {
                    assert(a[i] == a.drop_first()[i - 1]);
                    assert(b[i] == b.drop_first()[i - 1]);
                }
            }
            assert(a =~= b);
        }
    }
}

/// The order is transitive.
pub proof fn lemma_key_lt_transitive(a: Seq<char>, b: Seq<char>, c: Seq<char>)
    requires
        key_lt(a, b),
        key_lt(b, c),
    ensures
        key_lt(a, c),
    decreases a.len(),
{
    if a.len() > 0 && b.len() > 0 && c.len() > 0 && a[0] == b[0] && b[0] == c[0] {
        lemma_key_lt_transitive(a.drop_first(), b.drop_first(), c.drop_first());
    }
}

/// Three-way comparison of two keys: `-1`, `0` or `1` as `a` sorts before,
/// equals, or sorts after `b`.
pub fn key_cmp(a: &str, b: &str) -> (r: i8)
    ensures
        (r == -1) == key_lt(a@, b@),
        (r == 0) == (a@ == b@),
        (r == 1) == key_lt(b@, a@),
{
    let a_len = a.unicode_len();
    let b_len = b.unicode_len();
    let mut i: usize = 0;
    proof {
        assert(a@.skip(0) =~= a@);
        assert(b@.skip(0) =~= b@);
    }
    loop
        invariant
            i <= a_len,
            i <= b_len,
            a_len == a@.len(),
            b_len == b@.len(),
            key_lt(a@, b@) == key_lt(a@.skip(i as int), b@.skip(i as int)),
            key_lt(b@, a@) == key_lt(b@.skip(i as int), a@.skip(i as int)),
            (a@ == b@) == (a@.skip(i as int) =~= b@.skip(i as int)),
        decreases a_len - i,
    {
        let ghost sa = a@.skip(i as int);
        let ghost sb = b@.skip(i as int);
        if i == a_len && i == b_len {
            assert(sa =~= Seq::<char>::empty());
            assert(sb =~= Seq::<char>::empty());
            return 0;
        }
        if i == a_len {
            assert(sa.len() == 0 && sb.len() > 0);
            return -1;
        }
        if i == b_len {
            assert(sb.len() == 0 && sa.len() > 0);
            return 1;
        }
        let ca = a.get_char(i);
        let cb = b.get_char(i);
        assert(sa[0] == a@[i as int] && sb[0] == b@[i as int]);
        if (ca as u32) < (cb as u32) {
            assert(key_lt(sa, sb));
            assert(!key_lt(sb, sa));
            assert(sa != sb);
            return -1;
        }
        if (cb as u32) < (ca as u32) {
            assert(key_lt(sb, sa));
            assert(!key_lt(sa, sb));
            assert(sa != sb);
            return 1;
        }
        assert(ca == cb);
        proof {
            assert(sa.drop_first() =~= a@.skip(i + 1));
            assert(sb.drop_first() =~= b@.skip(i + 1));
            assert(key_lt(sa, sb) == key_lt(sa.drop_first(), sb.drop_first()));
            assert(key_lt(sb, sa) == key_lt(sb.drop_first(), sa.drop_first()));
            if sa.drop_first() =~= sb.drop_first() {
                assert forall|j: int| 0 <= j < sa.len() implies sa[j] == sb[j] by {
                    if j > 0 {
                        assert(sa[j] == sa.drop_first()[j - 1]);
                        assert(sb[j] == sb.drop_first()[j - 1]);
                    }
                }
                assert(sa =~= sb);
            }
            if sa == sb {
                assert(sa.drop_first() =~= sb.drop_first());
            }
        }
        i = i + 1;
    }
}

} // verus!
