//! Deterministic ordering: tuple keys are encoded as integer sequences and
//! compared lexicographically, and a stable sort yields the order of items.
//!
//! A text component is encoded as its character codes followed by `-1`, so a
//! text that is a proper prefix of another sorts first, exactly as `str`
//! ordering does; a number component is encoded as itself.

use vstd::prelude::*;

verus! {

/// Strict lexicographic order on encoded keys.
pub open spec fn key_lt(a: Seq<i64>, b: Seq<i64>) -> bool
    decreases a.len(),
{
    if a.len() == 0 {
        b.len() > 0
    } else if b.len() == 0 {
        false
    } else if a[0] < b[0] {
        true
    } else if a[0] > b[0] {
        false
    } else {
        key_lt(a.drop_first(), b.drop_first())
    }
}

/// `a` sorts no later than `b`.
pub open spec fn key_le(a: Seq<i64>, b: Seq<i64>) -> bool {
    !key_lt(b, a)
}

/// Keys strictly order every pair of distinct keys.
pub proof fn lemma_key_total(a: Seq<i64>, b: Seq<i64>)
    ensures
        a == b || key_lt(a, b) || key_lt(b, a),
        !(key_lt(a, b) && key_lt(b, a)),
        !key_lt(a, a),
    decreases a.len(),
{
    if a.len() > 0 && b.len() > 0 && a[0] == b[0] {
        lemma_key_total(a.drop_first(), b.drop_first());
        if a.drop_first() == b.drop_first() {
            assert(a =~= seq![a[0]] + a.drop_first());
            assert(b =~= seq![b[0]] + b.drop_first());
        }
    } else if a.len() == 0 && b.len() == 0 {
        assert(a =~= b);
    }
    if a.len() > 0 {
        lemma_key_total(a.drop_first(), a.drop_first());
    }
}

/// The strict order is transitive.
pub proof fn lemma_key_trans(a: Seq<i64>, b: Seq<i64>, c: Seq<i64>)
    requires
        key_lt(a, b),
        key_lt(b, c),
    ensures
        key_lt(a, c),
    decreases a.len(),
{
    if a.len() > 0 && b.len() > 0 && c.len() > 0 && a[0] == b[0] && b[0] == c[0] {
        lemma_key_trans(a.drop_first(), b.drop_first(), c.drop_first());
    }
}

/// "Sorts no later than" is transitive.
pub proof fn lemma_key_le_trans(a: Seq<i64>, b: Seq<i64>, c: Seq<i64>)
    requires
        key_le(a, b),
        key_le(b, c),
    ensures
        key_le(a, c),
{
    if key_lt(c, a) {
        lemma_key_total(a, b);
        if a != b {
            lemma_key_trans(c, a, b);
        }
    }
}

/// Whether key `a` sorts strictly before key `b`.
pub fn key_less(a: &[i64], b: &[i64]) -> (r: bool)
    ensures
        r == key_lt(a@, b@),
{
    let mut i: usize = 0;
    assert(a@.skip(0) =~= a@);
    assert(b@.skip(0) =~= b@);
    loop
        invariant
            i <= a@.len(),
            i <= b@.len(),
            key_lt(a@, b@) == key_lt(a@.skip(i as int), b@.skip(i as int)),
        decreases a@.len() - i,
    {
        let ghost sa = a@.skip(i as int);
        let ghost sb = b@.skip(i as int);
        if i == a.len() {
            assert(sa.len() == 0);
            return i < b.len();
        }
        if i == b.len() {
            return false;
        }
        assert(sa[0] == a@[i as int]);
        assert(sb[0] == b@[i as int]);
        if a[i] < b[i] {
            return true;
        }
        if a[i] > b[i] {
            return false;
        }
        assert(sa.drop_first() =~= a@.skip(i + 1));
        assert(sb.drop_first() =~= b@.skip(i + 1));
        i = i + 1;
    }
}

/// `order` lists each index below `n` exactly once.
pub open spec fn is_permutation(order: Seq<usize>, n: nat) -> bool {
    &&& order.len() == n
    &&& forall|a: int| 0 <= a < order.len() ==> order[a] < n
    &&& forall|a: int, b: int| 0 <= a < b < order.len() ==> order[a] != order[b]
}

/// Following `order`, keys never decrease, and items with equal keys keep
/// their original relative order.
pub open spec fn sorted_stably(keys: Seq<Seq<i64>>, order: Seq<usize>) -> bool {
    forall|a: int, b: int|
        #![trigger order[a], order[b]]
        0 <= a < b < order.len() ==> key_le(keys[order[a] as int], keys[order[b] as int]) && (
        keys[order[a] as int] == keys[order[b] as int] ==> order[a] < order[b])
}

/// The stable sorted order of items by their keys, as the positions of the
/// items in their original sequence.
pub fn stable_order(keys: &Vec<Vec<i64>>) -> (order: Vec<usize>)
    ensures
        is_permutation(order@, keys@.len()),
        sorted_stably(keys@.map_values(|k: Vec<i64>| k@), order@),
{
    let ghost ks = keys@.map_values(|k: Vec<i64>| k@);
    let n = keys.len();
    let mut order: Vec<usize> = Vec::new();
    let mut i: usize = 0;
    while i < n
        invariant
            n == keys@.len(),
            ks == keys@.map_values(|k: Vec<i64>| k@),
            i <= n,
            order@.len() == i,
            forall|a: int| 0 <= a < order@.len() ==> order@[a] < i,
            forall|a: int, b: int| 0 <= a < b < order@.len() ==> order@[a] != order@[b],
            sorted_stably(ks, order@),
        decreases n - i,
    {
        let mut j: usize = i;
        while j > 0 && key_less(keys[i].as_slice(), keys[order[j - 1]].as_slice())
            invariant
                n == keys@.len(),
                ks == keys@.map_values(|k: Vec<i64>| k@),
                i < n,
                j <= i,
                order@.len() == i,
                forall|a: int| 0 <= a < order@.len() ==> order@[a] < i,
                forall|k: int| j <= k < i ==> key_lt(ks[i as int], ks[order@[k] as int]),
            decreases j,
        {
            assert(ks[i as int] == keys@[i as int]@);
            assert(ks[order@[j - 1] as int] == keys@[order@[j - 1] as int]@);
            j = j - 1;
        }
        proof {
            if j > 0 {
                assert(ks[i as int] == keys@[i as int]@);
                assert(ks[order@[j - 1] as int] == keys@[order@[j - 1] as int]@);
                assert(key_le(ks[order@[j - 1] as int], ks[i as int]));
            }
        }
        let ghost old_order = order@;
        order.insert(j, i);
        proof {
            let no = order@;
            assert(no == old_order.insert(j as int, i));
            assert forall|a: int| 0 <= a < no.len() implies no[a] < i + 1 by {
                if a < j {
                    assert(no[a] == old_order[a]);
                } else if a > j {
                    assert(no[a] == old_order[a - 1]);
                }
            }
            assert forall|a: int, b: int| 0 <= a < b < no.len() implies no[a] != no[b] by {
                if a < j && b < j {
                    assert(no[a] == old_order[a] && no[b] == old_order[b]);
                } else if a < j && b == j {
                    assert(no[a] == old_order[a]);
                } else if a < j {
                    assert(no[a] == old_order[a] && no[b] == old_order[b - 1]);
                } else if a == j {
                    assert(no[b] == old_order[b - 1]);
                } else {
                    assert(no[a] == old_order[a - 1] && no[b] == old_order[b - 1]);
                }
            }
            assert(sorted_stably(ks, old_order));
            assert forall|a: int, b: int|
                #![trigger no[a], no[b]]
                0 <= a < b < no.len() implies key_le(ks[no[a] as int], ks[no[b] as int]) && (
                ks[no[a] as int] == ks[no[b] as int] ==> no[a] < no[b]) by {
                if a < j && b < j {
                    assert(no[a] == old_order[a] && no[b] == old_order[b]);
                    assert(key_le(ks[old_order[a] as int], ks[old_order[b] as int]));
                } else if a < j && b == j {
                    assert(no[a] == old_order[a]);
                    if a < j - 1 {
                        assert(key_le(ks[old_order[a] as int], ks[old_order[j - 1] as int]));
                        lemma_key_le_trans(
                            ks[old_order[a] as int],
                            ks[old_order[j - 1] as int],
                            ks[i as int],
                        );
                    }
                } else if a < j {
                    assert(no[a] == old_order[a] && no[b] == old_order[b - 1]);
                    assert(key_le(ks[old_order[a] as int], ks[old_order[b - 1] as int]));
                } else if a == j {
                    assert(no[b] == old_order[b - 1]);
                    assert(key_lt(ks[i as int], ks[old_order[b - 1] as int]));
                    lemma_key_total(ks[i as int], ks[old_order[b - 1] as int]);
                } else {
                    assert(no[a] == old_order[a - 1] && no[b] == old_order[b - 1]);
                    assert(key_le(ks[old_order[a - 1] as int], ks[old_order[b - 1] as int]));
                }
            }
            assert(sorted_stably(ks, no));
        }
        i = i + 1;
    }
    order
}

/// The key component of a text: its character codes, then `-1`.
pub open spec fn text_key(s: Seq<char>) -> Seq<i64> {
    s.map_values(|c: char| c as u32 as i64).push(-1i64)
}

/// Distinct texts have distinct keys.
pub proof fn lemma_text_key_injective(a: Seq<char>, b: Seq<char>)
    requires
        text_key(a) == text_key(b),
    ensures
        a == b,
{
    assert(text_key(a).len() == a.len() + 1);
    assert(text_key(b).len() == b.len() + 1);
    assert forall|i: int| 0 <= i < a.len() implies a[i] == b[i] by {
        assert(text_key(a)[i] == text_key(b)[i]);
        let f = |c: char| c as u32 as i64;
        assert(a.map_values(f)[i] == text_key(a)[i]);
        assert(b.map_values(f)[i] == text_key(b)[i]);
        let u = a[i] as u32;
        assert(u == b[i] as u32);
        vstd::utf8::char_u32_cast(a[i], u);
        vstd::utf8::char_u32_cast(b[i], u);
    }
    assert(a =~= b);
}

/// The key component of a number.
pub open spec fn num_key(n: nat) -> Seq<i64> {
    seq![n as i64]
}

/// Appends the key component of a text.
pub fn push_text_key(key: &mut Vec<i64>, s: &[char])
    ensures
        final(key)@ == old(key)@ + text_key(s@),
{
    let mut i: usize = 0;
    while i < s.len()
        invariant
            i <= s@.len(),
            key@ == old(key)@ + s@.take(i as int).map_values(|c: char| c as u32 as i64),
        decreases s@.len() - i,
    {
        let c = s[i];
        key.push(c as u32 as i64);
        i = i + 1;
        assert(key@ =~= old(key)@ + s@.take(i as int).map_values(|c: char| c as u32 as i64));
    }
    key.push(-1);
    assert(s@.take(s@.len() as int) =~= s@);
    assert(key@ =~= old(key)@ + text_key(s@));
}

/// Appends the key component of a number.
pub fn push_num_key(key: &mut Vec<i64>, n: u32)
    ensures
        final(key)@ == old(key)@ + num_key(n as nat),
{
    key.push(n as i64);
    assert(key@ =~= old(key)@ + num_key(n as nat));
}

} // verus!
