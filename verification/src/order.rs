//! Text order and a stable sort by text keys.

use vstd::prelude::*;
use crate::text::to_chars;

verus! {

/// `a < b` in the order of `String`: lexicographic by code point (the
/// byte-wise order of UTF-8 agrees with it), a proper prefix first.
pub open spec fn text_lt(a: Seq<char>, b: Seq<char>) -> bool
    decreases a.len(),
{
    if a.len() == 0 {
        b.len() > 0
    } else if b.len() == 0 {
        false
    } else if a[0] != b[0] {
        (a[0] as int) < (b[0] as int)
    } else {
        text_lt(a.drop_first(), b.drop_first())
    }
}

/// No text is below itself.
pub proof fn lemma_text_lt_irreflexive(a: Seq<char>)
    ensures
        !text_lt(a, a),
    decreases a.len(),
{
    if a.len() > 0 {
        lemma_text_lt_irreflexive(a.drop_first());
    }
}

/// Of two different texts exactly one is below the other.
pub proof fn lemma_text_lt_total(a: Seq<char>, b: Seq<char>)
    ensures
        a != b ==> (text_lt(a, b) != text_lt(b, a)),
        a == b ==> !text_lt(a, b),
    decreases a.len(),
{
    if a == b {
        lemma_text_lt_irreflexive(a);
    } else if a.len() > 0 && b.len() > 0 && a[0] == b[0] {
        lemma_text_lt_total(a.drop_first(), b.drop_first());
        if a.drop_first() == b.drop_first() {
            assert(a =~= seq![a[0]] + a.drop_first());
            assert(b =~= seq![b[0]] + b.drop_first());
        }
    } else if a.len() > 0 && b.len() > 0 {
        assert((a[0] as int) != (b[0] as int));
    } else if a.len() == 0 && b.len() == 0 {
        assert(a =~= b);
    }
}

/// The order is transitive.
pub proof fn lemma_text_lt_transitive(a: Seq<char>, b: Seq<char>, c: Seq<char>)
    requires
        text_lt(a, b),
        text_lt(b, c),
    ensures
        text_lt(a, c),
    decreases a.len(),
{
    if a.len() > 0 && b.len() > 0 && c.len() > 0 && a[0] == b[0] && b[0] == c[0] {
        lemma_text_lt_transitive(a.drop_first(), b.drop_first(), c.drop_first());
    }
}

/// `p` lists each of `0..n` once.
pub open spec fn is_permutation(p: Seq<int>, n: nat) -> bool {
    &&& p.len() == n
    &&& forall|i: int| 0 <= i < n ==> 0 <= #[trigger] p[i] < n
    &&& forall|i: int, j: int| 0 <= i < j < n ==> #[trigger] p[i] != #[trigger] p[j]
}

/// Taking the items in the order `p` orders them by `keys`, and items with
/// equal keys keep their relative order.
pub open spec fn stably_sorted(p: Seq<int>, keys: Seq<Seq<char>>) -> bool {
    &&& is_permutation(p, keys.len())
    &&& forall|i: int, j: int|
        0 <= i < j < p.len() ==> !text_lt(keys[#[trigger] p[j]], keys[#[trigger] p[i]])
    &&& forall|i: int, j: int|
        0 <= i < j < p.len() && keys[#[trigger] p[i]] == keys[#[trigger] p[j]] ==> p[i] < p[j]
}

/// Whether `a` comes before `b` in text order.
pub fn text_less(a: &Vec<char>, b: &Vec<char>) -> (r: bool)
    ensures
        r == text_lt(a@, b@),
{
    let mut i: usize = 0;
    assert(a@.skip(0) =~= a@);
    assert(b@.skip(0) =~= b@);
    while i < a.len() && i < b.len() && a[i] == b[i]
        invariant
            i <= a.len(),
            i <= b.len(),
            text_lt(a@, b@) == text_lt(a@.skip(i as int), b@.skip(i as int)),
        decreases a.len() - i,
    {
        assert(a@.skip(i as int).drop_first() =~= a@.skip(i + 1));
        assert(b@.skip(i as int).drop_first() =~= b@.skip(i + 1));
        i = i + 1;
    }
    let ghost x = a@.skip(i as int);
    let ghost y = b@.skip(i as int);
    if i == a.len() {
        i < b.len()
    } else if i == b.len() {
        false
    } else {
        assert(x[0] == a@[i as int] && y[0] == b@[i as int]);
        a[i] < b[i]
    }
}

pub open spec fn keys_of<T>(entries: Seq<(String, T)>) -> Seq<Seq<char>> {
    entries.map_values(|e: (String, T)| e.0@)
}

/// Sorts the entries by their text keys, keeping entries with equal keys in
/// their given order.
pub fn sort_by_keys<T>(entries: Vec<(String, T)>) -> (r: Vec<(String, T)>)
    ensures
        exists|p: Seq<int>|
            #[trigger] stably_sorted(p, keys_of(entries@)) && r@ == p.map_values(
                |j: int| entries@[j],
            ),
{
    let ghost orig = entries@;
    let ghost keys = keys_of(orig);
    let n = entries.len();
    let mut rest = entries;
    let mut out: Vec<(String, T)> = Vec::new();
    let mut out_keys: Vec<Vec<char>> = Vec::new();
    let ghost mut p: Seq<int> = seq![];
    let mut i: usize = 0;
    while i < n
        invariant
            n == orig.len(),
            keys == keys_of(orig),
            i <= n,
            rest@ == orig.skip(i as int),
            out@.len() == i,
            out_keys@.len() == i,
            p.len() == i,
            forall|k: int| 0 <= k < i ==> 0 <= #[trigger] p[k] < i,
            forall|k: int, m: int| 0 <= k < m < i ==> #[trigger] p[k] != #[trigger] p[m],
            forall|k: int| 0 <= k < i ==> (#[trigger] out_keys@[k])@ == keys[p[k]],
            forall|k: int| 0 <= k < i ==> #[trigger] out@[k] == orig[p[k]],
            forall|k: int, m: int|
                0 <= k < m < i ==> !text_lt(keys[#[trigger] p[m]], keys[#[trigger] p[k]]),
            forall|k: int, m: int|
                0 <= k < m < i && keys[#[trigger] p[k]] == keys[#[trigger] p[m]] ==> p[k] < p[m],
        decreases n - i,
    {
        assert(rest@[0] == orig[i as int]);
        let e = rest.remove(0);
        assert(rest@ =~= orig.skip(i + 1));
        let kc = to_chars(e.0.as_str());
        assert(kc@ == keys[i as int]);
        let mut pos: usize = 0;
        while pos < out_keys.len() && !text_less(&kc, &out_keys[pos])
            invariant
                pos <= out_keys@.len(),
                forall|j: int| 0 <= j < pos ==> !text_lt(kc@, (#[trigger] out_keys@[j])@),
            decreases out_keys.len() - pos,
        {
            pos = pos + 1;
        }
        let ghost old_p = p;
        let ghost old_keys = out_keys@;
        let ghost old_out = out@;
        out.insert(pos, e);
        out_keys.insert(pos, kc);
        proof {
            p = old_p.insert(pos as int, i as int);
            let ki = keys[i as int];
            assert forall|k: int| 0 <= k < i + 1 implies 0 <= #[trigger] p[k] < i + 1 by {
                if k < pos {
                    assert(p[k] == old_p[k]);
                } else if k > pos {
                    assert(p[k] == old_p[k - 1]);
                }
            }
            assert forall|k: int, m: int| 0 <= k < m < i + 1 implies #[trigger] p[k]
                != #[trigger] p[m] by {
                if k < pos && m < pos {
                    assert(p[k] == old_p[k] && p[m] == old_p[m]);
                } else if k < pos && m == pos {
                    assert(p[k] == old_p[k]);
                } else if k < pos && m > pos {
                    assert(p[k] == old_p[k] && p[m] == old_p[m - 1]);
                } else if k == pos {
                    assert(p[m] == old_p[m - 1]);
                } else {
                    assert(p[k] == old_p[k - 1] && p[m] == old_p[m - 1]);
                }
            }
            assert forall|k: int| 0 <= k < i + 1 implies (#[trigger] out_keys@[k])@ == keys[p[k]]
                && out@[k] == orig[p[k]] by {
                if k < pos {
                    assert(out_keys@[k] == old_keys[k] && out@[k] == old_out[k]);
                } else if k > pos {
                    assert(out_keys@[k] == old_keys[k - 1] && out@[k] == old_out[k - 1]);
                }
            }
            assert forall|k: int, m: int| 0 <= k < m < i + 1 implies !text_lt(
                keys[#[trigger] p[m]],
                keys[#[trigger] p[k]],
            ) && (keys[p[k]] == keys[p[m]] ==> p[k] < p[m]) by {
                if k < pos && m < pos {
                    assert(p[k] == old_p[k] && p[m] == old_p[m]);
                } else if k < pos && m == pos {
                    assert(p[k] == old_p[k]);
                    assert(old_keys[k]@ == keys[p[k]]);
                    assert(!text_lt(ki, old_keys[k]@));
                } else if k < pos && m > pos {
                    assert(p[k] == old_p[k] && p[m] == old_p[m - 1]);
                } else if k == pos {
                    let a = keys[p[m]];
                    assert(p[m] == old_p[m - 1]);
                    assert(old_keys[pos as int]@ == keys[old_p[pos as int]]);
                    let b = keys[old_p[pos as int]];
                    assert(text_lt(ki, b));
                    if m - 1 > pos {
                        assert(!text_lt(a, b));
                    } else {
                        assert(a == b);
                    }
                    if text_lt(a, ki) {
                        lemma_text_lt_transitive(a, ki, b);
                    }
                    if a == ki {
                        assert(text_lt(a, b));
                        lemma_text_lt_total(a, b);
                    }
                    lemma_text_lt_total(a, ki);
                } else {
                    assert(p[k] == old_p[k - 1] && p[m] == old_p[m - 1]);
                }
            }
        }
        i = i + 1;
    }
    proof {
        assert(stably_sorted(p, keys));
        assert(out@ =~= p.map_values(|j: int| orig[j]));
    }
    out
}

} // verus!
