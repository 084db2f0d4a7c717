//! A stable sort by precomputed keys, as `sort_by_key` does it.
use vstd::prelude::*;

use crate::model::{all_from, App};
use crate::text::{chars_of, lowercase, to_lower};

verus! {

/// Keys that a stable sort can order: a total preorder with an executable test.
pub trait SortKey: Sized {
    spec fn key_le(&self, other: &Self) -> bool;

    fn le(&self, other: &Self) -> (r: bool)
        ensures
            r == self.key_le(other),
    ;

    proof fn lemma_total(a: &Self, b: &Self)
        ensures
            a.key_le(b) || b.key_le(a),
    ;

    proof fn lemma_trans(a: &Self, b: &Self, c: &Self)
        requires
            a.key_le(b),
            b.key_le(c),
        ensures
            a.key_le(c),
    ;
}

/// Lexicographic order by code point, which is how `String`'s `Ord` compares.
pub open spec fn lex_le(a: Seq<char>, b: Seq<char>) -> bool
    decreases a.len(),
{
    if a.len() == 0 {
        true
    } else if b.len() == 0 {
        false
    } else if a[0] != b[0] {
        (a[0] as u32) < (b[0] as u32)
    } else {
        lex_le(a.drop_first(), b.drop_first())
    }
}

pub proof fn lemma_lex_total(a: Seq<char>, b: Seq<char>)
    ensures
        lex_le(a, b) || lex_le(b, a),
    decreases a.len(),
{
    if a.len() > 0 && b.len() > 0 {
        if a[0] == b[0] {
            lemma_lex_total(a.drop_first(), b.drop_first());
        } else {
            vstd::utf8::char_u32_cast(a[0], a[0] as u32);
            vstd::utf8::char_u32_cast(b[0], b[0] as u32);
        }
    }
}

pub proof fn lemma_lex_trans(a: Seq<char>, b: Seq<char>, c: Seq<char>)
    requires
        lex_le(a, b),
        lex_le(b, c),
    ensures
        lex_le(a, c),
    decreases a.len(),
{
    if a.len() > 0 && b.len() > 0 && c.len() > 0 && a[0] == b[0] && b[0] == c[0] {
        lemma_lex_trans(a.drop_first(), b.drop_first(), c.drop_first());
    }
}

proof fn lemma_lex_skip(a: Seq<char>, b: Seq<char>, i: int)
    requires
        0 <= i <= a.len(),
        i <= b.len(),
        forall|j: int| 0 <= j < i ==> a[j] == b[j],
    ensures
        lex_le(a, b) == lex_le(a.skip(i), b.skip(i)),
    decreases i,
{
    if i > 0 {
        assert(a.drop_first().skip(i - 1) =~= a.skip(i));
        assert(b.drop_first().skip(i - 1) =~= b.skip(i));
        lemma_lex_skip(a.drop_first(), b.drop_first(), i - 1);
    } else {
        assert(a.skip(0) =~= a);
        assert(b.skip(0) =~= b);
    }
}

/// Whether `a` orders before or with `b` (`a <= b` on strings).
pub fn chars_le(a: &Vec<char>, b: &Vec<char>) -> (r: bool)
    ensures
        r == lex_le(a@, b@),
{
    let mut i: usize = 0;
    while i < a.len() && i < b.len() && a[i] == b[i]
        invariant
            i <= a@.len(),
            i <= b@.len(),
            forall|j: int| 0 <= j < i ==> a@[j] == b@[j],
        decreases a@.len() - i,
    {
        i = i + 1;
    }
    proof {
        lemma_lex_skip(a@, b@, i as int);
    }
    if i == a.len() {
        assert(a@.skip(i as int).len() == 0);
        true
    } else if i == b.len() {
        false
    } else {
        let ca = a[i] as u32;
        let cb = b[i] as u32;
        ca < cb
    }
}

impl SortKey for String {
    open spec fn key_le(&self, other: &Self) -> bool {
        lex_le(self@, other@)
    }

    fn le(&self, other: &Self) -> (r: bool) {
        let a = chars_of(self.as_str());
        let b = chars_of(other.as_str());
        chars_le(&a, &b)
    }

    proof fn lemma_total(a: &Self, b: &Self) {
        lemma_lex_total(a@, b@);
    }

    proof fn lemma_trans(a: &Self, b: &Self, c: &Self) {
        lemma_lex_trans(a@, b@, c@);
    }
}

impl SortKey for usize {
    open spec fn key_le(&self, other: &Self) -> bool {
        *self <= *other
    }

    fn le(&self, other: &Self) -> (r: bool) {
        *self <= *other
    }

    proof fn lemma_total(a: &Self, b: &Self) {
    }

    proof fn lemma_trans(a: &Self, b: &Self, c: &Self) {
    }
}

/// `perm` lists positions of `keys` in an order that sorts the keys and keeps
/// positions with equal keys in their original order.
pub open spec fn is_stable_order<K: SortKey>(keys: Seq<K>, perm: Seq<int>) -> bool {
    &&& perm.len() == keys.len()
    &&& forall|a: int| 0 <= a < perm.len() ==> 0 <= #[trigger] perm[a] < keys.len()
    &&& forall|a: int, b: int| 0 <= a < b < perm.len() ==> perm[a] != perm[b]
    &&& forall|a: int, b: int|
        #![trigger perm[a], perm[b]]
        0 <= a < b < perm.len() ==> keys[perm[a]].key_le(&keys[perm[b]])
    &&& forall|a: int, b: int|
        #![trigger perm[a], perm[b]]
        0 <= a < b < perm.len() && keys[perm[b]].key_le(&keys[perm[a]]) ==> perm[a] < perm[b]
}

/// `result` is `items` stably sorted by `keys`.
pub open spec fn is_stable_sort<T, K: SortKey>(items: Seq<T>, keys: Seq<K>, result: Seq<T>) -> bool {
    exists|perm: Seq<int>|
        is_stable_order(keys, perm) && result.len() == perm.len() && forall|a: int|
            0 <= a < perm.len() ==> result[a] == items[#[trigger] perm[a]]
}

/// Sorts `items` by their `keys` (one key per item), keeping items with equal
/// keys in their original order.
pub fn stable_sort<T, K: SortKey>(items: Vec<T>, keys: Vec<K>) -> (r: Vec<T>)
    requires
        items@.len() == keys@.len(),
    ensures
        is_stable_sort(items@, keys@, r@),
{
    let ghost orig_items = items@;
    let ghost orig_keys = keys@;
    let n = items.len();
    let mut items = items;
    let mut keys = keys;
    let mut out: Vec<T> = Vec::new();
    let mut out_keys: Vec<K> = Vec::new();
    let ghost mut perm: Seq<int> = seq![];
    let mut i: usize = 0;
    while i < n
        invariant
            n == orig_items.len() == orig_keys.len(),
            i <= n,
            items@ == orig_items.skip(i as int),
            keys@ == orig_keys.skip(i as int),
            out@.len() == i,
            out_keys@.len() == i,
            perm.len() == i,
            forall|a: int| 0 <= a < i ==> 0 <= #[trigger] perm[a] < i,
            forall|a: int, b: int| 0 <= a < b < i ==> perm[a] != perm[b],
            forall|a: int| 0 <= a < i ==> out@[a] == orig_items[#[trigger] perm[a]],
            forall|a: int| 0 <= a < i ==> out_keys@[a] == orig_keys[#[trigger] perm[a]],
            forall|a: int, b: int|
                #![trigger out_keys@[a], out_keys@[b]]
                0 <= a < b < i ==> out_keys@[a].key_le(&out_keys@[b]),
            forall|a: int, b: int|
                #![trigger perm[a], perm[b]]
                0 <= a < b < i && out_keys@[b].key_le(&out_keys@[a]) ==> perm[a] < perm[b],
        decreases n - i,
    {
        assert(items@.len() > 0);
        let item = items.remove(0);
        let key = keys.remove(0);
        assert(orig_items.skip(i as int).drop_first() =~= orig_items.skip(i + 1));
        assert(orig_keys.skip(i as int).drop_first() =~= orig_keys.skip(i + 1));
        assert(item == orig_items[i as int]);
        assert(key == orig_keys[i as int]);
        // Find the first kept key that orders strictly after `key`.
        let mut p: usize = 0;
        while p < out_keys.len() && out_keys[p].le(&key)
            invariant
                p <= out_keys@.len(),
                forall|a: int| #![trigger out_keys@[a]] 0 <= a < p ==> out_keys@[a].key_le(&key),
            decreases out_keys@.len() - p,
        {
            p = p + 1;
        }
        proof {
            assert forall|a: int| #![trigger out_keys@[a]] p <= a < i implies !out_keys@[a].key_le(&key) by {
                if out_keys@[a].key_le(&key) {
                    K::lemma_trans(&out_keys@[p as int], &out_keys@[a], &key);
                }
            }
        }
        let ghost old_keys = out_keys@;
        let ghost old_out = out@;
        let ghost old_perm = perm;
        out.insert(p, item);
        out_keys.insert(p, key);
        proof {
            perm = old_perm.insert(p as int, i as int);
            assert forall|a: int| 0 <= a < i + 1 implies out_keys@[a] == orig_keys[#[trigger] perm[a]]
                && out@[a] == orig_items[perm[a]] by {
                if a < p {
                    assert(out_keys@[a] == old_keys[a]);
                } else if a > p {
                    assert(out_keys@[a] == old_keys[a - 1]);
                }
            }
            assert forall|a: int, b: int|
                #![trigger out_keys@[a], out_keys@[b]]
                0 <= a < b < i + 1 implies out_keys@[a].key_le(&out_keys@[b]) by {
                if a < p && b == p {
                } else if a == p && b > p {
                    K::lemma_total(&key, &old_keys[b - 1]);
                } else if a < p && b > p {
                    K::lemma_total(&key, &old_keys[b - 1]);
                    K::lemma_trans(&old_keys[a], &key, &old_keys[b - 1]);
                } else if b < p {
                } else {
                    assert(old_keys[a - 1].key_le(&old_keys[b - 1]));
                }
            }
            assert forall|a: int, b: int|
                #![trigger perm[a], perm[b]]
                0 <= a < b < i + 1 && out_keys@[b].key_le(&out_keys@[a]) implies perm[a]
                    < perm[b] by {
                if a < p && b == p {
                } else if a == p && b > p {
                } else if a < p && b > p {
                    assert(old_perm[a] != old_perm[b - 1] || a == b - 1);
                    if old_keys[b - 1].key_le(&old_keys[a]) {
                        assert(old_perm[a] < old_perm[b - 1]);
                    } else {
                        K::lemma_trans(&key, &old_keys[b - 1], &old_keys[a]);
                        K::lemma_total(&old_keys[b - 1], &key);
                        K::lemma_trans(&old_keys[b - 1], &key, &old_keys[a]);
                    }
                } else if b < p {
                } else {
                    assert(old_keys[b - 1].key_le(&old_keys[a - 1]));
                }
            }
            assert forall|a: int, b: int| 0 <= a < b < i + 1 implies perm[a] != perm[b] by {
                if a < p && b > p {
                    assert(old_perm[a] != old_perm[b - 1]);
                } else if a > p {
                    assert(old_perm[a - 1] != old_perm[b - 1]);
                }
            }
        }
        i = i + 1;
    }
    proof {
        assert(is_stable_order(orig_keys, perm));
    }
    out
}

/// `result` is `items` stably sorted by their lower-cased display names.
pub open spec fn sorted_by_lower_name(items: Seq<App>, result: Seq<App>) -> bool {
    exists|keys: Seq<String>|
        #![trigger is_stable_sort(items, keys, result)]
        keys.len() == items.len() && (forall|i: int|
            0 <= i < items.len() ==> (#[trigger] keys[i])@ == lowercase(items[i].name@))
            && is_stable_sort(items, keys, result)
}

/// Sorting keeps the backend that every app is owned by.
pub proof fn lemma_sorted_all_from(items: Seq<App>, result: Seq<App>, id: Seq<char>)
    requires
        sorted_by_lower_name(items, result),
        all_from(items, id),
    ensures
        all_from(result, id),
{
    let keys = choose|keys: Seq<String>|
        #![trigger is_stable_sort(items, keys, result)]
        keys.len() == items.len() && (forall|i: int|
            0 <= i < items.len() ==> (#[trigger] keys[i])@ == lowercase(items[i].name@))
            && is_stable_sort(items, keys, result);
    let perm = choose|perm: Seq<int>|
        is_stable_order(keys, perm) && result.len() == perm.len() && forall|a: int|
            0 <= a < perm.len() ==> result[a] == items[#[trigger] perm[a]];
    assert forall|k: int| 0 <= k < result.len() implies (#[trigger] result[k]).backend@ == id by {
        assert(result[k] == items[perm[k]]);
    }
}

/// Sorts apps by lower-cased display name, keeping the order of equal names.
pub fn sort_by_lower_name(apps: Vec<App>) -> (r: Vec<App>)
    ensures
        sorted_by_lower_name(apps@, r@),
{
    let mut keys: Vec<String> = Vec::new();
    let mut i: usize = 0;
    while i < apps.len()
        invariant
            i <= apps@.len(),
            keys@.len() == i,
            forall|j: int| 0 <= j < i ==> (#[trigger] keys@[j])@ == lowercase(apps@[j].name@),
        decreases apps@.len() - i,
    {
        keys.push(to_lower(apps[i].name.as_str()));
        i = i + 1;
    }
    let ghost items = apps@;
    let ghost ks = keys@;
    let r = stable_sort(apps, keys);
    assert(is_stable_sort(items, ks, r@));
    r
}

} // verus!
