//! Ordering of text: the lexicographic order of strings (`str::cmp`) and of
//! paths (component-wise, as `Path::cmp` orders plain `a/b/c` paths), and a
//! stable sort of items by such keys.
use vstd::prelude::*;

verus! {

/// Sort key of a character; in path order `/` sorts before everything.
pub open spec fn ckey(c: char, path_order: bool) -> int {
    if path_order && c == '/' {
        -1
    } else {
        (c as u32) as int
    }
}

/// `a` sorts strictly before `b` (lexicographically by [`ckey`]).
pub open spec fn seq_lt(a: Seq<char>, b: Seq<char>, path_order: bool) -> bool
    decreases a.len(),
{
    if a.len() == 0 {
        b.len() > 0
    } else if b.len() == 0 {
        false
    } else if ckey(a[0], path_order) < ckey(b[0], path_order) {
        true
    } else if ckey(a[0], path_order) > ckey(b[0], path_order) {
        false
    } else {
        seq_lt(a.drop_first(), b.drop_first(), path_order)
    }
}

pub proof fn lemma_ckey_injective(c: char, d: char, p: bool)
    ensures
        ckey(c, p) == ckey(d, p) ==> c == d,
{
    if ckey(c, p) == ckey(d, p) {
        if p && c == '/' {
            assert(d == '/');
        } else if p && d == '/' {
            assert(c == '/');
        } else {
            assert(c as u32 == d as u32);
        }
    }
}

pub proof fn lemma_seq_lt_irreflexive(a: Seq<char>, p: bool)
    ensures
        !seq_lt(a, a, p),
    decreases a.len(),
{
    if a.len() > 0 {
        lemma_seq_lt_irreflexive(a.drop_first(), p);
    }
}

pub proof fn lemma_seq_lt_total(a: Seq<char>, b: Seq<char>, p: bool)
    ensures
        a != b ==> seq_lt(a, b, p) || seq_lt(b, a, p),
        !(seq_lt(a, b, p) && seq_lt(b, a, p)),
    decreases a.len(),
{
    if a.len() > 0 && b.len() > 0 {
        lemma_ckey_injective(a[0], b[0], p);
        lemma_seq_lt_total(a.drop_first(), b.drop_first(), p);
        if a != b && ckey(a[0], p) == ckey(b[0], p) {
            assert(a[0] == b[0]);
            if a.drop_first() == b.drop_first() {
                assert forall|i: int| 0 <= i < a.len() implies a[i] == b[i] by {
                    if i > 0 {
                        assert(a[i] == a.drop_first()[i - 1]);
                        assert(b[i] == b.drop_first()[i - 1]);
                    }
                }
                assert(a =~= b);
            }
        }
    } else if a.len() == 0 && b.len() == 0 {
        assert(a =~= b);
    }
}

pub proof fn lemma_seq_lt_transitive(a: Seq<char>, b: Seq<char>, c: Seq<char>, p: bool)
    requires
        seq_lt(a, b, p),
        seq_lt(b, c, p),
    ensures
        seq_lt(a, c, p),
    decreases a.len(),
{
    if a.len() > 0 && b.len() > 0 && c.len() > 0 {
        if ckey(a[0], p) == ckey(b[0], p) && ckey(b[0], p) == ckey(c[0], p) {
            lemma_seq_lt_transitive(a.drop_first(), b.drop_first(), c.drop_first(), p);
        }
    }
}

/// `a` sorts strictly before `b` (exec counterpart of [`seq_lt`]).
pub fn seq_lt_exec(a: &Vec<char>, b: &Vec<char>, path_order: bool) -> (r: bool)
    ensures
        r == seq_lt(a@, b@, path_order),
{
    let mut i: usize = 0;
    assert(a@.skip(0) =~= a@);
    assert(b@.skip(0) =~= b@);
    while i < a.len() && i < b.len() && a[i] == b[i]
        invariant
            i <= a.len(),
            i <= b.len(),
            seq_lt(a@, b@, path_order) == seq_lt(a@.skip(i as int), b@.skip(i as int), path_order),
        decreases a.len() - i,
    {
        assert(a@.skip(i as int).drop_first() =~= a@.skip(i + 1));
        assert(b@.skip(i as int).drop_first() =~= b@.skip(i + 1));
        i = i + 1;
    }
    if i == a.len() {
        return i < b.len();
    }
    if i == b.len() {
        return false;
    }
    let ca = a[i];
    let cb = b[i];
    assert(a@.skip(i as int)[0] == a@[i as int]);
    assert(b@.skip(i as int)[0] == b@[i as int]);
    proof {
        lemma_ckey_injective(a@[i as int], b@[i as int], path_order);
    }
    assert(a@.skip(i as int).len() > 0 && b@.skip(i as int).len() > 0);
    assert(ca != cb);
    if path_order && ca == '/' {
        return true;
    }
    if path_order && cb == '/' {
        return false;
    }
    (ca as u32) < (cb as u32)
}

/// `(key, index)` pairs: by key, ties broken by index.
pub open spec fn item_lt(keys: Seq<Seq<char>>, i: int, j: int, p: bool) -> bool {
    seq_lt(keys[i], keys[j], p) || (keys[i] == keys[j] && i < j)
}

/// `order` lists the indices `0..keys.len()` once each, sorted by key with
/// ties kept in index order (a stable sort).
pub open spec fn is_stable_order(keys: Seq<Seq<char>>, order: Seq<usize>, p: bool) -> bool {
    &&& order.len() == keys.len()
    &&& forall|k: int| 0 <= k < order.len() ==> #[trigger] order[k] < keys.len()
    &&& forall|a: int, b: int| 0 <= a < b < order.len() ==> item_lt(keys, order[a] as int, order[b] as int, p)
}

/// `item_lt` is a strict order: never both ways.
pub proof fn lemma_item_lt_asym(keys: Seq<Seq<char>>, i: int, j: int, p: bool)
    ensures
        !(item_lt(keys, i, j, p) && item_lt(keys, j, i, p)),
{
    lemma_seq_lt_total(keys[i], keys[j], p);
    lemma_seq_lt_irreflexive(keys[i], p);
}

/// Every index appears in a stable order.
pub proof fn lemma_stable_order_covers(keys: Seq<Seq<char>>, o: Seq<usize>, p: bool, x: int)
    requires
        is_stable_order(keys, o, p),
        0 <= x < keys.len(),
    ensures
        o.contains(x as usize),
{
    let oi = o.map_values(|v: usize| v as int);
    assert forall|a: int, b: int| 0 <= a < oi.len() && 0 <= b < oi.len() && a != b implies oi[a] != oi[b] by {
        if a < b {
            lemma_item_lt_asym(keys, o[a] as int, o[b] as int, p);
        } else {
            lemma_item_lt_asym(keys, o[b] as int, o[a] as int, p);
        }
    }
    assert(oi.no_duplicates());
    oi.unique_seq_to_set();
    let n = keys.len() as int;
    vstd::set_lib::lemma_int_range(0, n);
    let r = vstd::set_lib::set_int_range(0, n);
    assert(oi.to_set().subset_of(r)) by {
        assert forall|v: int| oi.to_set().contains(v) implies r.contains(v) by {
            let k = choose|k: int| 0 <= k < oi.len() && oi[k] == v;
            assert(o[k] < keys.len());
        }
    }
    vstd::set_lib::lemma_len_subset(oi.to_set(), r);
    vstd::set_lib::lemma_subset_equality(oi.to_set(), r);
    assert(r.contains(x));
    assert(oi.to_set().contains(x));
    let k = choose|k: int| 0 <= k < oi.len() && oi[k] == x;
    assert(o[k] == x as usize);
}

/// Two stable orders of the same keys agree on positions `0..=k`.
pub proof fn lemma_stable_order_prefix(keys: Seq<Seq<char>>, o1: Seq<usize>, o2: Seq<usize>, p: bool, k: int)
    requires
        is_stable_order(keys, o1, p),
        is_stable_order(keys, o2, p),
        0 <= k < o1.len(),
    ensures
        forall|m: int| 0 <= m <= k ==> o1[m] == o2[m],
    decreases k,
{
    if k > 0 {
        lemma_stable_order_prefix(keys, o1, o2, p, k - 1);
    }
    let a = o1[k];
    let b = o2[k];
    if a != b {
        assert(a < keys.len());
        assert(b < keys.len());
        lemma_stable_order_covers(keys, o2, p, a as int);
        lemma_stable_order_covers(keys, o1, p, b as int);
        let j = choose|j: int| 0 <= j < o2.len() && o2[j] == a;
        let i = choose|i: int| 0 <= i < o1.len() && o1[i] == b;
        if j < k {
            assert(o1[j] == o2[j]);
            lemma_item_lt_asym(keys, o1[j] as int, a as int, p);
            assert(item_lt(keys, o1[j] as int, o1[k] as int, p));
            lemma_seq_lt_irreflexive(keys[a as int], p);
        }
        if i < k {
            assert(o1[i] == o2[i]);
            assert(item_lt(keys, o2[i] as int, o2[k] as int, p));
            lemma_seq_lt_irreflexive(keys[b as int], p);
        }
        assert(j != k);
        assert(i != k);
        assert(item_lt(keys, o2[k] as int, o2[j] as int, p));
        assert(item_lt(keys, o1[k] as int, o1[i] as int, p));
        lemma_item_lt_asym(keys, a as int, b as int, p);
    }
}

/// A stable order of given keys is unique: sorting is deterministic.
pub proof fn lemma_stable_order_unique(keys: Seq<Seq<char>>, o1: Seq<usize>, o2: Seq<usize>, p: bool)
    requires
        is_stable_order(keys, o1, p),
        is_stable_order(keys, o2, p),
    ensures
        o1 == o2,
{
    if o1.len() > 0 {
        lemma_stable_order_prefix(keys, o1, o2, p, o1.len() - 1);
    }
    assert(o1 =~= o2);
}

/// The stable sort order of `keys`: the indices `0..keys.len()` sorted by
/// key, ties in index order.
pub open spec fn sorted_order(keys: Seq<Seq<char>>, p: bool) -> Seq<usize> {
    choose|o: Seq<usize>| is_stable_order(keys, o, p)
}

/// Any stable order of `keys` is the sorted order.
pub proof fn lemma_sorted_order(keys: Seq<Seq<char>>, o: Seq<usize>, p: bool)
    requires
        is_stable_order(keys, o, p),
    ensures
        sorted_order(keys, p) == o,
        is_stable_order(keys, sorted_order(keys, p), p),
{
    lemma_stable_order_unique(keys, o, sorted_order(keys, p), p);
}

/// Stable sort of `0..keys.len()` by key.
pub fn stable_order(keys: &Vec<Vec<char>>, path_order: bool) -> (r: Vec<usize>)
    ensures
        is_stable_order(keys@.map_values(|k: Vec<char>| k@), r@, path_order),
        r@ == sorted_order(keys@.map_values(|k: Vec<char>| k@), path_order),
{
    let ghost ks = keys@.map_values(|k: Vec<char>| k@);
    let mut out: Vec<usize> = Vec::new();
    let mut j: usize = 0;
    while j < keys.len()
        invariant
            j <= keys.len(),
            ks == keys@.map_values(|k: Vec<char>| k@),
            out@.len() == j,
            forall|k: int| 0 <= k < out@.len() ==> #[trigger] out@[k] < j,
            forall|a: int, b: int| 0 <= a < b < out@.len() ==> item_lt(ks, out@[a] as int, out@[b] as int, path_order),
        decreases keys.len() - j,
    {
        let mut pos: usize = 0;
        while pos < out.len() && !seq_lt_exec(&keys[j], &keys[out[pos]], path_order)
            invariant
                pos <= out@.len(),
                j < keys.len(),
                ks == keys@.map_values(|k: Vec<char>| k@),
                forall|k: int| 0 <= k < out@.len() ==> #[trigger] out@[k] < j,
                forall|q: int| 0 <= q < pos ==> !seq_lt(ks[j as int], ks[out@[q] as int], path_order),
            decreases out@.len() - pos,
        {
            pos = pos + 1;
        }
        let ghost old_out = out@;
        proof {
            assert forall|q: int| 0 <= q < pos implies item_lt(ks, old_out[q] as int, j as int, path_order) by {
                lemma_seq_lt_total(ks[j as int], ks[old_out[q] as int], path_order);
            }
            if pos < old_out.len() {
                assert(seq_lt(ks[j as int], ks[old_out[pos as int] as int], path_order));
                assert forall|q: int| pos <= q < old_out.len() implies item_lt(ks, j as int, old_out[q] as int, path_order) by {
                    if q > pos {
                        let a = old_out[pos as int] as int;
                        let b = old_out[q] as int;
                        assert(item_lt(ks, a, b, path_order));
                        if seq_lt(ks[a], ks[b], path_order) {
                            lemma_seq_lt_transitive(ks[j as int], ks[a], ks[b], path_order);
                        }
                    }
                }
            }
        }
        out.insert(pos, j);
        proof {
            assert forall|a: int, b: int| 0 <= a < b < out@.len() implies item_lt(ks, out@[a] as int, out@[b] as int, path_order) by {
                if a < pos && b < pos {
                    assert(out@[a] == old_out[a] && out@[b] == old_out[b]);
                } else if a < pos && b == pos {
                    assert(out@[a] == old_out[a]);
                } else if a < pos && b > pos {
                    assert(out@[a] == old_out[a] && out@[b] == old_out[b - 1]);
                } else if a == pos {
                    assert(out@[b] == old_out[b - 1]);
                } else {
                    assert(out@[a] == old_out[a - 1] && out@[b] == old_out[b - 1]);
                }
            }
        }
        j = j + 1;
    }
    proof {
        lemma_sorted_order(ks, out@, path_order);
    }
    out
}

// ---------------------------------------------------------------------------
// Numeric keys: sequences of numbers compared lexicographically, which can
// encode tuples of texts and numbers
// ---------------------------------------------------------------------------

/// `a` sorts strictly before `b` (lexicographically).
pub open spec fn key_lt(a: Seq<u128>, b: Seq<u128>) -> bool
    decreases a.len(),
{
    if a.len() == 0 {
        b.len() > 0
    } else if b.len() == 0 {
        false
    } else if (a[0] as int) < (b[0] as int) {
        true
    } else if (a[0] as int) > (b[0] as int) {
        false
    } else {
        key_lt(a.drop_first(), b.drop_first())
    }
}

pub proof fn lemma_key_lt_irreflexive(a: Seq<u128>)
    ensures
        !key_lt(a, a),
    decreases a.len(),
{
    if a.len() > 0 {
        lemma_key_lt_irreflexive(a.drop_first());
    }
}

pub proof fn lemma_key_lt_total(a: Seq<u128>, b: Seq<u128>)
    ensures
        a != b ==> key_lt(a, b) || key_lt(b, a),
        !(key_lt(a, b) && key_lt(b, a)),
    decreases a.len(),
{
    if a.len() > 0 && b.len() > 0 {
        lemma_key_lt_total(a.drop_first(), b.drop_first());
        if a != b && (a[0] as int) == (b[0] as int) {
            assert(a[0] == b[0]);
            if a.drop_first() == b.drop_first() {
                assert forall|i: int| 0 <= i < a.len() implies a[i] == b[i] by {
                    if i > 0 {
                        assert(a[i] == a.drop_first()[i - 1]);
                        assert(b[i] == b.drop_first()[i - 1]);
                    }
                }
                assert(a =~= b);
            }
        }
    } else if a.len() == 0 && b.len() == 0 {
        assert(a =~= b);
    }
}

pub proof fn lemma_key_lt_transitive(a: Seq<u128>, b: Seq<u128>, c: Seq<u128>)
    requires
        key_lt(a, b),
        key_lt(b, c),
    ensures
        key_lt(a, c),
    decreases a.len(),
{
    if a.len() > 0 && b.len() > 0 && c.len() > 0 {
        if (a[0] as int) == (b[0] as int) && (b[0] as int) == (c[0] as int) {
            lemma_key_lt_transitive(a.drop_first(), b.drop_first(), c.drop_first());
        }
    }
}

/// `a` sorts strictly before `b` (exec counterpart of [`key_lt`]).
pub fn key_lt_exec(a: &Vec<u128>, b: &Vec<u128>) -> (r: bool)
    ensures
        r == key_lt(a@, b@),
{
    let mut i: usize = 0;
    assert(a@.skip(0) =~= a@);
    assert(b@.skip(0) =~= b@);
    while i < a.len() && i < b.len() && a[i] == b[i]
        invariant
            i <= a.len(),
            i <= b.len(),
            key_lt(a@, b@) == key_lt(a@.skip(i as int), b@.skip(i as int)),
        decreases a.len() - i,
    {
        assert(a@.skip(i as int).drop_first() =~= a@.skip(i + 1));
        assert(b@.skip(i as int).drop_first() =~= b@.skip(i + 1));
        i = i + 1;
    }
    if i == a.len() {
        return i < b.len();
    }
    if i == b.len() {
        return false;
    }
    assert(a@.skip(i as int)[0] == a@[i as int]);
    assert(b@.skip(i as int)[0] == b@[i as int]);
    a[i] < b[i]
}

/// `(key, index)` pairs: by key, ties broken by index.
pub open spec fn key_item_lt(keys: Seq<Seq<u128>>, i: int, j: int) -> bool {
    key_lt(keys[i], keys[j]) || (keys[i] == keys[j] && i < j)
}

/// `order` lists the indices `0..keys.len()` once each, sorted by key with
/// ties kept in index order (a stable sort).
pub open spec fn is_key_order(keys: Seq<Seq<u128>>, order: Seq<usize>) -> bool {
    &&& order.len() == keys.len()
    &&& forall|k: int| 0 <= k < order.len() ==> #[trigger] order[k] < keys.len()
    &&& forall|a: int, b: int| 0 <= a < b < order.len() ==> key_item_lt(keys, order[a] as int, order[b] as int)
}

/// `key_item_lt` is a strict order: never both ways.
pub proof fn lemma_key_item_lt_asym(keys: Seq<Seq<u128>>, i: int, j: int)
    ensures
        !(key_item_lt(keys, i, j) && key_item_lt(keys, j, i)),
{
    lemma_key_lt_total(keys[i], keys[j]);
    lemma_key_lt_irreflexive(keys[i]);
}

/// Every index appears in a stable order.
pub proof fn lemma_key_order_covers(keys: Seq<Seq<u128>>, o: Seq<usize>, x: int)
    requires
        is_key_order(keys, o),
        0 <= x < keys.len(),
    ensures
        o.contains(x as usize),
{
    let oi = o.map_values(|v: usize| v as int);
    assert forall|a: int, b: int| 0 <= a < oi.len() && 0 <= b < oi.len() && a != b implies oi[a] != oi[b] by {
        if a < b {
            lemma_key_item_lt_asym(keys, o[a] as int, o[b] as int);
        } else {
            lemma_key_item_lt_asym(keys, o[b] as int, o[a] as int);
        }
    }
    assert(oi.no_duplicates());
    oi.unique_seq_to_set();
    let n = keys.len() as int;
    vstd::set_lib::lemma_int_range(0, n);
    let r = vstd::set_lib::set_int_range(0, n);
    assert(oi.to_set().subset_of(r)) by {
        assert forall|v: int| oi.to_set().contains(v) implies r.contains(v) by {
            let k = choose|k: int| 0 <= k < oi.len() && oi[k] == v;
            assert(o[k] < keys.len());
        }
    }
    vstd::set_lib::lemma_len_subset(oi.to_set(), r);
    vstd::set_lib::lemma_subset_equality(oi.to_set(), r);
    assert(r.contains(x));
    assert(oi.to_set().contains(x));
    let k = choose|k: int| 0 <= k < oi.len() && oi[k] == x;
    assert(o[k] == x as usize);
}

/// Two stable orders of the same keys agree on positions `0..=k`.
pub proof fn lemma_key_order_prefix(keys: Seq<Seq<u128>>, o1: Seq<usize>, o2: Seq<usize>, k: int)
    requires
        is_key_order(keys, o1),
        is_key_order(keys, o2),
        0 <= k < o1.len(),
    ensures
        forall|m: int| 0 <= m <= k ==> o1[m] == o2[m],
    decreases k,
{
    if k > 0 {
        lemma_key_order_prefix(keys, o1, o2, k - 1);
    }
    let a = o1[k];
    let b = o2[k];
    if a != b {
        assert(a < keys.len());
        assert(b < keys.len());
        lemma_key_order_covers(keys, o2, a as int);
        lemma_key_order_covers(keys, o1, b as int);
        let j = choose|j: int| 0 <= j < o2.len() && o2[j] == a;
        let i = choose|i: int| 0 <= i < o1.len() && o1[i] == b;
        if j < k {
            assert(o1[j] == o2[j]);
            lemma_key_item_lt_asym(keys, o1[j] as int, a as int);
            assert(key_item_lt(keys, o1[j] as int, o1[k] as int));
            lemma_key_lt_irreflexive(keys[a as int]);
        }
        if i < k {
            assert(o1[i] == o2[i]);
            assert(key_item_lt(keys, o2[i] as int, o2[k] as int));
            lemma_key_lt_irreflexive(keys[b as int]);
        }
        assert(j != k);
        assert(i != k);
        assert(key_item_lt(keys, o2[k] as int, o2[j] as int));
        assert(key_item_lt(keys, o1[k] as int, o1[i] as int));
        lemma_key_item_lt_asym(keys, a as int, b as int);
    }
}

/// A stable order of given keys is unique: sorting is deterministic.
pub proof fn lemma_key_order_unique(keys: Seq<Seq<u128>>, o1: Seq<usize>, o2: Seq<usize>)
    requires
        is_key_order(keys, o1),
        is_key_order(keys, o2),
    ensures
        o1 == o2,
{
    if o1.len() > 0 {
        lemma_key_order_prefix(keys, o1, o2, o1.len() - 1);
    }
    assert(o1 =~= o2);
}

/// The stable sort order of `keys`: the indices `0..keys.len()` sorted by
/// key, ties in index order.
pub open spec fn key_sorted_order(keys: Seq<Seq<u128>>) -> Seq<usize> {
    choose|o: Seq<usize>| is_key_order(keys, o)
}

/// Any stable order of `keys` is the sorted order.
pub proof fn lemma_key_sorted_order(keys: Seq<Seq<u128>>, o: Seq<usize>)
    requires
        is_key_order(keys, o),
    ensures
        key_sorted_order(keys) == o,
        is_key_order(keys, key_sorted_order(keys)),
{
    lemma_key_order_unique(keys, o, key_sorted_order(keys));
}

/// Stable sort of `0..keys.len()` by key.
pub fn key_order(keys: &Vec<Vec<u128>>) -> (r: Vec<usize>)
    ensures
        is_key_order(keys@.map_values(|k: Vec<u128>| k@), r@),
        r@ == key_sorted_order(keys@.map_values(|k: Vec<u128>| k@)),
{
    let ghost ks = keys@.map_values(|k: Vec<u128>| k@);
    let mut out: Vec<usize> = Vec::new();
    let mut j: usize = 0;
    while j < keys.len()
        invariant
            j <= keys.len(),
            ks == keys@.map_values(|k: Vec<u128>| k@),
            out@.len() == j,
            forall|k: int| 0 <= k < out@.len() ==> #[trigger] out@[k] < j,
            forall|a: int, b: int| 0 <= a < b < out@.len() ==> key_item_lt(ks, out@[a] as int, out@[b] as int),
        decreases keys.len() - j,
    {
        let mut pos: usize = 0;
        while pos < out.len() && !key_lt_exec(&keys[j], &keys[out[pos]])
            invariant
                pos <= out@.len(),
                j < keys.len(),
                ks == keys@.map_values(|k: Vec<u128>| k@),
                forall|k: int| 0 <= k < out@.len() ==> #[trigger] out@[k] < j,
                forall|q: int| 0 <= q < pos ==> !key_lt(ks[j as int], ks[out@[q] as int]),
            decreases out@.len() - pos,
        {
            pos = pos + 1;
        }
        let ghost old_out = out@;
        proof {
            assert forall|q: int| 0 <= q < pos implies key_item_lt(ks, old_out[q] as int, j as int) by {
                lemma_key_lt_total(ks[j as int], ks[old_out[q] as int]);
            }
            if pos < old_out.len() {
                assert(key_lt(ks[j as int], ks[old_out[pos as int] as int]));
                assert forall|q: int| pos <= q < old_out.len() implies key_item_lt(ks, j as int, old_out[q] as int) by {
                    if q > pos {
                        let a = old_out[pos as int] as int;
                        let b = old_out[q] as int;
                        assert(key_item_lt(ks, a, b));
                        if key_lt(ks[a], ks[b]) {
                            lemma_key_lt_transitive(ks[j as int], ks[a], ks[b]);
                        }
                    }
                }
            }
        }
        out.insert(pos, j);
        proof {
            assert forall|a: int, b: int| 0 <= a < b < out@.len() implies key_item_lt(ks, out@[a] as int, out@[b] as int) by {
                if a < pos && b < pos {
                    assert(out@[a] == old_out[a] && out@[b] == old_out[b]);
                } else if a < pos && b == pos {
                    assert(out@[a] == old_out[a]);
                } else if a < pos && b > pos {
                    assert(out@[a] == old_out[a] && out@[b] == old_out[b - 1]);
                } else if a == pos {
                    assert(out@[b] == old_out[b - 1]);
                } else {
                    assert(out@[a] == old_out[a - 1] && out@[b] == old_out[b - 1]);
                }
            }
        }
        j = j + 1;
    }
    proof {
        lemma_key_sorted_order(ks, out@);
    }
    out
}


// ---------------------------------------------------------------------------
// Encoding tuples of texts and numbers as numeric keys
// ---------------------------------------------------------------------------

/// The key of a text: each character's sort key shifted above 0, then a 0
/// that ends the text (so a text sorts before its extensions).
pub open spec fn text_key(s: Seq<char>, path_order: bool) -> Seq<u128> {
    s.map_values(|c: char| (ckey(c, path_order) + 2) as u128).push(0u128)
}

/// The key of a number.
pub open spec fn num_key(n: nat) -> Seq<u128> {
    seq![(n + 1) as u128]
}

/// Append the key of a text.
pub fn push_text_key(out: &mut Vec<u128>, s: &str, path_order: bool)
    ensures
        final(out)@ == old(out)@ + text_key(s@, path_order),
{
    let v = crate::strings::chars_of(s);
    let ghost start = out@;
    let mut i: usize = 0;
    while i < v.len()
        invariant
            i <= v@.len(),
            out@ == start + v@.take(i as int).map_values(|c: char| (ckey(c, path_order) + 2) as u128),
        decreases v@.len() - i,
    {
        let c = v[i];
        let k: u128 = if path_order && c == '/' {
            1
        } else {
            (c as u32) as u128 + 2
        };
        out.push(k);
        assert(v@.take(i + 1).map_values(|c: char| (ckey(c, path_order) + 2) as u128) =~= v@.take(i as int).map_values(|c: char| (ckey(c, path_order) + 2) as u128).push(k));
        i = i + 1;
    }
    out.push(0);
    assert(v@.take(v@.len() as int) == v@);
    assert(out@ =~= start + text_key(s@, path_order));
}

/// Append the key of a number.
pub fn push_num_key(out: &mut Vec<u128>, n: usize)
    ensures
        final(out)@ == old(out)@ + num_key(n as nat),
{
    out.push(n as u128 + 1);
    assert(out@ =~= old(out)@ + num_key(n as nat));
}


/// The views of a list of strings.
pub open spec fn texts_view(v: Seq<String>) -> Seq<Seq<char>> {
    v.map_values(|s: String| s@)
}

/// Texts in sorted order (character by character).
pub open spec fn texts_sorted(ts: Seq<Seq<char>>) -> Seq<Seq<char>> {
    let o = sorted_order(ts, false);
    Seq::new(o.len(), |i: int| ts[o[i] as int])
}

/// A sorted copy of a list of strings.
pub fn sort_texts(v: &Vec<String>) -> (r: Vec<String>)
    ensures
        texts_view(r@) == texts_sorted(texts_view(v@)),
{
    let ghost ts = texts_view(v@);
    let mut keys: Vec<Vec<char>> = Vec::new();
    let mut i: usize = 0;
    while i < v.len()
        invariant
            ts == texts_view(v@),
            i <= v@.len(),
            keys@.len() == i,
            forall|j: int| 0 <= j < i ==> (#[trigger] keys@[j])@ == ts[j],
        decreases v@.len() - i,
    {
        keys.push(crate::strings::chars_of(v[i].as_str()));
        i = i + 1;
    }
    assert(keys@.map_values(|k: Vec<char>| k@) =~= ts);
    let o = stable_order(&keys, false);
    let ghost sorted = texts_sorted(ts);
    let mut out: Vec<String> = Vec::new();
    let mut k: usize = 0;
    while k < o.len()
        invariant
            ts == texts_view(v@),
            is_stable_order(ts, o@, false),
            o@ == sorted_order(ts, false),
            sorted == texts_sorted(ts),
            k <= o@.len(),
            texts_view(out@) == sorted.take(k as int),
        decreases o@.len() - k,
    {
        assert(o@[k as int] < v@.len());
        let c = v[o[k]].clone();
        let ghost o0 = out@;
        out.push(c);
        assert(c@ == ts[o@[k as int] as int]);
        assert(sorted[k as int] == ts[o@[k as int] as int]);
        assert(texts_view(out@) =~= texts_view(o0).push(c@));
        assert(texts_view(out@) =~= sorted.take(k + 1));
        k = k + 1;
    }
    assert(sorted.take(o@.len() as int) =~= sorted);
    out
}

/// `ts` without entries equal to the one before them.
pub open spec fn dedup_spec(ts: Seq<Seq<char>>) -> Seq<Seq<char>>
    decreases ts.len(),
{
    if ts.len() <= 1 {
        ts
    } else if ts.last() == ts[ts.len() - 2] {
        dedup_spec(ts.drop_last())
    } else {
        dedup_spec(ts.drop_last()).push(ts.last())
    }
}

/// Drop entries equal to the one before them.
pub fn dedup_texts(v: &Vec<String>) -> (r: Vec<String>)
    ensures
        texts_view(r@) == dedup_spec(texts_view(v@)),
{
    let ghost ts = texts_view(v@);
    let mut out: Vec<String> = Vec::new();
    let mut i: usize = 0;
    while i < v.len()
        invariant
            ts == texts_view(v@),
            i <= v@.len(),
            texts_view(out@) == dedup_spec(ts.take(i as int)),
        decreases v@.len() - i,
    {
        assert(ts.take(i + 1).drop_last() =~= ts.take(i as int));
        let keep = if i == 0 {
            true
        } else {
            let a = crate::strings::chars_of(v[i].as_str());
            let b = crate::strings::chars_of(v[i - 1].as_str());
            !crate::strings::chars_eq(&a, &b)
        };
        if keep {
            out.push(v[i].clone());
        }
        assert(texts_view(out@) =~= dedup_spec(ts.take(i + 1)));
        i = i + 1;
    }
    assert(ts.take(v@.len() as int) =~= ts);
    out
}

} // verus!
