//! Stable ordering of records by a key made of two numbers and a text.
//!
//! The listings of the monitor are sorted with Rust's stable sorts; a stable
//! sort puts the records in the unique order that is strictly increasing by
//! (key, position in the list). `stable_order` computes that order for a list of
//! keys and proves it.
use vstd::prelude::*;

verus! {

/// Key of one record: compared by `rank` first, then by `tie`, then by
/// `text` lexicographically (code point by code point, as `str` compares).
pub struct SortKey {
    pub rank: u64,
    pub tie: u64,
    pub text: Vec<char>,
}

/// What a key compares by.
pub type KeyView = (u64, u64, Seq<char>);

/// Strict lexicographic order on character sequences (`str` ordering).
pub open spec fn text_lt(a: Seq<char>, b: Seq<char>) -> bool
    decreases a.len(),
{
    if a.len() == 0 {
        b.len() > 0
    } else if b.len() == 0 {
        false
    } else if a[0] != b[0] {
        a[0] < b[0]
    } else {
        text_lt(a.drop_first(), b.drop_first())
    }
}

pub open spec fn key_of(k: SortKey) -> KeyView {
    (k.rank, k.tie, k.text@)
}

pub open spec fn key_lt(a: KeyView, b: KeyView) -> bool {
    a.0 < b.0 || (a.0 == b.0 && (a.1 < b.1 || (a.1 == b.1 && text_lt(a.2, b.2))))
}

/// Record `i` comes before record `j` in a stable sort by `keys`.
pub open spec fn before(keys: Seq<KeyView>, i: int, j: int) -> bool {
    key_lt(keys[i], keys[j]) || (keys[i] == keys[j] && i < j)
}

/// `p` lists the positions `0..keys.len()` in stable-sorted order.
pub open spec fn is_stable_order(keys: Seq<KeyView>, p: Seq<usize>) -> bool {
    &&& p.len() == keys.len()
    &&& forall|a: int| 0 <= a < p.len() ==> (#[trigger] p[a]) < keys.len()
    &&& forall|k: usize| k < keys.len() ==> #[trigger] p.contains(k)
    &&& forall|a: int, b: int| 0 <= a < b < p.len() ==> before(keys, #[trigger] p[a] as int, #[trigger] p[b] as int)
}

/// The place of the float with these bits in the order `f64::total_cmp`
/// gives, as an unsigned number: negative floats (sign bit set) below
/// positive ones, each side in numeric order.
pub open spec fn float_order(bits: u64) -> u64 {
    if bits >= 0x8000_0000_0000_0000 {
        (u64::MAX - bits) as u64
    } else {
        (bits + 0x8000_0000_0000_0000) as u64
    }
}

pub fn float_rank(bits: u64) -> (r: u64)
    ensures
        r == float_order(bits),
{
    if bits >= 0x8000_0000_0000_0000 {
        u64::MAX - bits
    } else {
        bits + 0x8000_0000_0000_0000
    }
}

pub open spec fn keys_view(keys: Seq<SortKey>) -> Seq<KeyView> {
    keys.map_values(|k: SortKey| key_of(k))
}

pub proof fn lemma_text_lt_irreflexive(a: Seq<char>)
    ensures
        !text_lt(a, a),
    decreases a.len(),
{
    if a.len() > 0 {
        lemma_text_lt_irreflexive(a.drop_first());
    }
}

pub proof fn lemma_text_lt_transitive(a: Seq<char>, b: Seq<char>, c: Seq<char>)
    requires
        text_lt(a, b),
        text_lt(b, c),
    ensures
        text_lt(a, c),
    decreases a.len(),
{
    if a.len() > 0 && b.len() > 0 && c.len() > 0 {
        if a[0] == b[0] && b[0] == c[0] {
            lemma_text_lt_transitive(a.drop_first(), b.drop_first(), c.drop_first());
        }
    }
}

pub proof fn lemma_text_lt_total(a: Seq<char>, b: Seq<char>)
    ensures
        a == b || text_lt(a, b) || text_lt(b, a),
    decreases a.len(),
{
    if a.len() > 0 && b.len() > 0 && a[0] == b[0] {
        lemma_text_lt_total(a.drop_first(), b.drop_first());
        if a.drop_first() == b.drop_first() {
            assert(a =~= seq![a[0]] + a.drop_first());
            assert(b =~= seq![b[0]] + b.drop_first());
        }
    } else if a.len() == 0 && b.len() == 0 {
        assert(a =~= b);
    }
}

pub proof fn lemma_before_transitive(keys: Seq<KeyView>, i: int, j: int, k: int)
    requires
        before(keys, i, j),
        before(keys, j, k),
    ensures
        before(keys, i, k),
{
    if key_lt(keys[i], keys[j]) && key_lt(keys[j], keys[k]) {
        if keys[i].0 == keys[j].0 && keys[j].0 == keys[k].0 && keys[i].1 == keys[j].1 && keys[j].1
            == keys[k].1 {
            lemma_text_lt_transitive(keys[i].2, keys[j].2, keys[k].2);
        }
    }
}

pub proof fn lemma_before_total(keys: Seq<KeyView>, i: int, j: int)
    requires
        i != j,
    ensures
        before(keys, i, j) || before(keys, j, i),
{
    lemma_text_lt_total(keys[i].2, keys[j].2);
}

pub proof fn lemma_before_irreflexive(keys: Seq<KeyView>, i: int)
    ensures
        !before(keys, i, i),
{
    lemma_text_lt_irreflexive(keys[i].2);
}

/// The positions of `keys` in stable-sorted order (there is exactly one such
/// order: see `lemma_stable_order_unique`).
pub open spec fn sorted_positions(keys: Seq<KeyView>) -> Seq<usize> {
    choose|p: Seq<usize>| is_stable_order(keys, p)
}

proof fn lemma_order_distinct(keys: Seq<KeyView>, p: Seq<usize>, a: int, b: int)
    requires
        is_stable_order(keys, p),
        0 <= a < p.len(),
        0 <= b < p.len(),
        a != b,
    ensures
        p[a] != p[b],
{
    if a < b {
        assert(before(keys, p[a] as int, p[b] as int));
    } else {
        assert(before(keys, p[b] as int, p[a] as int));
    }
    if p[a] == p[b] {
        lemma_before_irreflexive(keys, p[a] as int);
    }
}

/// A stable order of given keys is unique.
pub proof fn lemma_stable_order_unique(keys: Seq<KeyView>, p: Seq<usize>, q: Seq<usize>)
    requires
        is_stable_order(keys, p),
        is_stable_order(keys, q),
    ensures
        p == q,
{
    assert forall|a: int| 0 <= a < p.len() implies p[a] == q[a] by {
        lemma_stable_order_agree(keys, p, q, a);
    }
    assert(p =~= q);
}

proof fn lemma_stable_order_agree(keys: Seq<KeyView>, p: Seq<usize>, q: Seq<usize>, a: int)
    requires
        is_stable_order(keys, p),
        is_stable_order(keys, q),
        0 <= a < p.len(),
    ensures
        p[a] == q[a],
    decreases a,
{
    assert forall|c: int| 0 <= c < a implies p[c] == q[c] by {
        lemma_stable_order_agree(keys, p, q, c);
    }
    let x = p[a];
    let y = q[a];
    if x != y {
        lemma_before_total(keys, x as int, y as int);
        if before(keys, x as int, y as int) {
            // x sits in q at some position b
            assert(q.contains(x));
            let b = choose|b: int| 0 <= b < q.len() && q[b] == x;
            if b < a {
                assert(p[b] == x);
                lemma_order_distinct(keys, p, a, b);
            } else {
                assert(b != a);
                assert(before(keys, q[a] as int, q[b] as int));
                lemma_before_transitive(keys, x as int, y as int, x as int);
                lemma_before_irreflexive(keys, x as int);
            }
        } else {
            assert(p.contains(y));
            let b = choose|b: int| 0 <= b < p.len() && p[b] == y;
            if b < a {
                assert(q[b] == y);
                lemma_order_distinct(keys, q, a, b);
            } else {
                assert(b != a);
                assert(before(keys, p[a] as int, p[b] as int));
                lemma_before_transitive(keys, y as int, x as int, y as int);
                lemma_before_irreflexive(keys, y as int);
            }
        }
    }
}

/// `p` lists the positions `0..n` in stable-sorted order by `keys`.
spec fn is_prefix_order(keys: Seq<KeyView>, p: Seq<usize>, n: int) -> bool {
    &&& p.len() == n
    &&& forall|a: int| 0 <= a < p.len() ==> (#[trigger] p[a]) < n
    &&& forall|k: usize| k < n ==> #[trigger] p.contains(k)
    &&& forall|a: int, b: int| 0 <= a < b < p.len() ==> before(keys, #[trigger] p[a] as int, #[trigger] p[b] as int)
}

/// The first place at or after `q` whose record `x` precedes by key.
proof fn slot_for(keys: Seq<KeyView>, p: Seq<usize>, x: int, q: int) -> (r: int)
    requires
        0 <= q <= p.len(),
    ensures
        q <= r <= p.len(),
        forall|a: int| q <= a < r ==> !key_lt(keys[x], keys[#[trigger] p[a] as int]),
        r < p.len() ==> key_lt(keys[x], keys[p[r] as int]),
    decreases p.len() - q,
{
    if q == p.len() || key_lt(keys[x], keys[p[q] as int]) {
        q
    } else {
        slot_for(keys, p, x, q + 1)
    }
}

/// A stable order of the first `n` positions, built by insertion.
proof fn prefix_order(keys: Seq<KeyView>, n: int) -> (p: Seq<usize>)
    requires
        0 <= n <= keys.len(),
        keys.len() <= usize::MAX,
    ensures
        is_prefix_order(keys, p, n),
    decreases n,
{
    if n == 0 {
        Seq::empty()
    } else {
        let old_p = prefix_order(keys, n - 1);
        let i = n - 1;
        let q = slot_for(keys, old_p, i, 0);
        assert forall|a: int| 0 <= a < q implies before(keys, #[trigger] old_p[a] as int, i) by {
            lemma_before_total(keys, old_p[a] as int, i);
        }
        if q < old_p.len() {
            assert forall|a: int| q <= a < old_p.len() implies before(keys, i, #[trigger] old_p[a] as int) by {
                if a > q {
                    lemma_before_transitive(keys, i, old_p[q] as int, old_p[a] as int);
                }
            }
        }
        let p = old_p.insert(q, i as usize);
        assert forall|a: int, b: int| 0 <= a < b < p.len() implies before(keys, #[trigger] p[a] as int, #[trigger] p[b] as int) by {
            if b < q {
                assert(p[a] == old_p[a] && p[b] == old_p[b]);
            } else if b == q {
                assert(p[a] == old_p[a]);
            } else if a < q {
                assert(p[a] == old_p[a] && p[b] == old_p[b - 1]);
                lemma_before_transitive(keys, old_p[a] as int, i, old_p[b - 1] as int);
            } else if a == q {
                assert(p[b] == old_p[b - 1]);
            } else {
                assert(p[a] == old_p[a - 1] && p[b] == old_p[b - 1]);
            }
        }
        assert forall|k: usize| k < n implies #[trigger] p.contains(k) by {
            if k == i {
                assert(p[q] == i);
            } else {
                assert(old_p.contains(k));
                let w = choose|w: int| 0 <= w < old_p.len() && old_p[w] == k;
                if w < q {
                    assert(p[w] == old_p[w]);
                } else {
                    assert(p[w + 1] == old_p[w]);
                }
            }
        }
        assert forall|a: int| 0 <= a < p.len() implies (#[trigger] p[a]) < n by {
            if a < q {
                assert(p[a] == old_p[a]);
            } else if a > q {
                assert(p[a] == old_p[a - 1]);
            }
        }
        p
    }
}

/// Every list of keys has its stable order: `sorted_positions` is one.
pub proof fn lemma_stable_order_exists(keys: Seq<KeyView>)
    requires
        keys.len() <= usize::MAX,
    ensures
        is_stable_order(keys, sorted_positions(keys)),
{
    let p = prefix_order(keys, keys.len() as int);
    assert(is_stable_order(keys, p));
}

/// Whether `a` sorts strictly before `b` by text.
pub fn text_less(a: &Vec<char>, b: &Vec<char>) -> (r: bool)
    ensures
        r == text_lt(a@, b@),
{
    let mut i: usize = 0;
    assert(a@.skip(0) == a@ && b@.skip(0) == b@);
    while i < a.len() && i < b.len() && a[i] == b[i]
        invariant
            i <= a.len(),
            i <= b.len(),
            a@.take(i as int) == b@.take(i as int),
            text_lt(a@, b@) == text_lt(a@.skip(i as int), b@.skip(i as int)),
        decreases a.len() - i,
    {
        assert(a@.skip(i as int).drop_first() == a@.skip(i as int + 1));
        assert(b@.skip(i as int).drop_first() == b@.skip(i as int + 1));
        assert(a@.take(i as int + 1) == a@.take(i as int).push(a@[i as int]));
        assert(b@.take(i as int + 1) == b@.take(i as int).push(b@[i as int]));
        i += 1;
    }
    if i == a.len() {
        i < b.len()
    } else if i == b.len() {
        false
    } else {
        a[i] < b[i]
    }
}

/// Whether key `a` sorts strictly before key `b`.
pub fn key_less(a: &SortKey, b: &SortKey) -> (r: bool)
    ensures
        r == key_lt(key_of(*a), key_of(*b)),
{
    if a.rank != b.rank {
        a.rank < b.rank
    } else if a.tie != b.tie {
        a.tie < b.tie
    } else {
        text_less(&a.text, &b.text)
    }
}

/// The positions of `keys` in the order a stable sort by key puts them.
pub fn stable_order(keys: &Vec<SortKey>) -> (p: Vec<usize>)
    ensures
        is_stable_order(keys_view(keys@), p@),
        p@ == sorted_positions(keys_view(keys@)),
{
    let ghost kv = keys_view(keys@);
    let n = keys.len();
    let mut p: Vec<usize> = Vec::new();
    let mut i: usize = 0;
    while i < n
        invariant
            n == keys.len(),
            kv == keys_view(keys@),
            i <= n,
            p.len() == i,
            forall|a: int| 0 <= a < p.len() ==> (#[trigger] p@[a]) < i,
            forall|k: usize| k < i ==> #[trigger] p@.contains(k),
            forall|a: int, b: int| 0 <= a < b < p.len() ==> before(kv, #[trigger] p@[a] as int, #[trigger] p@[b] as int),
        decreases n - i,
    {
        // first place whose record the new one precedes
        let mut q: usize = 0;
        while q < p.len() && !key_less(&keys[i], &keys[p[q]])
            invariant
                n == keys.len(),
                kv == keys_view(keys@),
                i < n,
                q <= p.len(),
                forall|a: int| 0 <= a < p.len() ==> (#[trigger] p@[a]) < i,
                forall|a: int| 0 <= a < q ==> !key_lt(kv[i as int], kv[#[trigger] p@[a] as int]),
            decreases p.len() - q,
        {
            q += 1;
        }
        let ghost old_p = p@;
        proof {
            // everything before q precedes i, i precedes everything from q on
            assert forall|a: int| 0 <= a < q implies before(kv, #[trigger] old_p[a] as int, i as int) by {
                lemma_before_total(kv, old_p[a] as int, i as int);
            }
            if q < old_p.len() {
                assert(key_lt(kv[i as int], kv[old_p[q as int] as int]));
                assert forall|a: int| q <= a < old_p.len() implies before(kv, i as int, #[trigger] old_p[a] as int) by {
                    if a > q {
                        lemma_before_transitive(kv, i as int, old_p[q as int] as int, old_p[a] as int);
                    }
                }
            }
        }
        p.insert(q, i);
        proof {
            assert(p@ == old_p.insert(q as int, i));
            assert forall|a: int, b: int| 0 <= a < b < p.len() implies before(kv, #[trigger] p@[a] as int, #[trigger] p@[b] as int) by {
                if b < q {
                    assert(p@[a] == old_p[a] && p@[b] == old_p[b]);
                } else if b == q {
                    assert(p@[a] == old_p[a]);
                } else if a < q {
                    assert(p@[a] == old_p[a] && p@[b] == old_p[b - 1]);
                    lemma_before_transitive(kv, old_p[a] as int, i as int, old_p[b - 1] as int);
                } else if a == q {
                    assert(p@[b] == old_p[b - 1]);
                } else {
                    assert(p@[a] == old_p[a - 1] && p@[b] == old_p[b - 1]);
                }
            }
            assert forall|k: usize| k < i + 1 implies #[trigger] p@.contains(k) by {
                if k == i {
                    assert(p@[q as int] == i);
                } else {
                    assert(old_p.contains(k));
                    let w = choose|w: int| 0 <= w < old_p.len() && old_p[w] == k;
                    if w < q {
                        assert(p@[w] == old_p[w]);
                    } else {
                        assert(p@[w + 1] == old_p[w]);
                    }
                }
            }
            assert forall|a: int| 0 <= a < p.len() implies (#[trigger] p@[a]) < i + 1 by {
                if a < q {
                    assert(p@[a] == old_p[a]);
                } else if a > q {
                    assert(p@[a] == old_p[a - 1]);
                }
            }
        }
        i += 1;
    }
    proof {
        lemma_stable_order_unique(kv, p@, sorted_positions(kv));
    }
    p
}

} // verus!
