//! Putting names in order.

use vstd::prelude::*;

verus! {

/// `a` comes before `b` or is the same: the order of dictionaries, by the
/// numbers of the characters or bytes.
pub open spec fn lex_le(a: Seq<u32>, b: Seq<u32>) -> bool
    decreases a.len(),
{
    if a.len() == 0 {
        true
    } else if b.len() == 0 {
        false
    } else if a[0] != b[0] {
        a[0] < b[0]
    } else {
        lex_le(a.drop_first(), b.drop_first())
    }
}

/// Puts `i` into an ordered list of positions, behind those whose keys come
/// before its own or are the same.
pub open spec fn insert_position(keys: Seq<Seq<u32>>, ord: Seq<int>, i: int) -> Seq<int>
    decreases ord.len(),
{
    if ord.len() == 0 || lex_le(keys[ord.last()], keys[i]) {
        ord.push(i)
    } else {
        insert_position(keys, ord.drop_last(), i).push(ord.last())
    }
}

/// The first `n` positions, in the order of their keys.
pub open spec fn first_in_order(keys: Seq<Seq<u32>>, n: nat) -> Seq<int>
    decreases n,
{
    if n == 0 {
        seq![]
    } else {
        insert_position(keys, first_in_order(keys, (n - 1) as nat), n - 1)
    }
}

/// All positions, in the order of their keys.
pub open spec fn in_order(keys: Seq<Seq<u32>>) -> Seq<int> {
    first_in_order(keys, keys.len())
}

/// Keys as mathematical values.
pub open spec fn key_views(v: Seq<Vec<u32>>) -> Seq<Seq<u32>> {
    Seq::new(v.len(), |i: int| v[i]@)
}

/// Positions as mathematical values.
pub open spec fn positions(v: Seq<usize>) -> Seq<int> {
    Seq::new(v.len(), |i: int| v[i] as int)
}

/// Whether a key comes before another or is the same.
fn key_le(a: &Vec<u32>, b: &Vec<u32>) -> (r: bool)
    ensures
        r == lex_le(a@, b@),
{
    let mut i: usize = 0;
    proof {
        assert(a@.skip(0) =~= a@);
        assert(b@.skip(0) =~= b@);
    }
    while i < a.len() && i < b.len()
        invariant
            i <= a.len(),
            i <= b.len(),
            lex_le(a@, b@) == lex_le(a@.skip(i as int), b@.skip(i as int)),
        decreases a.len() - i,
    {
        proof {
            assert(a@.skip(i as int)[0] == a@[i as int]);
            assert(b@.skip(i as int)[0] == b@[i as int]);
            assert(a@.skip(i as int).drop_first() =~= a@.skip(i + 1));
            assert(b@.skip(i as int).drop_first() =~= b@.skip(i + 1));
        }
        if a[i] != b[i] {
            return a[i] < b[i];
        }
        i += 1;
    }
    i == a.len()
}

proof fn lemma_insert_props(keys: Seq<Seq<u32>>, ord: Seq<int>, i: int)
    ensures
        insert_position(keys, ord, i).len() == ord.len() + 1,
        forall|x: int|
            #[trigger] insert_position(keys, ord, i).contains(x) <==> (ord.contains(x) || x == i),
    decreases ord.len(),
{
    if ord.len() == 0 || lex_le(keys[ord.last()], keys[i]) {
        let r = ord.push(i);
        assert forall|x: int| #[trigger] r.contains(x) <==> (ord.contains(x) || x == i) by {
            if ord.contains(x) {
                let k = choose|k: int| 0 <= k < ord.len() && ord[k] == x;
                assert(r[k] == x);
            }
            if x == i {
                assert(r[ord.len() as int] == x);
            }
            if r.contains(x) {
                let k = choose|k: int| 0 <= k < r.len() && r[k] == x;
                if k < ord.len() {
                    assert(ord[k] == x);
                }
            }
        }
    } else {
        let t = insert_position(keys, ord.drop_last(), i);
        let r = t.push(ord.last());
        lemma_insert_props(keys, ord.drop_last(), i);
        assert forall|x: int| #[trigger] r.contains(x) <==> (ord.contains(x) || x == i) by {
            if r.contains(x) {
                let k = choose|k: int| 0 <= k < r.len() && r[k] == x;
                if k < t.len() {
                    assert(t[k] == x);
                    assert(t.contains(x));
                    if x != i {
                        let m = choose|m: int|
                            0 <= m < ord.drop_last().len() && ord.drop_last()[m] == x;
                        assert(ord[m] == x);
                    }
                } else {
                    assert(ord[ord.len() - 1] == x);
                }
            }
            if ord.contains(x) {
                let k = choose|k: int| 0 <= k < ord.len() && ord[k] == x;
                if k < ord.len() - 1 {
                    assert(ord.drop_last()[k] == x);
                    assert(ord.drop_last().contains(x));
                    assert(t.contains(x));
                    let m = choose|m: int| 0 <= m < t.len() && t[m] == x;
                    assert(r[m] == x);
                } else {
                    assert(r[t.len() as int] == x);
                }
            }
            if x == i {
                assert(t.contains(x));
                let m = choose|m: int| 0 <= m < t.len() && t[m] == x;
                assert(r[m] == x);
            }
        }
    }
}

/// All positions, in the order of their keys.
pub fn order(keys: &Vec<Vec<u32>>) -> (r: Vec<usize>)
    ensures
        positions(r@) == in_order(key_views(keys@)),
        r.len() == keys.len(),
        forall|i: int| 0 <= i < r.len() ==> (#[trigger] r@[i]) < keys.len(),
{
    let mut out: Vec<usize> = Vec::new();
    let mut n: usize = 0;
    let ghost ks = key_views(keys@);
    proof {
        assert(positions(out@) =~= first_in_order(ks, 0));
    }
    while n < keys.len()
        invariant
            n <= keys.len(),
            ks == key_views(keys@),
            out.len() == n,
            positions(out@) == first_in_order(ks, n as nat),
            forall|i: int| 0 <= i < n ==> (#[trigger] out@[i]) < n,
        decreases keys.len() - n,
    {
        let ghost before = out@;
        let ghost ord = positions(before);
        let mut at: usize = n;
        proof {
            assert(ord.take(n as int) =~= ord);
            assert(insert_position(ks, ord, n as int) =~= insert_position(
                ks,
                ord.take(at as int),
                n as int,
            ) + ord.skip(at as int));
        }
        while at > 0 && !key_le(&keys[out[at - 1]], &keys[n])
            invariant
                n < keys.len(),
                at <= n,
                out@ == before,
                out.len() == n,
                ord == positions(before),
                ks == key_views(keys@),
                forall|i: int| 0 <= i < n ==> (#[trigger] out@[i]) < n,
                insert_position(ks, ord, n as int) == insert_position(
                    ks,
                    ord.take(at as int),
                    n as int,
                ) + ord.skip(at as int),
            decreases at,
        {
            proof {
                let t = ord.take(at as int);
                assert(t.last() == ord[at - 1]);
                assert(t.drop_last() =~= ord.take(at - 1));
                assert(ks[n as int] == keys@[n as int]@);
                assert(ks[t.last()] == keys@[before[at - 1] as int]@);
                assert(insert_position(ks, t, n as int) == insert_position(
                    ks,
                    ord.take(at - 1),
                    n as int,
                ).push(ord[at - 1]));
                assert(insert_position(ks, ord.take(at - 1), n as int).push(ord[at - 1])
                    + ord.skip(at as int) =~= insert_position(ks, ord.take(at - 1), n as int)
                    + ord.skip(at - 1));
            }
            at -= 1;
        }
        proof {
            let t = ord.take(at as int);
            if at > 0 {
                assert(t.last() == ord[at - 1]);
                assert(ks[n as int] == keys@[n as int]@);
                assert(ks[t.last()] == keys@[before[at - 1] as int]@);
            }
            assert(insert_position(ks, t, n as int) == t.push(n as int));
        }
        out.insert(at, n);
        proof {
            assert(positions(out@) =~= ord.take(at as int).push(n as int) + ord.skip(at as int));
        }
        n += 1;
    }
    out
}

// ---------------------------------------------------------------------------
// Laws
// ---------------------------------------------------------------------------

proof fn lemma_le_total(a: Seq<u32>, b: Seq<u32>)
    ensures
        lex_le(a, b) || lex_le(b, a),
    decreases a.len(),
{
    if a.len() > 0 && b.len() > 0 && a[0] == b[0] {
        lemma_le_total(a.drop_first(), b.drop_first());
    }
}

proof fn lemma_le_transitive(a: Seq<u32>, b: Seq<u32>, c: Seq<u32>)
    requires
        lex_le(a, b),
        lex_le(b, c),
    ensures
        lex_le(a, c),
    decreases a.len(),
{
    if a.len() > 0 && b.len() > 0 && c.len() > 0 && a[0] == b[0] && b[0] == c[0] {
        lemma_le_transitive(a.drop_first(), b.drop_first(), c.drop_first());
    }
}

/// Positions whose keys are in order.
pub open spec fn sorted(keys: Seq<Seq<u32>>, ord: Seq<int>) -> bool {
    forall|i: int, j: int|
        0 <= i <= j < ord.len() ==> lex_le(keys[#[trigger] ord[i]], keys[#[trigger] ord[j]])
}

proof fn lemma_le_reflexive(a: Seq<u32>)
    ensures
        lex_le(a, a),
    decreases a.len(),
{
    if a.len() > 0 {
        lemma_le_reflexive(a.drop_first());
    }
}

proof fn lemma_insert_sorted(keys: Seq<Seq<u32>>, ord: Seq<int>, i: int)
    requires
        sorted(keys, ord),
    ensures
        sorted(keys, insert_position(keys, ord, i)),
    decreases ord.len(),
{
    let r = insert_position(keys, ord, i);
    lemma_insert_props(keys, ord, i);
    if ord.len() == 0 || lex_le(keys[ord.last()], keys[i]) {
        assert forall|a: int, b: int| 0 <= a <= b < r.len() implies lex_le(
            keys[#[trigger] r[a]],
            keys[#[trigger] r[b]],
        ) by {
            if b < ord.len() {
                assert(r[a] == ord[a] && r[b] == ord[b]);
            } else if a < ord.len() {
                assert(r[a] == ord[a]);
                assert(lex_le(keys[ord[a]], keys[ord[ord.len() - 1]]));
                lemma_le_transitive(keys[ord[a]], keys[ord.last()], keys[i]);
            } else {
                lemma_le_reflexive(keys[i]);
            }
        }
    } else {
        let d = ord.drop_last();
        let t = insert_position(keys, d, i);
        assert forall|a: int, b: int| 0 <= a <= b < d.len() implies lex_le(
            keys[#[trigger] d[a]],
            keys[#[trigger] d[b]],
        ) by {
            assert(d[a] == ord[a] && d[b] == ord[b]);
        }
        lemma_insert_sorted(keys, d, i);
        lemma_insert_props(keys, d, i);
        lemma_le_total(keys[ord.last()], keys[i]);
        assert forall|a: int, b: int| 0 <= a <= b < r.len() implies lex_le(
            keys[#[trigger] r[a]],
            keys[#[trigger] r[b]],
        ) by {
            if b < t.len() {
                assert(r[a] == t[a] && r[b] == t[b]);
            } else if a < t.len() {
                assert(t.contains(t[a]));
                if t[a] != i {
                    let m = choose|m: int| 0 <= m < d.len() && d[m] == t[a];
                    assert(ord[m] == t[a]);
                    assert(lex_le(keys[ord[m]], keys[ord[ord.len() - 1]]));
                }
            } else {
                lemma_le_reflexive(keys[ord.last()]);
            }
        }
    }
}

proof fn lemma_first_in_order(keys: Seq<Seq<u32>>, n: nat)
    ensures
        first_in_order(keys, n).len() == n,
        sorted(keys, first_in_order(keys, n)),
        forall|x: int| #[trigger] first_in_order(keys, n).contains(x) <==> 0 <= x < n,
    decreases n,
{
    if n > 0 {
        let m = (n - 1) as nat;
        lemma_first_in_order(keys, m);
        lemma_insert_props(keys, first_in_order(keys, m), m as int);
        lemma_insert_sorted(keys, first_in_order(keys, m), m as int);
        assert forall|x: int| #[trigger] first_in_order(keys, n).contains(x) <==> 0 <= x < n by {
            assert(first_in_order(keys, m).contains(x) <==> 0 <= x < m);
        }
    }
}

/// Putting keys in order loses none, adds none, and leaves no key in front of
/// one that comes before it.
pub proof fn law_order_is_sorted(keys: Seq<Seq<u32>>)
    ensures
        in_order(keys).len() == keys.len(),
        sorted(keys, in_order(keys)),
        forall|x: int| #[trigger] in_order(keys).contains(x) <==> 0 <= x < keys.len(),
{
    lemma_first_in_order(keys, keys.len());
}

/// Dictionary order, told by the place where two sequences part: all before it
/// is the same, and there the first one ends or has the smaller number.
pub proof fn law_order_is_that_of_dictionaries(a: Seq<u32>, b: Seq<u32>)
    ensures
        lex_le(a, b) <==> a == b || exists|k: int| #[trigger] parts_below(a, b, k),
    decreases a.len(),
{
    if a.len() == 0 {
        if b.len() == 0 {
            assert(a =~= b);
        } else {
            assert(a.take(0) =~= b.take(0));
            assert(parts_below(a, b, 0));
        }
    } else if b.len() > 0 && a[0] == b[0] {
        let (x, y) = (a.drop_first(), b.drop_first());
        law_order_is_that_of_dictionaries(x, y);
        if x == y {
            assert(a =~= seq![a[0]] + x);
            assert(b =~= seq![b[0]] + y);
        }
        if exists|k: int| #[trigger] parts_below(x, y, k) {
            let k = choose|k: int| #[trigger] parts_below(x, y, k);
            assert(a.take(k + 1) =~= seq![a[0]] + x.take(k));
            assert(b.take(k + 1) =~= seq![b[0]] + y.take(k));
            assert(parts_below(a, b, k + 1));
        }
        if exists|k: int| #[trigger] parts_below(a, b, k) {
            let k = choose|k: int| #[trigger] parts_below(a, b, k);
            assert(k > 0);
            assert(x.take(k - 1) =~= a.take(k).drop_first());
            assert(y.take(k - 1) =~= b.take(k).drop_first());
            assert(parts_below(x, y, k - 1));
        }
    } else {
        if b.len() > 0 && a[0] < b[0] {
            assert(a.take(0) =~= b.take(0));
            assert(parts_below(a, b, 0));
        }
        if exists|k: int| #[trigger] parts_below(a, b, k) {
            let k = choose|k: int| #[trigger] parts_below(a, b, k);
            if k > 0 {
                assert(a.take(k)[0] == a[0]);
                assert(b.take(k)[0] == b[0]);
            }
        }
    }
}

/// Whether two sequences are the same before `k`, where the first one ends
/// while the second goes on, or has the smaller number.
pub open spec fn parts_below(a: Seq<u32>, b: Seq<u32>, k: int) -> bool {
    &&& 0 <= k <= a.len()
    &&& k < b.len()
    &&& a.take(k) == b.take(k)
    &&& k == a.len() || a[k] < b[k]
}

/// Whether what has the same key stands in the order of its positions.
pub open spec fn keeps_turns(keys: Seq<Seq<u32>>, ord: Seq<int>) -> bool {
    forall|i: int, j: int|
        0 <= i < j < ord.len() && keys[#[trigger] ord[i]] == keys[#[trigger] ord[j]] ==> ord[i]
            < ord[j]
}

proof fn lemma_insert_keeps_turns(keys: Seq<Seq<u32>>, ord: Seq<int>, x: int)
    requires
        keeps_turns(keys, ord),
        forall|i: int| 0 <= i < ord.len() ==> #[trigger] ord[i] < x,
    ensures
        keeps_turns(keys, insert_position(keys, ord, x)),
    decreases ord.len(),
{
    let r = insert_position(keys, ord, x);
    if ord.len() == 0 || lex_le(keys[ord.last()], keys[x]) {
        assert forall|i: int, j: int|
            0 <= i < j < r.len() && keys[#[trigger] r[i]] == keys[#[trigger] r[j]] implies r[i]
            < r[j] by {
            assert(r[i] == ord[i]);
            if j < ord.len() {
                assert(r[j] == ord[j]);
            }
        }
    } else {
        let d = ord.drop_last();
        let t = insert_position(keys, d, x);
        assert forall|i: int, j: int|
            0 <= i < j < d.len() && keys[#[trigger] d[i]] == keys[#[trigger] d[j]] implies d[i]
            < d[j] by {
            assert(d[i] == ord[i] && d[j] == ord[j]);
        }
        assert forall|i: int| 0 <= i < d.len() implies #[trigger] d[i] < x by {
            assert(d[i] == ord[i]);
        }
        lemma_insert_keeps_turns(keys, d, x);
        lemma_insert_props(keys, d, x);
        lemma_le_reflexive(keys[x]);
        assert forall|i: int, j: int|
            0 <= i < j < r.len() && keys[#[trigger] r[i]] == keys[#[trigger] r[j]] implies r[i]
            < r[j] by {
            assert(r[i] == t[i]);
            if j < t.len() {
                assert(r[j] == t[j]);
            } else {
                assert(t.contains(t[i]));
                assert(t[i] != x);
                let m = choose|m: int| 0 <= m < d.len() && d[m] == t[i];
                assert(ord[m] == t[i]);
                assert(ord[ord.len() - 1] == r[j]);
            }
        }
    }
}

proof fn lemma_first_keep_turns(keys: Seq<Seq<u32>>, n: nat)
    ensures
        keeps_turns(keys, first_in_order(keys, n)),
    decreases n,
{
    if n > 0 {
        let m = (n - 1) as nat;
        let ord = first_in_order(keys, m);
        lemma_first_keep_turns(keys, m);
        lemma_first_in_order(keys, m);
        assert forall|i: int| 0 <= i < ord.len() implies #[trigger] ord[i] < m by {
            assert(ord.contains(ord[i]));
        }
        lemma_insert_keeps_turns(keys, ord, m as int);
    }
}

/// What has the same key stays in the order that it had.
pub proof fn law_order_is_stable(keys: Seq<Seq<u32>>)
    ensures
        keeps_turns(keys, in_order(keys)),
{
    lemma_first_keep_turns(keys, keys.len());
}

} // verus!
