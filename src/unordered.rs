//! Multiset difference of two unordered collections, and its application.
use vstd::prelude::*;

verus! {

/// An element of a scalar field or of an unordered collection.
#[derive(Clone, Copy, Debug, PartialEq, Eq, Structural)]
pub enum Atom {
    Int(i64),
    Bool(bool),
}

/// `s` without its first occurrence of `x` (unchanged if `x` does not occur).
pub open spec fn remove_first(s: Seq<Atom>, x: Atom) -> Seq<Atom>
    decreases s.len(),
{
    if s.len() == 0 {
        s
    } else if s[0] == x {
        s.drop_first()
    } else {
        seq![s[0]] + remove_first(s.drop_first(), x)
    }
}

/// The pair (candidate additions, removals) after the first `n` elements of
/// `old` have been matched against `new`: an old element that equals a
/// remaining candidate consumes its first occurrence, any other old element
/// becomes a removal.
pub open spec fn diff_prefix(old: Seq<Atom>, new: Seq<Atom>, n: nat) -> (Seq<Atom>, Seq<Atom>)
    decreases n,
{
    if n == 0 {
        (new, Seq::empty())
    } else {
        let prev = diff_prefix(old, new, (n - 1) as nat);
        let x = old[n - 1];
        if prev.0.contains(x) {
            (remove_first(prev.0, x), prev.1)
        } else {
            (prev.0, prev.1.push(x))
        }
    }
}

/// (additions, removals) that turn the collection `old` into `new`.
pub open spec fn diff_spec(old: Seq<Atom>, new: Seq<Atom>) -> (Seq<Atom>, Seq<Atom>) {
    diff_prefix(old, new, old.len())
}

/// `s` after removing one occurrence of each of the first `k` elements of `r`, in order.
pub open spec fn remove_each(s: Seq<Atom>, r: Seq<Atom>, k: nat) -> Seq<Atom>
    decreases k,
{
    if k == 0 {
        s
    } else {
        remove_first(remove_each(s, r, (k - 1) as nat), r[k - 1])
    }
}

/// `s` with the removals taken out and the additions appended.
pub open spec fn apply_spec(s: Seq<Atom>, add: Seq<Atom>, remove: Seq<Atom>) -> Seq<Atom> {
    remove_each(s, remove, remove.len()) + add
}

proof fn lemma_remove_first_multiset(s: Seq<Atom>, x: Atom)
    ensures
        s.contains(x) ==> remove_first(s, x).to_multiset() =~= s.to_multiset().remove(x),
        !s.contains(x) ==> remove_first(s, x) == s,
    decreases s.len(),
{
    broadcast use vstd::seq_lib::group_to_multiset_ensures, vstd::multiset::group_multiset_axioms;

    if s.len() > 0 {
        let rest = s.drop_first();
        lemma_remove_first_multiset(rest, x);
        assert(s =~= seq![s[0]] + rest);
        vstd::seq_lib::lemma_multiset_commutative(seq![s[0]], rest);
        if s[0] == x {
            assert(s.remove(0) =~= rest);
        } else {
            vstd::seq_lib::lemma_multiset_commutative(seq![s[0]], remove_first(rest, x));
            if s.contains(x) {
                let j = choose|j: int| 0 <= j < s.len() && s[j] == x;
                assert(rest[j - 1] == x);
            } else {
                assert forall|j: int| 0 <= j < rest.len() implies rest[j] != x by {
                    assert(s[j + 1] == rest[j]);
                }
            }
        }
    }
}

proof fn lemma_remove_first_at(s: Seq<Atom>, x: Atom, j: int)
    requires
        0 <= j < s.len(),
        s[j] == x,
        forall|k: int| 0 <= k < j ==> s[k] != x,
    ensures
        remove_first(s, x) =~= s.remove(j),
    decreases s.len(),
{
    if j > 0 {
        lemma_remove_first_at(s.drop_first(), x, j - 1);
    }
}

proof fn lemma_diff_prefix_counts(old: Seq<Atom>, new: Seq<Atom>, n: nat)
    requires
        n <= old.len(),
    ensures
        diff_prefix(old, new, n).0.to_multiset().add(old.take(n as int).to_multiset())
            =~= new.to_multiset().add(diff_prefix(old, new, n).1.to_multiset()),
        diff_prefix(old, new, n).1.to_multiset().subset_of(old.take(n as int).to_multiset()),
    decreases n,
{
    broadcast use vstd::seq_lib::group_to_multiset_ensures, vstd::multiset::group_multiset_axioms;

    if n > 0 {
        let m = (n - 1) as nat;
        lemma_diff_prefix_counts(old, new, m);
        let prev = diff_prefix(old, new, m);
        let x = old[m as int];
        assert(old.take(n as int) =~= old.take(m as int).push(x));
        lemma_remove_first_multiset(prev.0, x);
        let cur = diff_prefix(old, new, n);
        let lhs = cur.0.to_multiset().add(old.take(n as int).to_multiset());
        let rhs = new.to_multiset().add(cur.1.to_multiset());
        assert forall|y: Atom| #[trigger] lhs.count(y) == rhs.count(y) by {
            assert(prev.0.to_multiset().add(old.take(m as int).to_multiset()).count(y)
                == new.to_multiset().add(prev.1.to_multiset()).count(y));
            if prev.0.contains(x) {
                assert(prev.0.to_multiset().count(x) > 0);
            }
        }
    } else {
        assert(old.take(0) =~= Seq::<Atom>::empty());
    }
}

proof fn lemma_remove_each_multiset(s: Seq<Atom>, r: Seq<Atom>, k: nat)
    requires
        k <= r.len(),
        r.take(k as int).to_multiset().subset_of(s.to_multiset()),
    ensures
        remove_each(s, r, k).to_multiset() =~= s.to_multiset().sub(r.take(k as int).to_multiset()),
    decreases k,
{
    broadcast use vstd::seq_lib::group_to_multiset_ensures, vstd::multiset::group_multiset_axioms;

    if k == 0 {
        assert(r.take(0) =~= Seq::<Atom>::empty());
    } else {
        let m = (k - 1) as nat;
        let y = r[m as int];
        assert(r.take(k as int) =~= r.take(m as int).push(y));
        assert(r.take(k as int).to_multiset().count(y) == r.take(m as int).to_multiset().count(y) + 1);
        lemma_remove_each_multiset(s, r, m);
        let prev = remove_each(s, r, m);
        assert(prev.to_multiset().count(y) > 0);
        lemma_remove_first_multiset(prev, y);
    }
}

/// Applying the difference of `old` and `new` to `old` gives a collection
/// with exactly the elements of `new`, each as often as in `new`.
pub proof fn lemma_unordered_round_trip(old: Seq<Atom>, new: Seq<Atom>)
    ensures
        apply_spec(old, diff_spec(old, new).0, diff_spec(old, new).1).to_multiset()
            =~= new.to_multiset(),
{
    broadcast use vstd::seq_lib::group_to_multiset_ensures, vstd::multiset::group_multiset_axioms;

    let d = diff_spec(old, new);
    lemma_diff_prefix_counts(old, new, old.len());
    assert(old.take(old.len() as int) =~= old);
    assert(d.1.take(d.1.len() as int) =~= d.1);
    lemma_remove_each_multiset(old, d.1, d.1.len());
    let kept = remove_each(old, d.1, d.1.len());
    vstd::seq_lib::lemma_multiset_commutative(kept, d.0);
    assert forall|x: Atom|
        #[trigger] (kept + d.0).to_multiset().count(x) == new.to_multiset().count(x) by {
        assert(d.0.to_multiset().add(old.to_multiset()).count(x) == new.to_multiset().add(
            d.1.to_multiset(),
        ).count(x));
        assert(d.1.to_multiset().count(x) <= old.to_multiset().count(x));
    }
}

/// The difference of a collection with itself has no additions and no removals.
pub proof fn lemma_diff_self(s: Seq<Atom>)
    ensures
        diff_spec(s, s).0.len() == 0,
        diff_spec(s, s).1.len() == 0,
{
    lemma_diff_prefix_self(s, s.len());
    assert(s.skip(s.len() as int) =~= Seq::<Atom>::empty());
}

proof fn lemma_diff_prefix_self(s: Seq<Atom>, n: nat)
    requires
        n <= s.len(),
    ensures
        diff_prefix(s, s, n).0 =~= s.skip(n as int),
        diff_prefix(s, s, n).1.len() == 0,
    decreases n,
{
    if n > 0 {
        let m = (n - 1) as nat;
        lemma_diff_prefix_self(s, m);
        let rest = s.skip(m as int);
        assert(rest[0] == s[m as int]);
        assert(rest.contains(s[m as int]));
        assert(rest.drop_first() =~= s.skip(n as int));
    } else {
        assert(s.skip(0) =~= s);
    }
}

/// Index of the first element of `v` equal to `x`, if any.
fn position_of(v: &Vec<Atom>, x: Atom) -> (r: Option<usize>)
    ensures
        match r {
            Some(j) => j < v.len() && v@[j as int] == x && forall|k: int| 0 <= k < j ==> v@[k] != x,
            None => !v@.contains(x),
        },
{
    let mut i: usize = 0;
    while i < v.len()
        invariant
            i <= v.len(),
            forall|k: int| 0 <= k < i ==> v@[k] != x,
        decreases v.len() - i,
    {
        if v[i] == x {
            return Some(i);
        }
        i = i + 1;
    }
    None
}

/// Removes the first occurrence of `x` from `v`; does nothing if `x` is absent.
pub fn remove_one(v: &mut Vec<Atom>, x: Atom)
    ensures
        final(v)@ == remove_first(old(v)@, x),
{
    proof {
        lemma_remove_first_multiset(v@, x);
    }
    match position_of(v, x) {
        Some(j) => {
            proof {
                lemma_remove_first_at(v@, x, j as int);
            }
            v.remove(j);
        },
        None => {},
    }
}

/// Splits `old` and `new` into (additions, removals): the elements of `new`
/// that no element of `old` matched, in `new`'s order, and the elements of
/// `old` that matched nothing in `new`, in `old`'s order.
pub fn unordered_diff(old: &Vec<Atom>, new: &Vec<Atom>) -> (r: (Vec<Atom>, Vec<Atom>))
    ensures
        (r.0@, r.1@) == diff_spec(old@, new@),
{
    let mut additions: Vec<Atom> = new.clone();
    let mut removals: Vec<Atom> = Vec::new();
    let mut i: usize = 0;
    while i < old.len()
        invariant
            i <= old.len(),
            (additions@, removals@) == diff_prefix(old@, new@, i as nat),
        decreases old.len() - i,
    {
        let x = old[i];
        match position_of(&additions, x) {
            Some(j) => {
                proof {
                    lemma_remove_first_at(additions@, x, j as int);
                }
                additions.remove(j);
            },
            None => {
                removals.push(x);
            },
        }
        i = i + 1;
    }
    (additions, removals)
}

/// Takes one occurrence of each of `remove` out of `v` (an absent one is
/// skipped), then appends `add`.
pub fn apply_unordered(v: &mut Vec<Atom>, add: &Vec<Atom>, remove: &Vec<Atom>)
    ensures
        final(v)@ == apply_spec(old(v)@, add@, remove@),
{
    let ghost start = v@;
    let mut k: usize = 0;
    while k < remove.len()
        invariant
            k <= remove.len(),
            v@ == remove_each(start, remove@, k as nat),
        decreases remove.len() - k,
    {
        remove_one(v, remove[k]);
        k = k + 1;
    }
    let mut i: usize = 0;
    let ghost kept = v@;
    while i < add.len()
        invariant
            i <= add.len(),
            kept == remove_each(start, remove@, remove@.len()),
            v@ == kept + add@.take(i as int),
        decreases add.len() - i,
    {
        v.push(add[i]);
        i = i + 1;
        proof {
            assert(add@.take(i as int) =~= add@.take(i - 1).push(add@[i - 1]));
        }
    }
    proof {
        assert(add@.take(add.len() as int) =~= add@);
    }
}

} // verus!
