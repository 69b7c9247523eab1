//! Stable sorting from the highest rank down.
use vstd::prelude::*;
use vstd::set_lib::{set_int_range, lemma_int_range, lemma_subset_equality};

verus! {

/// Values with a total preorder on them, chosen by an `Order`.
pub trait Ranked: Sized {
    type Order;

    /// Whether `a` ranks at most as high as `b` under `order`.
    spec fn rank_le(order: Self::Order, a: Self, b: Self) -> bool;

    proof fn lemma_rank_le_transitive(order: Self::Order, a: Self, b: Self, c: Self)
        requires
            Self::rank_le(order, a, b),
            Self::rank_le(order, b, c),
        ensures
            Self::rank_le(order, a, c),
    ;

    proof fn lemma_rank_le_total(order: Self::Order, a: Self, b: Self)
        ensures
            Self::rank_le(order, a, b) || Self::rank_le(order, b, a),
    ;

    /// Whether `a` ranks strictly higher than `b` under `order`.
    fn ranks_above(order: &Self::Order, a: &Self, b: &Self) -> (r: bool)
        ensures
            r == !Self::rank_le(*order, *a, *b),
    ;
}

/// Two values of the same rank.
pub open spec fn same_rank<T: Ranked>(order: T::Order, a: T, b: T) -> bool {
    T::rank_le(order, a, b) && T::rank_le(order, b, a)
}

/// A sequence whose ranks never rise from one position to a later one.
pub open spec fn sorted_desc<T: Ranked>(order: T::Order, s: Seq<T>) -> bool {
    forall|i: int, j: int| 0 <= i < j < s.len() ==> T::rank_le(order, #[trigger] s[j], #[trigger] s[i])
}

/// `p` takes each position of `output` to a distinct position of `input`
/// holding the same value, and keeps the input order of values of the same
/// rank.
pub open spec fn stable_arrangement<T: Ranked>(order: T::Order, input: Seq<T>, output: Seq<T>, p: Seq<int>) -> bool {
    &&& p.len() == output.len()
    &&& forall|i: int| 0 <= i < p.len() ==> 0 <= #[trigger] p[i] < input.len() && output[i] == input[p[i]]
    &&& forall|i: int, j: int| 0 <= i < j < p.len() ==> #[trigger] p[i] != #[trigger] p[j]
    &&& forall|i: int, j: int|
        0 <= i < j < p.len() && same_rank(order, output[i], output[j]) ==> #[trigger] p[i] < #[trigger] p[j]
}

/// `output` is `input` sorted from the highest rank down, values of the same
/// rank kept in their input order.
pub open spec fn stable_sort_of<T: Ranked>(order: T::Order, input: Seq<T>, output: Seq<T>) -> bool {
    &&& output.len() == input.len()
    &&& sorted_desc(order, output)
    &&& exists|p: Seq<int>| stable_arrangement(order, input, output, p)
}

/// Sorts `v` from the highest rank down, keeping the order of values of the
/// same rank.
pub fn stable_sort_desc<T: Ranked>(order: &T::Order, v: &mut Vec<T>)
    ensures
        stable_sort_of(*order, old(v)@, final(v)@),
{
    let ghost input = v@;
    let mut rest: Vec<T> = Vec::new();
    std::mem::swap(v, &mut rest);
    // `v` holds the stable sort of input[k..], `rest` holds input[..k].
    let ghost mut p: Seq<int> = Seq::empty();
    while rest.len() > 0
        invariant
            rest@ == input.subrange(0, rest@.len() as int),
            v@.len() + rest@.len() == input.len(),
            sorted_desc(*order, v@),
            stable_arrangement(*order, input, v@, p),
            forall|i: int| 0 <= i < p.len() ==> rest@.len() <= #[trigger] p[i],
        decreases rest@.len(),
    {
        let x = rest.pop().unwrap();
        let k = rest.len();
        let ghost old_v = v@;
        // Find the first position whose value does not rank above x: the
        // values that rank above x come first, since `v` is sorted.
        let mut pos: usize = 0;
        let mut hi: usize = v.len();
        while pos < hi
            invariant
                v@ == old_v,
                sorted_desc(*order, v@),
                pos <= hi <= v@.len(),
                forall|i: int| 0 <= i < pos ==> !T::rank_le(*order, #[trigger] v@[i], x),
                forall|i: int| hi <= i < v@.len() ==> T::rank_le(*order, #[trigger] v@[i], x),
            decreases hi - pos,
        {
            let mid = pos + (hi - pos) / 2;
            if T::ranks_above(order, &v[mid], &x) {
                assert forall|i: int| 0 <= i <= mid implies !T::rank_le(*order, #[trigger] v@[i], x) by {
                    if i < mid && T::rank_le(*order, v@[i], x) {
                        T::lemma_rank_le_transitive(*order, v@[mid as int], v@[i], x);
                    }
                }
                pos = mid + 1;
            } else {
                assert forall|i: int| mid <= i < v@.len() implies T::rank_le(*order, #[trigger] v@[i], x) by {
                    if i > mid {
                        T::lemma_rank_le_transitive(*order, v@[i], v@[mid as int], x);
                    }
                }
                hi = mid;
            }
        }
        v.insert(pos, x);
        proof {
            let new_p = p.insert(pos as int, k as int);
            assert(x == input[k as int]);
            assert forall|i: int, j: int| 0 <= i < j < v@.len() implies T::rank_le(
                *order,
                #[trigger] v@[j],
                #[trigger] v@[i],
            ) by {
                if i < pos {
                    T::lemma_rank_le_total(*order, old_v[i], x);
                    if j < pos {
                        assert(v@[j] == old_v[j]);
                    } else if j > pos {
                        assert(v@[j] == old_v[j - 1]);
                        T::lemma_rank_le_transitive(*order, old_v[j - 1], x, old_v[i]);
                    }
                } else if i == pos {
                    assert(v@[j] == old_v[j - 1]);
                } else {
                    assert(v@[j] == old_v[j - 1]);
                    assert(v@[i] == old_v[i - 1]);
                }
            }
            assert forall|i: int| 0 <= i < new_p.len() implies 0 <= #[trigger] new_p[i] < input.len()
                && v@[i] == input[new_p[i]] by {
                if i < pos {
                } else if i == pos {
                } else {
                    assert(new_p[i] == p[i - 1]);
                    assert(v@[i] == old_v[i - 1]);
                }
            }
            assert forall|i: int, j: int| 0 <= i < j < new_p.len() implies #[trigger] new_p[i]
                != #[trigger] new_p[j] by {
                if i < pos && j > pos {
                    assert(new_p[j] == p[j - 1]);
                } else if i > pos {
                    assert(new_p[j] == p[j - 1]);
                    assert(new_p[i] == p[i - 1]);
                } else if i == pos {
                    assert(new_p[j] == p[j - 1]);
                }
            }
            assert forall|i: int, j: int|
                0 <= i < j < new_p.len() && same_rank(*order, v@[i], v@[j]) implies #[trigger] new_p[i]
                < #[trigger] new_p[j] by {
                if i < pos && j == pos {
                    assert(v@[i] == old_v[i]);
                } else if i < pos && j > pos {
                    assert(new_p[j] == p[j - 1]);
                    assert(v@[j] == old_v[j - 1]);
                } else if i == pos {
                    assert(new_p[j] == p[j - 1]);
                } else if i > pos {
                    assert(new_p[j] == p[j - 1]);
                    assert(new_p[i] == p[i - 1]);
                    assert(v@[j] == old_v[j - 1]);
                    assert(v@[i] == old_v[i - 1]);
                }
            }
            assert(rest@ =~= input.subrange(0, rest@.len() as int));
            p = new_p;
        }
    }
    proof {
        assert(stable_arrangement(*order, input, v@, p));
    }
}

/// An arrangement of all positions of an input is onto: every input position
/// is taken by some output position.
proof fn lemma_arrangement_onto<T: Ranked>(order: T::Order, input: Seq<T>, output: Seq<T>, p: Seq<int>, q: int)
    requires
        stable_arrangement(order, input, output, p),
        output.len() == input.len(),
        0 <= q < input.len(),
    ensures
        exists|j: int| 0 <= j < p.len() && p[j] == q,
{
    assert(p.no_duplicates()) by {
        assert forall|i: int, j: int| 0 <= i < p.len() && 0 <= j < p.len() && i != j implies p[i] != p[j] by {
            if i < j {
                assert(p[i] != p[j]);
            } else {
                assert(p[j] != p[i]);
            }
        }
    }
    p.unique_seq_to_set();
    let range = set_int_range(0, input.len() as int);
    lemma_int_range(0, input.len() as int);
    assert(p.to_set().subset_of(range)) by {
        assert forall|x: int| p.to_set().contains(x) implies range.contains(x) by {
            let j = choose|j: int| 0 <= j < p.len() && p[j] == x;
            assert(0 <= p[j] < input.len());
        }
    }
    vstd::seq_lib::seq_to_set_is_finite(p);
    lemma_subset_equality(p.to_set(), range);
    assert(range.contains(q));
    assert(p.to_set().contains(q));
}

/// A stable sort from the highest rank down has a single outcome: any two
/// sequences that are such a sort of one input are equal.
pub proof fn lemma_stable_sort_unique<T: Ranked>(order: T::Order, input: Seq<T>, s1: Seq<T>, s2: Seq<T>)
    requires
        stable_sort_of(order, input, s1),
        stable_sort_of(order, input, s2),
    ensures
        s1 == s2,
    decreases input.len(),
{
    if input.len() == 0 {
        assert(s1 =~= s2);
        return;
    }
    let p1 = choose|p: Seq<int>| stable_arrangement(order, input, s1, p);
    let p2 = choose|p: Seq<int>| stable_arrangement(order, input, s2, p);
    let q1 = p1[0];
    let q2 = p2[0];
    // The first value of a sort ranks at least as high as every value.
    assert forall|r: int| 0 <= r < input.len() implies T::rank_le(order, input[r], s1[0]) && T::rank_le(
        order,
        input[r],
        s2[0],
    ) by {
        lemma_arrangement_onto(order, input, s1, p1, r);
        lemma_arrangement_onto(order, input, s2, p2, r);
        let j1 = choose|j: int| 0 <= j < p1.len() && p1[j] == r;
        let j2 = choose|j: int| 0 <= j < p2.len() && p2[j] == r;
        T::lemma_rank_le_total(order, s1[0], s1[0]);
        T::lemma_rank_le_total(order, s2[0], s2[0]);
        if j1 > 0 {
            assert(T::rank_le(order, s1[j1], s1[0]));
        }
        if j2 > 0 {
            assert(T::rank_le(order, s2[j2], s2[0]));
        }
    }
    // Both sorts start with the earliest input value of the highest rank.
    assert(q1 == q2) by {
        lemma_arrangement_onto(order, input, s1, p1, q2);
        lemma_arrangement_onto(order, input, s2, p2, q1);
        let j = choose|j: int| 0 <= j < p1.len() && p1[j] == q2;
        let k = choose|k: int| 0 <= k < p2.len() && p2[k] == q1;
        assert(same_rank(order, s1[0], s2[0]));
        if j != 0 && k != 0 {
            assert(s1[j] == s2[0]);
            assert(p1[0] < p1[j]);
            assert(s2[k] == s1[0]);
            assert(p2[0] < p2[k]);
        }
    }
    let q = q1;
    let rest = input.remove(q);
    let shift = |r: int| if r > q { r - 1 } else { r };
    let r1 = p1.drop_first().map_values(shift);
    let r2 = p2.drop_first().map_values(shift);
    assert(stable_arrangement(order, rest, s1.drop_first(), r1)) by {
        assert forall|i: int| 0 <= i < r1.len() implies 0 <= #[trigger] r1[i] < rest.len() && s1.drop_first()[i]
            == rest[r1[i]] by {
            assert(p1[0] != p1[i + 1]);
        }
        assert forall|i: int, j: int| 0 <= i < j < r1.len() implies #[trigger] r1[i] != #[trigger] r1[j] by {
            assert(p1[i + 1] != p1[j + 1]);
            assert(p1[0] != p1[i + 1]);
            assert(p1[0] != p1[j + 1]);
        }
        assert forall|i: int, j: int|
            0 <= i < j < r1.len() && same_rank(order, s1.drop_first()[i], s1.drop_first()[j]) implies #[trigger] r1[i]
            < #[trigger] r1[j] by {
            assert(p1[i + 1] < p1[j + 1]);
            assert(p1[0] != p1[i + 1]);
            assert(p1[0] != p1[j + 1]);
        }
    }
    assert(stable_arrangement(order, rest, s2.drop_first(), r2)) by {
        assert forall|i: int| 0 <= i < r2.len() implies 0 <= #[trigger] r2[i] < rest.len() && s2.drop_first()[i]
            == rest[r2[i]] by {
            assert(p2[0] != p2[i + 1]);
        }
        assert forall|i: int, j: int| 0 <= i < j < r2.len() implies #[trigger] r2[i] != #[trigger] r2[j] by {
            assert(p2[i + 1] != p2[j + 1]);
            assert(p2[0] != p2[i + 1]);
            assert(p2[0] != p2[j + 1]);
        }
        assert forall|i: int, j: int|
            0 <= i < j < r2.len() && same_rank(order, s2.drop_first()[i], s2.drop_first()[j]) implies #[trigger] r2[i]
            < #[trigger] r2[j] by {
            assert(p2[i + 1] < p2[j + 1]);
            assert(p2[0] != p2[i + 1]);
            assert(p2[0] != p2[j + 1]);
        }
    }
    assert(sorted_desc(order, s1.drop_first()));
    assert(sorted_desc(order, s2.drop_first()));
    lemma_stable_sort_unique(order, rest, s1.drop_first(), s2.drop_first());
    assert(s1 =~= s2) by {
        assert forall|i: int| 0 <= i < s1.len() implies s1[i] == s2[i] by {
            if i > 0 {
                assert(s1[i] == s1.drop_first()[i - 1]);
                assert(s2[i] == s2.drop_first()[i - 1]);
            }
        }
    }
}

/// Where the ranking reads values only through `key`, stable sorts of two
/// inputs that agree under `key`, position by position, agree under `key`.
pub proof fn lemma_stable_sort_unique_by_key<T: Ranked, K>(
    order: T::Order,
    key: spec_fn(T) -> K,
    input1: Seq<T>,
    input2: Seq<T>,
    s1: Seq<T>,
    s2: Seq<T>,
)
    requires
        input1.len() == input2.len(),
        forall|i: int| 0 <= i < input1.len() ==> key(#[trigger] input1[i]) == key(input2[i]),
        forall|a: T, b: T, c: T, d: T|
            #![trigger T::rank_le(order, a, b), T::rank_le(order, c, d)]
            key(a) == key(c) && key(b) == key(d) ==> T::rank_le(order, a, b) == T::rank_le(order, c, d),
        stable_sort_of(order, input1, s1),
        stable_sort_of(order, input2, s2),
    ensures
        s1.len() == s2.len(),
        forall|i: int| 0 <= i < s1.len() ==> key(#[trigger] s1[i]) == key(s2[i]),
{
    let p2 = choose|p: Seq<int>| stable_arrangement(order, input2, s2, p);
    // `s2` with each value replaced by the value of `input1` at its position.
    let t = Seq::new(s2.len(), |i: int| input1[p2[i]]);
    assert forall|i: int| 0 <= i < t.len() implies key(#[trigger] t[i]) == key(s2[i]) by {
        assert(s2[i] == input2[p2[i]]);
        assert(key(input1[p2[i]]) == key(input2[p2[i]]));
    }
    assert(sorted_desc(order, t)) by {
        assert forall|i: int, j: int| 0 <= i < j < t.len() implies T::rank_le(order, #[trigger] t[j], #[trigger] t[i]) by {
            assert(key(t[i]) == key(s2[i]));
            assert(key(t[j]) == key(s2[j]));
            assert(T::rank_le(order, s2[j], s2[i]));
        }
    }
    assert(stable_arrangement(order, input1, t, p2)) by {
        assert forall|i: int, j: int|
            0 <= i < j < p2.len() && same_rank(order, t[i], t[j]) implies #[trigger] p2[i] < #[trigger] p2[j] by {
            assert(key(t[i]) == key(s2[i]));
            assert(key(t[j]) == key(s2[j]));
            assert(T::rank_le(order, t[i], t[j]) == T::rank_le(order, s2[i], s2[j]));
            assert(T::rank_le(order, t[j], t[i]) == T::rank_le(order, s2[j], s2[i]));
        }
    }
    lemma_stable_sort_unique(order, input1, s1, t);
}

/// Sorting again what is already sorted leaves it as it is.
pub proof fn lemma_stable_sort_idempotent<T: Ranked>(order: T::Order, input: Seq<T>, s: Seq<T>, t: Seq<T>)
    requires
        stable_sort_of(order, input, s),
        stable_sort_of(order, s, t),
    ensures
        t == s,
{
    let id = Seq::new(s.len(), |i: int| i);
    assert(stable_arrangement(order, s, s, id));
    lemma_stable_sort_unique(order, s, s, t);
}

} // verus!
