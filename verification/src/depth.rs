//! Which window covers which.
//!
//! A depth is a sort key over what is drawn, nearest the viewer first, and
//! nothing else: it moves no window and changes no size.

use vstd::prelude::*;
use vstd::set_lib::{lemma_int_range, lemma_subset_equality, set_int_range};

verus! {

/// The bits of the single -0.0, with which those below zero begin.
pub const MINUS_ZERO: u32 = 0x8000_0000;

/// The bits of the single that is infinity. Those past it, and past it again
/// on the other side of zero, are not numbers.
pub const INFINITE: u32 = 0x7f80_0000;

/// The rank of a depth, as the bits of a single, among all depths: it grows
/// with the depth, and both zeros have the same. One that is not a number has
/// none.
pub open spec fn rank(depth: u32) -> Option<int> {
    if depth <= INFINITE {
        Some(depth as int)
    } else if MINUS_ZERO <= depth <= MINUS_ZERO + INFINITE {
        Some(-(depth - MINUS_ZERO))
    } else {
        None
    }
}

/// Whether one depth is nearer the viewer than another. One that is not a
/// number is neither nearer nor further than any.
pub open spec fn is_nearer(one: u32, other: u32) -> bool {
    rank(one) is Some && rank(other) is Some && rank(one)->0 > rank(other)->0
}

fn rank_of(depth: u32) -> (r: Option<i64>)
    ensures
        match r {
            Some(n) => rank(depth) == Some(n as int),
            None => rank(depth) is None,
        },
{
    if depth <= INFINITE {
        Some(depth as i64)
    } else if MINUS_ZERO <= depth && depth <= MINUS_ZERO + INFINITE {
        Some(-(depth as i64 - MINUS_ZERO as i64))
    } else {
        None
    }
}

/// Whether one depth is nearer the viewer than another.
pub fn nearer(one: u32, other: u32) -> (r: bool)
    ensures
        r == is_nearer(one, other),
{
    match (rank_of(one), rank_of(other)) {
        (Some(one), Some(other)) => one > other,
        _ => false,
    }
}

/// Whether `order` says where each of some nodes comes from, each once.
pub open spec fn is_order(order: Seq<int>, len: int) -> bool {
    &&& order.len() == len
    &&& forall|i: int| 0 <= i < len ==> 0 <= #[trigger] order[i] < len
    &&& forall|i: int, j: int| 0 <= i < j < len ==> #[trigger] order[i] != #[trigger] order[j]
}

/// Nodes in another order.
pub open spec fn reordered<T>(nodes: Seq<(T, u32)>, order: Seq<int>) -> Seq<(T, u32)> {
    Seq::new(order.len(), |i: int| nodes[order[i]])
}

/// Whether an order puts the nearest first and leaves equal depths as they
/// came.
pub open spec fn nearest_first<T>(nodes: Seq<(T, u32)>, order: Seq<int>) -> bool {
    forall|i: int, j: int|
        0 <= i < j < order.len() ==> {
            ||| is_nearer(nodes[#[trigger] order[i]].1, nodes[#[trigger] order[j]].1)
            ||| !is_nearer(nodes[order[j]].1, nodes[order[i]].1) && order[i] < order[j]
        }
}

/// Whether every depth is a number.
pub open spec fn all_ranked<T>(nodes: Seq<(T, u32)>) -> bool {
    forall|i: int| 0 <= i < nodes.len() ==> rank((#[trigger] nodes[i]).1) is Some
}

/// Whether no node is nearer than one before it.
pub open spec fn already_ordered<T>(nodes: Seq<(T, u32)>) -> bool {
    forall|i: int, j: int|
        0 <= i < j < nodes.len() ==> !is_nearer((#[trigger] nodes[j]).1, (#[trigger] nodes[i]).1)
}

/// Whether `after` is some nodes ordered for drawing: the same nodes, nearest
/// the viewer first and equal depths as they came, where every depth is a
/// number. Nodes that are in order already are as they were, whatever their
/// depths are.
pub open spec fn drawing_order<T>(before: Seq<(T, u32)>, after: Seq<(T, u32)>) -> bool {
    &&& exists|order: Seq<int>|
        {
            &&& is_order(order, before.len() as int)
            &&& after == #[trigger] reordered(before, order)
            &&& all_ranked(before) ==> nearest_first(before, order)
        }
    &&& already_ordered(before) ==> after == before
}

proof fn moving_one_is_an_order(order: Seq<int>, from: int, to: int, len: int)
    requires
        is_order(order, len),
        0 <= to <= from < len,
    ensures
        is_order(order.remove(from).insert(to, order[from]), len),
{
    let moved = order.remove(from).insert(to, order[from]);
    let was = |k: int|
        if k < to {
            k
        } else if k == to {
            from
        } else if k <= from {
            k - 1
        } else {
            k
        };
    assert forall|k: int| 0 <= k < len implies #[trigger] moved[k] == order[was(k)] && 0 <= was(k)
        < len by {}
    assert forall|i: int, j: int| 0 <= i < j < len implies #[trigger] moved[i]
        != #[trigger] moved[j] by {
        assert(moved[i] == order[was(i)]);
        assert(moved[j] == order[was(j)]);
        assert(was(i) != was(j));
    }
}

/// Order nodes for drawing: nearest the viewer first, equal depths as they
/// came.
///
/// Nodes that are in order already stay as they are, whatever their depths
/// are; a depth that is not a number is so wherever all others are equal.
pub fn by_depth<T>(nodes: &mut Vec<(T, u32)>)
    ensures
        drawing_order(old(nodes)@, final(nodes)@),
{
    let ghost start = nodes@;
    let ghost len = start.len() as int;
    let ghost mut order: Seq<int> = Seq::new(start.len(), |i: int| i);
    assert(nodes@ =~= reordered(start, order));
    let mut done: usize = 0;
    while done < nodes.len()
        invariant
            done <= nodes.len() == len,
            len == start.len(),
            is_order(order, len),
            nodes@ == reordered(start, order),
            forall|i: int| done <= i < len ==> order[i] == i,
            forall|i: int| 0 <= i < done ==> 0 <= #[trigger] order[i] < done,
            all_ranked(start) ==> nearest_first(start, order.take(done as int)),
            already_ordered(start) ==> nodes@ == start,
        decreases nodes.len() - done,
    {
        let mut at: usize = done;
        assert(order[done as int] == done);
        while at > 0 && nearer(nodes[done].1, nodes[at - 1].1)
            invariant
                at <= done < nodes.len() == len,
                len == start.len(),
                is_order(order, len),
                nodes@ == reordered(start, order),
                order[done as int] == done,
                forall|i: int|
                    at <= i < done ==> is_nearer(start[done as int].1, start[#[trigger] order[i]].1),
            decreases at,
        {
            assert(nodes@[at - 1] == start[order[at - 1]]);
            assert(nodes@[done as int] == start[order[done as int]]);
            at = at - 1;
        }
        let ghost moved = order.remove(done as int).insert(at as int, order[done as int]);
        proof {
            moving_one_is_an_order(order, done as int, at as int, len);
            assert(at > 0 ==> nodes@[at - 1] == start[order[at - 1]]);
            assert(nodes@[done as int] == start[done as int]);
        }
        let ghost before = nodes@;
        if at < done {
            proof {
                assert(is_nearer(start[done as int].1, start[order[at as int]].1));
                if already_ordered(start) {
                    assert(0 <= order[at as int] < done);
                    assert(!is_nearer(start[done as int].1, start[order[at as int]].1));
                }
            }
            let node = nodes.remove(done);
            nodes.insert(at, node);
            assert(nodes@ =~= reordered(start, moved));
        } else {
            assert(moved =~= order);
        }
        proof {
            if all_ranked(start) {
                one_more_is_in_order(start, order, moved, done as int, at as int);
            }
            assert forall|i: int| 0 <= i < done + 1 implies 0 <= #[trigger] moved[i] < done + 1 by {
                if i < at {
                    assert(moved[i] == order[i]);
                } else if i > at {
                    assert(moved[i] == order[i - 1]);
                }
            }
            order = moved;
        }
        done = done + 1;
    }
    proof {
        assert(order.take(len) =~= order);
        assert(nodes@ == reordered(start, order));
    }
}

proof fn one_more_is_in_order<T>(
    nodes: Seq<(T, u32)>,
    order: Seq<int>,
    moved: Seq<int>,
    done: int,
    at: int,
)
    requires
        all_ranked(nodes),
        is_order(order, nodes.len() as int),
        0 <= at <= done < nodes.len(),
        moved == order.remove(done).insert(at, order[done]),
        order[done] == done,
        forall|i: int| 0 <= i < done ==> 0 <= #[trigger] order[i] < done,
        nearest_first(nodes, order.take(done)),
        forall|i: int| at <= i < done ==> is_nearer(nodes[done].1, nodes[#[trigger] order[i]].1),
        at > 0 ==> !is_nearer(nodes[done].1, nodes[order[at - 1]].1),
    ensures
        nearest_first(nodes, moved.take(done + 1)),
{
    let before = order.take(done);
    let after = moved.take(done + 1);
    assert forall|i: int| 0 <= i < done implies before[i] == order[i] by {}
    assert forall|i: int, j: int| 0 <= i < j < after.len() implies {
        ||| is_nearer(nodes[#[trigger] after[i]].1, nodes[#[trigger] after[j]].1)
        ||| !is_nearer(nodes[after[j]].1, nodes[after[i]].1) && after[i] < after[j]
    } by {
        if j < at {
            assert(after[i] == before[i] && after[j] == before[j]);
        } else if j == at {
            assert(after[i] == before[i]);
            assert(after[j] == done);
            assert(0 <= order[i] < done);
            if i < at - 1 {
                assert(before[at - 1] == order[at - 1]);
                assert(rank(nodes[before[i]].1) is Some);
                assert(rank(nodes[before[at - 1]].1) is Some);
            }
        } else if i == at {
            assert(after[j] == order[j - 1]);
            assert(after[i] == done);
        } else if i < at {
            assert(after[i] == before[i] && after[j] == before[j - 1]);
        } else {
            assert(after[i] == before[i - 1] && after[j] == before[j - 1]);
        }
    }
}

/// An order leaves no node out.
proof fn every_node_has_a_place(order: Seq<int>, len: int, node: int) -> (at: int)
    requires
        is_order(order, len),
        0 <= node < len,
    ensures
        0 <= at < len,
        order[at] == node,
{
    assert(order.no_duplicates()) by {
        assert forall|i: int, j: int|
            0 <= i < order.len() && 0 <= j < order.len() && i != j implies order[i] != order[j] by {
            if i < j {
                assert(order[i] != order[j]);
            } else {
                assert(order[j] != order[i]);
            }
        }
    }
    order.unique_seq_to_set();
    lemma_int_range(0, len);
    assert(order.to_set().subset_of(set_int_range(0, len))) by {
        assert forall|n: int| order.to_set().contains(n) implies set_int_range(0, len).contains(
            n,
        ) by {
            let i = choose|i: int| 0 <= i < order.len() && order[i] == n;
            assert(0 <= order[i] < len);
        }
    }
    lemma_subset_equality(order.to_set(), set_int_range(0, len));
    assert(order.to_set().contains(node));
    choose|i: int| 0 <= i < order.len() && order[i] == node
}

proof fn one_order<T>(nodes: Seq<(T, u32)>, one: Seq<int>, other: Seq<int>, k: int)
    requires
        all_ranked(nodes),
        is_order(one, nodes.len() as int),
        is_order(other, nodes.len() as int),
        nearest_first(nodes, one),
        nearest_first(nodes, other),
        0 <= k <= nodes.len(),
    ensures
        forall|i: int| 0 <= i < k ==> one[i] == other[i],
    decreases k,
{
    if k > 0 {
        one_order(nodes, one, other, k - 1);
        let len = nodes.len() as int;
        let a = one[k - 1];
        let b = other[k - 1];
        if a != b {
            let of_a = every_node_has_a_place(other, len, a);
            let of_b = every_node_has_a_place(one, len, b);
            assert(of_a > k - 1) by {
                if of_a < k - 1 {
                    assert(one[of_a] == other[of_a]);
                }
            }
            assert(of_b > k - 1) by {
                if of_b < k - 1 {
                    assert(one[of_b] == other[of_b]);
                }
            }
            assert(one[k - 1] == a && one[of_b] == b);
            assert(other[k - 1] == b && other[of_a] == a);
        }
    }
}

/// Depths that are numbers leave one order to draw in.
pub proof fn one_drawing_order<T>(
    nodes: Seq<(T, u32)>,
    one: Seq<(T, u32)>,
    other: Seq<(T, u32)>,
)
    requires
        all_ranked(nodes),
        drawing_order(nodes, one),
        drawing_order(nodes, other),
    ensures
        one == other,
{
    let a = choose|order: Seq<int>|
        {
            &&& is_order(order, nodes.len() as int)
            &&& one == #[trigger] reordered(nodes, order)
            &&& all_ranked(nodes) ==> nearest_first(nodes, order)
        };
    let b = choose|order: Seq<int>|
        {
            &&& is_order(order, nodes.len() as int)
            &&& other == #[trigger] reordered(nodes, order)
            &&& all_ranked(nodes) ==> nearest_first(nodes, order)
        };
    one_order(nodes, a, b, nodes.len() as int);
    assert(a =~= b);
}

/// No window covers a nearer one: where depths are numbers, what is drawn
/// before another is not further away than it.
pub proof fn nothing_covers_a_nearer_window<T>(
    nodes: Seq<(T, u32)>,
    drawn: Seq<(T, u32)>,
    i: int,
    j: int,
)
    requires
        all_ranked(nodes),
        drawing_order(nodes, drawn),
        0 <= i < j < drawn.len(),
    ensures
        !is_nearer(drawn[j].1, drawn[i].1),
{
    let order = choose|order: Seq<int>|
        {
            &&& is_order(order, nodes.len() as int)
            &&& drawn == #[trigger] reordered(nodes, order)
            &&& all_ranked(nodes) ==> nearest_first(nodes, order)
        };
    assert(drawn[i] == nodes[order[i]]);
    assert(drawn[j] == nodes[order[j]]);
}

/// Where every depth is the same, or is not a number, nothing moves.
pub proof fn equal_depths_keep_the_order<T>(nodes: Seq<(T, u32)>)
    requires
        forall|i: int, j: int|
            0 <= i < nodes.len() && 0 <= j < nodes.len() && rank((#[trigger] nodes[i]).1) is Some
                && rank((#[trigger] nodes[j]).1) is Some ==> rank(nodes[i].1) == rank(nodes[j].1),
    ensures
        already_ordered(nodes),
{
}

/// Depths compare as the numbers that their bits are: those above zero grow with
/// their bits, those below zero the other way, every one above zero is nearer
/// than every one below it, the two zeros are as near, and what is not a number
/// compares with nothing.
pub proof fn how_depths_compare(one: u32, other: u32)
    ensures
        one <= 0x7f80_0000 && other <= 0x7f80_0000 ==> is_nearer(one, other) == (one > other),
        0x8000_0000 <= one <= 0xff80_0000 && 0x8000_0000 <= other <= 0xff80_0000 ==> is_nearer(
            one,
            other,
        ) == (one < other),
        one <= 0x7f80_0000 && 0x8000_0000 <= other <= 0xff80_0000 ==> {
            &&& is_nearer(one, other) == !(one == 0 && other == 0x8000_0000)
            &&& !is_nearer(other, one)
        },
        0x7f80_0000 < one < 0x8000_0000 || one > 0xff80_0000 ==> {
            &&& !is_nearer(one, other)
            &&& !is_nearer(other, one)
        },
        rank(one) is Some <==> one <= 0x7f80_0000 || 0x8000_0000 <= one <= 0xff80_0000,
{
}

/// Ordering for drawing loses no node and draws none twice, and of two that are
/// as near as each other, the one that came first stays first.
pub proof fn every_node_is_drawn_once<T>(before: Seq<(T, u32)>, after: Seq<(T, u32)>)
    requires
        drawing_order(before, after),
    ensures
        after.len() == before.len(),
        forall|i: int| 0 <= i < before.len() ==> after.contains(#[trigger] before[i]),
        exists|from: Seq<int>|
            {
                &&& from.len() == before.len()
                &&& forall|i: int|
                    0 <= i < from.len() ==> 0 <= #[trigger] from[i] < before.len() && after[i]
                        == before[from[i]]
                &&& forall|i: int, j: int|
                    0 <= i < j < from.len() ==> #[trigger] from[i] != #[trigger] from[j]
                &&& all_ranked(before) ==> forall|i: int, j: int|
                    0 <= i < j < from.len() && before[#[trigger] from[i]].1
                        == before[#[trigger] from[j]].1 ==> from[i] < from[j]
            },
{
    let order = choose|order: Seq<int>|
        {
            &&& is_order(order, before.len() as int)
            &&& after == #[trigger] reordered(before, order)
            &&& all_ranked(before) ==> nearest_first(before, order)
        };
    assert forall|i: int| 0 <= i < before.len() implies after.contains(#[trigger] before[i]) by {
        let at = every_node_has_a_place(order, before.len() as int, i);
        assert(after[at] == before[i]);
    }
    assert forall|i: int| 0 <= i < order.len() implies 0 <= #[trigger] order[i] < before.len()
        && after[i] == before[order[i]] by {}
}

/// Nodes are in order where none is nearer than one before it, and then nothing
/// moves, whatever depths they have.
pub proof fn nodes_in_order_stay<T>(before: Seq<(T, u32)>, after: Seq<(T, u32)>)
    requires
        drawing_order(before, after),
        forall|i: int, j: int|
            0 <= i < j < before.len() ==> !is_nearer(
                (#[trigger] before[j]).1,
                (#[trigger] before[i]).1,
            ),
    ensures
        after == before,
{
}

} // verus!
