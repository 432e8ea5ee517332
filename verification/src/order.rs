//! Bringing the edits into program order without disturbing the order of
//! the edits that share a point.

use crate::model::Edit;
use crate::model::ProgPoint;
use vstd::prelude::*;

verus! {

/// The edits stand in program order.
pub open spec fn sorted_by_point(edits: Seq<(ProgPoint, Edit)>) -> bool {
    forall|i: int, j: int| 0 <= i < j < edits.len() ==> edits[i].0.rank() <= edits[j].0.rank()
}

/// The edits that are placed at `point`.
pub open spec fn at_point(point: ProgPoint) -> spec_fn((ProgPoint, Edit)) -> bool {
    |entry: (ProgPoint, Edit)| entry.0 == point
}

/// At every point, `a` holds the same edits as `b`, in the same order.
pub open spec fn same_order_at_points(a: Seq<(ProgPoint, Edit)>, b: Seq<(ProgPoint, Edit)>) -> bool {
    forall|point: ProgPoint| #[trigger] a.filter(at_point(point)) == b.filter(at_point(point))
}

/// A sequence none of whose items is at `point` has no edits there.
proof fn lemma_none_at_point(edits: Seq<(ProgPoint, Edit)>, point: ProgPoint)
    requires
        forall|j: int| 0 <= j < edits.len() ==> edits[j].0 != point,
    ensures
        edits.filter(at_point(point)) == Seq::<(ProgPoint, Edit)>::empty(),
{
    let found = edits.filter(at_point(point));
    if found.len() > 0 {
        edits.lemma_filter_pred(at_point(point), 0);
        assert(found.contains(found[0]));
        edits.lemma_filter_contains_rev(at_point(point), found[0]);
        let j = choose|j: int| 0 <= j < edits.len() && edits[j] == found[0];
        assert(edits[j].0 != point);
    }
    assert(found =~= Seq::<(ProgPoint, Edit)>::empty());
}

/// An edit put in front of the edits of later points joins the edits of
/// its own point at their end, and leaves the other points alone.
proof fn lemma_insert_at_point(
    edits: Seq<(ProgPoint, Edit)>,
    at: int,
    entry: (ProgPoint, Edit),
    point: ProgPoint,
)
    requires
        0 <= at <= edits.len(),
        forall|j: int| at <= j < edits.len() ==> edits[j].0.rank() > entry.0.rank(),
    ensures
        edits.insert(at, entry).filter(at_point(point)) == if entry.0 == point {
            edits.filter(at_point(point)).push(entry)
        } else {
            edits.filter(at_point(point))
        },
{
    let pred = at_point(point);
    let head = edits.subrange(0, at);
    let tail = edits.subrange(at, edits.len() as int);
    assert(edits =~= head + tail);
    assert(edits.insert(at, entry) =~= head.push(entry) + tail);
    Seq::filter_distributes_over_add(head, tail, pred);
    Seq::filter_distributes_over_add(head.push(entry), tail, pred);
    head.lemma_filter_push(entry, pred);
    if entry.0 == point {
        assert forall|j: int| 0 <= j < tail.len() implies tail[j].0 != point by {
            assert(tail[j] == edits[at + j]);
        }
        lemma_none_at_point(tail, point);
        assert(head.filter(pred).push(entry) + Seq::<(ProgPoint, Edit)>::empty() =~= head.filter(
            pred,
        ).push(entry));
        assert(head.filter(pred) + Seq::<(ProgPoint, Edit)>::empty() =~= head.filter(pred));
    }
}

/// The edits in program order. Edits that share a point keep the order
/// in which they were given.
pub fn sort_edits(edits: Vec<(ProgPoint, Edit)>) -> (sorted: Vec<(ProgPoint, Edit)>)
    ensures
        sorted_by_point(sorted@),
        same_order_at_points(sorted@, edits@),
        sorted@.len() == edits@.len(),
{
    let mut sorted: Vec<(ProgPoint, Edit)> = Vec::new();
    let mut i: usize = 0;
    proof {
        assert(edits@.take(0) =~= sorted@);
    }
    while i < edits.len()
        invariant
            i <= edits@.len(),
            sorted@.len() == i,
            sorted_by_point(sorted@),
            same_order_at_points(sorted@, edits@.take(i as int)),
        decreases edits@.len() - i,
    {
        let entry = edits[i];
        let ghost before = sorted@;
        let mut at: usize = sorted.len();
        while at > 0 && !sorted[at - 1].0.precedes_or_equals(&entry.0)
            invariant
                at <= sorted@.len(),
                sorted@ == before,
                forall|j: int| at <= j < sorted@.len() ==> sorted@[j].0.rank() > entry.0.rank(),
            decreases at,
        {
            at -= 1;
        }
        sorted.insert(at, entry);
        proof {
            before.insert_ensures(at as int, entry);
            assert(sorted_by_point(sorted@)) by {
                assert forall|a: int, b: int| 0 <= a < b < sorted@.len() implies sorted@[a].0.rank()
                    <= sorted@[b].0.rank() by {
                    if b < at {
                    } else if b == at {
                        if a < at - 1 {
                            assert(before[a].0.rank() <= before[at - 1].0.rank());
                        }
                    } else if a < at {
                        assert(sorted@[b] == before[b - 1]);
                        assert(before[a].0.rank() <= before[b - 1].0.rank());
                    } else if a == at {
                        assert(sorted@[b] == before[b - 1]);
                    } else {
                        assert(sorted@[a] == before[a - 1]);
                        assert(sorted@[b] == before[b - 1]);
                    }
                }
            }
            assert(edits@.take(i + 1) == edits@.take(i as int).push(entry));
            assert forall|point: ProgPoint| #[trigger]
                sorted@.filter(at_point(point)) == edits@.take(i + 1).filter(at_point(point)) by {
                lemma_insert_at_point(before, at as int, entry, point);
                edits@.take(i as int).lemma_filter_push(entry, at_point(point));
                assert(before.filter(at_point(point)) == edits@.take(i as int).filter(
                    at_point(point),
                ));
            }
        }
        i += 1;
    }
    assert(edits@.take(edits@.len() as int) == edits@);
    sorted
}

} // verus!
