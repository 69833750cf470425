use vstd::prelude::*;

verus! {

/// The edge between two projected vertices, present only when both were seen.
pub open spec fn edge_if_seen<P>(a: Option<P>, b: Option<P>) -> Seq<(P, P)> {
    match (a, b) {
        (Some(x), Some(y)) => seq![(x, y)],
        _ => Seq::empty(),
    }
}

/// The edges of a triangle to draw, given what became of each of its three
/// vertices when projected: second to third, second to first, third to first,
/// each kept only where both of its ends are visible.
pub open spec fn edges_to_draw<P>(first: Option<P>, second: Option<P>, third: Option<P>) -> Seq<(P, P)> {
    edge_if_seen(second, third) + edge_if_seen(second, first) + edge_if_seen(third, first)
}

fn push_if_seen<P: Copy>(r: &mut Vec<(P, P)>, a: Option<P>, b: Option<P>)
    ensures
        final(r)@ == old(r)@ + edge_if_seen(a, b),
{
    match (a, b) {
        (Some(x), Some(y)) => {
            r.push((x, y));
            assert(r@ =~= old(r)@ + edge_if_seen(a, b));
        },
        _ => {
            assert(old(r)@ =~= old(r)@ + edge_if_seen(a, b));
        },
    }
}

/// The line segments to draw for one triangle whose vertices projected to
/// `first`, `second` and `third` (`None` where a vertex is not visible).
pub fn visible_edges<P: Copy>(first: Option<P>, second: Option<P>, third: Option<P>) -> (r: Vec<(P, P)>)
    ensures
        r@ == edges_to_draw(first, second, third),
{
    let mut r: Vec<(P, P)> = Vec::new();
    push_if_seen(&mut r, second, third);
    push_if_seen(&mut r, second, first);
    push_if_seen(&mut r, third, first);
    assert(r@ =~= edges_to_draw(first, second, third));
    r
}

} // verus!
