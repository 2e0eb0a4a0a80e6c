//! What the links do to the records.

use vstd::prelude::*;
use crate::body::Body;
use crate::layout::{
    body_link, coedge_id, coedge_link, coedges_at, coedges_known, edge_links, end_at, face_links,
    faces_known, leading_stops_at_the_first, linked, links_to_edges, links_to_faces, links_to_loops,
    loop_holds, loop_link, loop_links, loops_at, loops_known, lump_links, pcurve_of, ring_links,
    shell_links, shells_known, stopped_while_linking, vertex_links, with_link, Link,
};
use crate::shape::{coedges_in_range, pcurves_increase};
use crate::token::RecordView;

verus! {

/// Whether every link is of a record from `low` up to `high`.
pub open spec fn within(links: Seq<Link>, low: int, high: int) -> bool {
    forall|j: int| 0 <= j < links.len() ==> low <= (#[trigger] links[j]).id < high
}

/// A record with other tokens.
pub open spec fn retold(record: RecordView, link: Link) -> RecordView {
    RecordView { tokens: link.tokens, ..record }
}

/// Links change tokens, of the records they are of, and nothing else.
pub proof fn links_change_tokens_only(records: Seq<RecordView>, links: Seq<Link>)
    requires
        within(links, 0, records.len() as int),
    ensures
        linked(records, links).len() == records.len(),
        forall|i: int|
            0 <= i < records.len() ==> #[trigger] linked(records, links)[i] == (RecordView {
                tokens: linked(records, links)[i].tokens,
                ..records[i]
            }),
        forall|i: int|
            0 <= i < records.len() && (forall|j: int|
                0 <= j < links.len() ==> (#[trigger] links[j]).id != i) ==> #[trigger] linked(
                records,
                links,
            )[i] == records[i],
    decreases links.len(),
{
    if links.len() > 0 {
        let fewer = links.drop_last();
        assert forall|j: int| 0 <= j < fewer.len() implies 0 <= (#[trigger] fewer[j]).id
            < records.len() by {
            assert(fewer[j] == links[j]);
        }
        links_change_tokens_only(records, fewer);
        let last = links[links.len() - 1];
        assert(0 <= last.id < records.len());
        assert forall|i: int|
            0 <= i < records.len() && (forall|j: int|
                0 <= j < links.len() ==> (#[trigger] links[j]).id != i) implies #[trigger] linked(
            records,
            links,
        )[i] == records[i] by {
            assert forall|j: int| 0 <= j < fewer.len() implies (#[trigger] fewer[j]).id != i by {
                assert(fewer[j] == links[j]);
            }
            assert(links[links.len() - 1].id != i);
        }
    }
}

/// A record has the tokens of the last link that is of it.
pub proof fn the_last_link_counts(records: Seq<RecordView>, links: Seq<Link>, j: int)
    requires
        within(links, 0, records.len() as int),
        0 <= j < links.len(),
        forall|k: int| j < k < links.len() ==> (#[trigger] links[k]).id != links[j].id,
    ensures
        linked(records, links)[links[j].id] == retold(records[links[j].id], links[j]),
    decreases links.len(),
{
    let fewer = links.drop_last();
    assert forall|i: int| 0 <= i < fewer.len() implies 0 <= (#[trigger] fewer[i]).id
        < records.len() by {
        assert(fewer[i] == links[i]);
    }
    links_change_tokens_only(records, fewer);
    assert(0 <= links[j].id < records.len());
    let last = links[links.len() - 1];
    if j < links.len() - 1 {
        assert(last.id != links[j].id);
        assert forall|k: int| j < k < fewer.len() implies (#[trigger] fewer[k]).id
            != fewer[j].id by {
            assert(fewer[k] == links[k]);
        }
        the_last_link_counts(records, fewer, j);
    }
}

/// Links can be made in two goes.
pub proof fn links_in_two_goes(records: Seq<RecordView>, first: Seq<Link>, second: Seq<Link>)
    ensures
        linked(records, first + second) == linked(linked(records, first), second),
    decreases second.len(),
{
    if second.len() == 0 {
        assert(first + second =~= first);
    } else {
        assert((first + second).drop_last() =~= first + second.drop_last());
        assert((first + second).last() == second.last());
        links_in_two_goes(records, first, second.drop_last());
    }
}

/// What links of a row of records, each of another one, do: each record gets
/// its tokens, and the others stay as they are.
pub open spec fn row_linked(
    records: Seq<RecordView>,
    after: Seq<RecordView>,
    links: Seq<Link>,
    low: int,
    high: int,
) -> bool {
    &&& after.len() == records.len()
    &&& forall|j: int|
        0 <= j < links.len() ==> after[(#[trigger] links[j]).id] == retold(
            records[links[j].id],
            links[j],
        )
    &&& forall|i: int|
        0 <= i < records.len() && !(low <= i < high) ==> #[trigger] after[i] == records[i]
}

/// Links of a row of records, each of another one.
pub proof fn links_of_a_row(records: Seq<RecordView>, links: Seq<Link>, low: int, high: int)
    requires
        0 <= low <= high <= records.len(),
        within(links, low, high),
        forall|j: int, k: int|
            0 <= j < k < links.len() ==> (#[trigger] links[j]).id != (#[trigger] links[k]).id,
    ensures
        row_linked(records, linked(records, links), links, low, high),
{
    assert(within(links, 0, records.len() as int));
    links_change_tokens_only(records, links);
    assert forall|j: int| 0 <= j < links.len() implies linked(records, links)[(
    #[trigger] links[j]).id] == retold(records[links[j].id], links[j]) by {
        assert forall|k: int| j < k < links.len() implies (#[trigger] links[k]).id
            != links[j].id by {
            assert(links[j].id != links[k].id);
        }
        the_last_link_counts(records, links, j);
    }
    assert forall|i: int| 0 <= i < records.len() && !(low <= i < high) implies #[trigger] linked(
        records,
        links,
    )[i] == records[i] by {
        assert forall|j: int| 0 <= j < links.len() implies (#[trigger] links[j]).id != i by {
            assert(low <= links[j].id < high);
        }
    }
}

/// Whether no coedge stands at two places of loops.
pub open spec fn rings_are_apart(body: Body) -> bool {
    forall|l: int, o: int, m: int, p: int|
        #![trigger body.loops@[l].coedges@[o], body.loops@[m].coedges@[p]]
        0 <= l < body.loops@.len() && 0 <= o < body.loops@[l].coedges@.len() && 0 <= m
            < body.loops@.len() && 0 <= p < body.loops@[m].coedges@.len()
            && body.loops@[l].coedges@[o] == body.loops@[m].coedges@[p] ==> l == m && o == p
}

/// Whether a place of a loop is the last one, in the first `n` loops, that names
/// its coedge.
pub open spec fn is_last_place(body: Body, l: int, o: int, n: int) -> bool {
    forall|m: int, p: int|
        #![trigger body.loops@[m].coedges@[p]]
        l <= m < n && 0 <= p < body.loops@[m].coedges@.len() && (l < m || o < p)
            ==> body.loops@[m].coedges@[p] != body.loops@[l].coedges@[o]
}

/// Whether none of the first `n` loops names a coedge.
pub open spec fn is_in_no_loop(body: Body, c: int, n: int) -> bool {
    forall|m: int, p: int|
        #![trigger body.loops@[m].coedges@[p]]
        0 <= m < n && 0 <= p < body.loops@[m].coedges@.len() ==> body.loops@[m].coedges@[p] != c
}

/// What making the links of the first `n` loops does. A coedge that is named
/// more than once keeps what its last place gave it.
pub open spec fn loops_linked(
    body: Body,
    base: int,
    records: Seq<RecordView>,
    after: Seq<RecordView>,
    n: int,
) -> bool {
    &&& after.len() == records.len()
    &&& forall|i: int|
        0 <= i < coedges_at(body, base) || loops_at(body, base) + n <= i < records.len()
            ==> #[trigger] after[i] == records[i]
    &&& forall|i: int|
        0 <= i < records.len() ==> (#[trigger] after[i]) == (RecordView {
            tokens: after[i].tokens,
            ..records[i]
        })
    &&& forall|c: int|
        #![trigger pcurve_of(body, c)]
        0 <= c < body.coedges@.len() && pcurve_of(body, c) is Some ==> after[coedge_id(
            body,
            base,
            c,
        ) - 1] == records[coedge_id(body, base, c) - 1]
    &&& forall|l: int|
        0 <= l < n ==> after[(#[trigger] loop_link(body, base, l)).id] == retold(
            records[loop_link(body, base, l).id],
            loop_link(body, base, l),
        )
    &&& forall|c: int|
        0 <= c < body.coedges@.len() && is_in_no_loop(body, c, n) ==> after[(
        #[trigger] coedge_id(body, base, c))] == records[coedge_id(body, base, c)]
    &&& forall|l: int, o: int|
        0 <= l < n && 0 <= o < body.loops@[l].coedges@.len() && is_last_place(body, l, o, n)
            ==> after[(#[trigger] coedge_link(body, base, l, o)).id] == retold(
            records[coedge_link(body, base, l, o).id],
            coedge_link(body, base, l, o),
        )
}

/// Whichever of two coedges comes first, their indices differ.
pub proof fn coedge_ids_are_apart(body: Body, base: int, c: int, d: int)
    requires
        0 <= c,
        0 <= d,
        c != d,
    ensures
        coedge_id(body, base, c) != coedge_id(body, base, d),
{
    if c < d {
        coedge_ids_differ(body, base, c, d);
    } else {
        coedge_ids_differ(body, base, d, c);
    }
}

/// The indices of coedges grow with their keys.
pub proof fn coedge_ids_differ(body: Body, base: int, c: int, d: int)
    requires
        0 <= c < d,
    ensures
        coedge_id(body, base, c) < coedge_id(body, base, d),
{
    pcurves_increase(body, c + 1, d + 1);
}

/// No coedge stands where the curve of a coedge stands.
pub proof fn curves_stand_apart(body: Body, base: int, c: int, d: int)
    requires
        0 <= c,
        0 <= d,
        pcurve_of(body, c) is Some,
    ensures
        coedge_id(body, base, d) != coedge_id(body, base, c) - 1,
{
    if d < c {
        pcurves_increase(body, d + 1, c);
    } else if c < d {
        coedge_ids_differ(body, base, c, d);
    }
}

/// The links of coedges around a loop are of coedges.
pub proof fn ring_stays_within(body: Body, base: int, l: int, n: nat)
    requires
        0 <= base,
        0 <= l < body.loops@.len(),
        n <= body.loops@[l].coedges@.len(),
        forall|o: int| 0 <= o < n ==> (#[trigger] body.loops@[l].coedges@[o]) < body.coedges@.len(),
    ensures
        within(ring_links(body, base, l, n), coedges_at(body, base), loops_at(body, base)),
{
    coedges_in_range(body, base);
    let links = ring_links(body, base, l, n);
    assert forall|j: int| 0 <= j < links.len() implies coedges_at(body, base)
        <= (#[trigger] links[j]).id < loops_at(body, base) by {
        assert(body.loops@[l].coedges@[j] < body.coedges@.len());
        assert(coedge_id(body, base, body.loops@[l].coedges@[j] as int) < loops_at(body, base));
    }
}

/// The links of the first `n` loops.
pub proof fn links_of_loops(body: Body, base: int, records: Seq<RecordView>, n: int)
    requires
        0 <= base,
        0 <= n <= body.loops@.len(),
        records.len() == end_at(body, base),
        forall|l: int, o: int|
            #![trigger body.loops@[l].coedges@[o]]
            0 <= l < n && 0 <= o < body.loops@[l].coedges@.len() ==> body.loops@[l].coedges@[o]
                < body.coedges@.len(),
    ensures
        loops_linked(body, base, records, linked(records, loop_links(body, base, n)), n),
    decreases n,
{
    if n > 0 {
        let l = n - 1;
        let ring = body.loops@[l].coedges@;
        let earlier = loop_links(body, base, l);
        let rings = ring_links(body, base, l, ring.len());
        let own = loop_link(body, base, l);
        links_of_loops(body, base, records, l);
        let first = linked(records, earlier);
        links_in_two_goes(records, earlier, rings);
        let second = linked(first, rings);
        let third = linked(records, loop_links(body, base, n));
        assert(loop_links(body, base, n).drop_last() =~= earlier + rings);
        assert(third == with_link(second, own));
        assert forall|o: int| 0 <= o < ring.len() implies (
        #[trigger] body.loops@[l].coedges@[o]) < body.coedges@.len() by {}
        ring_stays_within(body, base, l, ring.len());
        coedges_in_range(body, base);
        assert(within(rings, 0, first.len() as int)) by {
            assert forall|j: int| 0 <= j < rings.len() implies 0 <= (#[trigger] rings[j]).id
                < first.len() by {
                assert(coedges_at(body, base) <= rings[j].id < loops_at(body, base));
            }
        }
        links_change_tokens_only(first, rings);
        assert forall|i: int|
            0 <= i < coedges_at(body, base) || loops_at(body, base)
                <= i < records.len() implies #[trigger] second[i] == first[i] by {
            assert forall|j: int| 0 <= j < rings.len() implies (#[trigger] rings[j]).id != i by {
                assert(coedges_at(body, base) <= rings[j].id < loops_at(body, base));
            }
        }
        assert forall|c: int|
            #![trigger pcurve_of(body, c)]
            0 <= c < body.coedges@.len() && pcurve_of(body, c) is Some implies third[coedge_id(
            body,
            base,
            c,
        ) - 1] == records[coedge_id(body, base, c) - 1] by {
            let id = coedge_id(body, base, c) - 1;
            assert(coedges_at(body, base) < coedge_id(body, base, c) < loops_at(body, base));
            assert forall|j: int| 0 <= j < rings.len() implies (#[trigger] rings[j]).id != id by {
                let other = body.loops@[l].coedges@[j];
                assert(other < body.coedges@.len());
                curves_stand_apart(body, base, c, other as int);
            }
            assert(second[id] == first[id]);
        }
        assert forall|m: int| 0 <= m < n implies third[(#[trigger] loop_link(body, base, m)).id]
            == retold(records[loop_link(body, base, m).id], loop_link(body, base, m)) by {
            let id = loops_at(body, base) + m;
            assert(second[id] == first[id]);
            if m < l {
                assert(first[loop_link(body, base, m).id] == retold(
                    records[id],
                    loop_link(body, base, m),
                ));
            }
        }
        assert forall|c: int|
            0 <= c < body.coedges@.len() && is_in_no_loop(body, c, n) implies third[(
        #[trigger] coedge_id(body, base, c))] == records[coedge_id(body, base, c)] by {
            let id = coedge_id(body, base, c);
            assert(is_in_no_loop(body, c, l));
            assert forall|j: int| 0 <= j < rings.len() implies (#[trigger] rings[j]).id != id by {
                let other = body.loops@[l].coedges@[j];
                assert(other < body.coedges@.len() && other != c);
                coedge_ids_are_apart(body, base, other as int, c);
            }
            assert(second[id] == first[id]);
        }
        assert forall|m: int, o: int|
            0 <= m < n && 0 <= o < body.loops@[m].coedges@.len() && is_last_place(
                body,
                m,
                o,
                n,
            ) implies third[(#[trigger] coedge_link(body, base, m, o)).id] == retold(
            records[coedge_link(body, base, m, o).id],
            coedge_link(body, base, m, o),
        ) by {
            let link = coedge_link(body, base, m, o);
            let key = body.loops@[m].coedges@[o];
            assert(key < body.coedges@.len());
            assert(coedge_id(body, base, key as int) < loops_at(body, base));
            assert(third[link.id] == second[link.id]);
            assert forall|j: int| 0 <= j < rings.len() && (m < l || j > o) implies (
            #[trigger] rings[j]).id != link.id by {
                let other = body.loops@[l].coedges@[j];
                assert(other < body.coedges@.len() && other != key);
                coedge_ids_are_apart(body, base, other as int, key as int);
            }
            if m < l {
                assert(is_last_place(body, m, o, l));
                assert(second[link.id] == first[link.id]);
            } else {
                assert(rings[o] == link);
                the_last_link_counts(first, rings, o);
                assert(first[link.id] == (RecordView {
                    tokens: first[link.id].tokens,
                    ..records[link.id]
                }));
            }
        }
    }
}

/// Two lists of links that stay within bounds do so together.
pub proof fn both_stay_within(first: Seq<Link>, second: Seq<Link>, low: int, high: int)
    requires
        within(first, low, high),
        within(second, low, high),
    ensures
        within(first + second, low, high),
{
    let both = first + second;
    assert forall|j: int| 0 <= j < both.len() implies low <= (#[trigger] both[j]).id < high by {
        if j < first.len() {
            assert(both[j] == first[j]);
        } else {
            assert(both[j] == second[j - first.len()]);
        }
    }
}

/// The links of the first `n` loops are of records of the body.
pub proof fn loops_stay_within(body: Body, base: int, n: int)
    requires
        0 <= base,
        0 <= n <= body.loops@.len(),
        forall|l: int, o: int|
            #![trigger body.loops@[l].coedges@[o]]
            0 <= l < n && 0 <= o < body.loops@[l].coedges@.len() ==> body.loops@[l].coedges@[o]
                < body.coedges@.len(),
    ensures
        within(loop_links(body, base, n), base, end_at(body, base)),
    decreases n,
{
    if n > 0 {
        let l = n - 1;
        let ring = body.loops@[l].coedges@;
        let rings = ring_links(body, base, l, ring.len());
        loops_stay_within(body, base, l);
        assert forall|o: int| 0 <= o < ring.len() implies (
        #[trigger] body.loops@[l].coedges@[o]) < body.coedges@.len() by {}
        ring_stays_within(body, base, l, ring.len());
        coedges_in_range(body, base);
        both_stay_within(loop_links(body, base, l), rings, base, end_at(body, base));
        let own = seq![loop_link(body, base, l)];
        both_stay_within(loop_links(body, base, l) + rings, own, base, end_at(body, base));
        assert(loop_links(body, base, n) =~= loop_links(body, base, l) + rings + own);
    }
}

/// The links of vertices and edges are of records of the body, and so are
/// those of so many faces, shells and lumps.
pub proof fn rows_stay_within(body: Body, base: int, faces: nat, shells: nat)
    requires
        0 <= base,
        faces <= body.faces@.len(),
        shells <= body.shells@.len(),
    ensures
        within(links_to_edges(body, base), base, end_at(body, base)),
        within(face_links(body, base, faces), base, end_at(body, base)),
        within(shell_links(body, base, shells), base, end_at(body, base)),
        within(lump_links(body, base, body.lumps@.len()), base, end_at(body, base)),
        within(seq![body_link(body, base)], base, end_at(body, base)),
{
    coedges_in_range(body, base);
    both_stay_within(
        vertex_links(body, base, body.vertices@.len()),
        edge_links(body, base, body.edges@.len()),
        base,
        end_at(body, base),
    );
}

/// The links that are made before the second pass stops are of records of the
/// body.
pub proof fn stopped_links_stay_within(body: Body, base: int)
    requires
        0 <= base,
        stopped_while_linking(body, base) is Some,
    ensures
        within(stopped_while_linking(body, base).unwrap(), base, end_at(body, base)),
{
    let end = end_at(body, base);
    let known = loops_known(body) as int;
    let holds = |l: int| loop_holds(body, l);
    let face = |f: int| body.faces@[f].owner < body.shells@.len();
    let shell = |s: int| body.shells@[s].owner < body.lumps@.len();
    leading_stops_at_the_first(body.loops@.len(), holds);
    leading_stops_at_the_first(body.faces@.len(), face);
    leading_stops_at_the_first(body.shells@.len(), shell);
    assert forall|l: int, o: int|
        #![trigger body.loops@[l].coedges@[o]]
        0 <= l < known && 0 <= o
            < body.loops@[l].coedges@.len() implies body.loops@[l].coedges@[o]
        < body.coedges@.len() by {
        assert(holds(l));
        let there = |order: int| body.loops@[l].coedges@[order] < body.coedges@.len();
        leading_stops_at_the_first(body.loops@[l].coedges@.len(), there);
        assert(there(o));
    }
    loops_stay_within(body, base, known);
    rows_stay_within(body, base, faces_known(body), shells_known(body));
    rows_stay_within(body, base, body.faces@.len(), shells_known(body));
    both_stay_within(links_to_edges(body, base), loop_links(body, base, known), base, end);
    if known < body.loops@.len() {
        let ring = body.loops@[known].coedges@;
        let there = |order: int| ring[order] < body.coedges@.len();
        leading_stops_at_the_first(ring.len(), there);
        assert forall|o: int| 0 <= o < coedges_known(body, known) implies (
        #[trigger] body.loops@[known].coedges@[o]) < body.coedges@.len() by {
            assert(there(o));
        }
        ring_stays_within(body, base, known, coedges_known(body, known));
        coedges_in_range(body, base);
        both_stay_within(
            links_to_edges(body, base) + loop_links(body, base, known),
            ring_links(body, base, known, coedges_known(body, known)),
            base,
            end,
        );
    } else {
        both_stay_within(
            links_to_loops(body, base),
            face_links(body, base, faces_known(body)),
            base,
            end,
        );
        both_stay_within(
            links_to_loops(body, base),
            face_links(body, base, body.faces@.len()),
            base,
            end,
        );
        both_stay_within(
            links_to_faces(body, base),
            shell_links(body, base, shells_known(body)),
            base,
            end,
        );
    }
}

} // verus!
