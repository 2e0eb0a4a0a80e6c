//! What holds of every body that is written.

use vstd::prelude::*;
use crate::append::{Unappendable, Written};
use crate::body::Body;
use crate::entities::entity;
use crate::layout::{
    all_links, body_at, body_link, coedge_fault, coedge_id, coedge_link, coedges_at,
    coedges_written, curves_at, curves_written, edge_link, edge_links, edges_at, end_at, face_link,
    face_links, face_of, faces_at, faces_known, header_outcome, leading_stops_at_the_first, linked,
    links_to_edges, links_to_faces, links_to_loops, links_to_shells, loop_holds, loop_link,
    loop_links, loops_at, loops_known, lump_link, lump_links, lumps_at, outcome, pcurve_of,
    point_id, shell_link, shell_links, shells_at, shells_known, stopped_while_allocating,
    stopped_while_linking, surface_ref, surfaces_at, surfaces_written, unlinked, vertex_id,
    vertex_link, vertex_links, with_coedges, with_link, Link,
};
use crate::limits::{completes, written_until};
use crate::linking::{
    both_stay_within, is_in_no_loop, is_last_place, links_change_tokens_only, links_in_two_goes,
    links_of_a_row, links_of_loops, loops_stay_within, retold, rows_stay_within,
    stopped_links_stay_within, within,
};
use crate::shape::{
    coedge_stands, coedges_in_range, coedges_stand, curves_stand, grows, intact, records_stand,
    resolves, surfaces_stand,
};
use crate::splines::{curve_entry, pcurve_entry, surface_entry};
use crate::token::{HeaderView, RecordView, TokenView};

verus! {

/// The record of an entity of a kind that has been linked.
pub open spec fn told(kind: Seq<char>, link: Link) -> RecordView {
    retold(entity(link.id, kind, Seq::empty()), link)
}

/// Whether the geometry of a body has its records, each at its index.
pub open spec fn says_geometry(body: Body, before: Seq<RecordView>, all: Seq<RecordView>) -> bool {
    let base = before.len() as int;
    &&& forall|v: int|
        #![trigger point_id(base, v)]
        0 <= v < body.vertices@.len() ==> all[point_id(base, v)] == entity(
            point_id(base, v),
            "point"@,
            seq![TokenView::Position(body.vertices@[v].point)],
        )
    &&& forall|k: int|
        0 <= k < body.curves@.len() ==> Some(all[curves_at(body, base) + k]) == curve_entry(
            #[trigger] body.curves@[k],
            curves_at(body, base) + k,
        )
    &&& forall|k: int|
        0 <= k < body.surfaces@.len() ==> Some(all[surfaces_at(body, base) + k]) == surface_entry(
            #[trigger] body.surfaces@[k],
            surfaces_at(body, base) + k,
        )
    &&& forall|c: int|
        #![trigger pcurve_of(body, c)]
        0 <= c < body.coedges@.len() && pcurve_of(body, c) is Some ==> all[coedge_id(body, base, c)
            - 1] == pcurve_entry(
            pcurve_of(body, c).unwrap(),
            with_coedges(body, before, c),
            surface_ref(body, base, body.faces@[face_of(body, c).unwrap()].surface),
        )
}

/// Whether the topology of a body has its records, each at its index, of its
/// kind and with its pointers.
pub open spec fn says_topology(body: Body, base: int, all: Seq<RecordView>) -> bool {
    &&& forall|v: int|
        #![trigger vertex_link(body, base, v)]
        0 <= v < body.vertices@.len() ==> all[vertex_id(base, v)] == told(
            "vertex"@,
            vertex_link(body, base, v),
        )
    &&& forall|e: int|
        #![trigger edge_link(body, base, e)]
        0 <= e < body.edges@.len() ==> all[edges_at(body, base) + e] == told(
            "edge"@,
            edge_link(body, base, e),
        )
    &&& forall|c: int|
        #![trigger coedge_id(body, base, c)]
        0 <= c < body.coedges@.len() ==> all[coedge_id(body, base, c)].kind == "coedge"@
    &&& forall|c: int|
        #![trigger coedge_id(body, base, c)]
        0 <= c < body.coedges@.len() && is_in_no_loop(body, c, body.loops@.len() as int)
            ==> all[coedge_id(body, base, c)] == entity(
            coedge_id(body, base, c),
            "coedge"@,
            Seq::empty(),
        )
    &&& forall|l: int, o: int|
        #![trigger coedge_link(body, base, l, o)]
        0 <= l < body.loops@.len() && 0 <= o < body.loops@[l].coedges@.len() && is_last_place(
            body,
            l,
            o,
            body.loops@.len() as int,
        ) ==> all[coedge_id(body, base, body.loops@[l].coedges@[o] as int)] == told(
            "coedge"@,
            coedge_link(body, base, l, o),
        )
    &&& forall|l: int|
        #![trigger loop_link(body, base, l)]
        0 <= l < body.loops@.len() ==> all[loops_at(body, base) + l] == told(
            "loop"@,
            loop_link(body, base, l),
        )
    &&& forall|f: int|
        #![trigger face_link(body, base, f)]
        0 <= f < body.faces@.len() ==> all[faces_at(body, base) + f] == told(
            "face"@,
            face_link(body, base, f),
        )
    &&& forall|s: int|
        #![trigger shell_link(body, base, s)]
        0 <= s < body.shells@.len() ==> all[shells_at(body, base) + s] == told(
            "shell"@,
            shell_link(body, base, s),
        )
    &&& forall|l: int|
        #![trigger lump_link(body, base, l)]
        0 <= l < body.lumps@.len() ==> all[lumps_at(body, base) + l] == told(
            "lump"@,
            lump_link(body, base, l),
        )
    &&& all[body_at(body, base)] == told("body"@, body_link(body, base))
}

/// Whether the records of a body say everything about it, behind those that
/// there were before.
pub open spec fn says(body: Body, before: Seq<RecordView>, all: Seq<RecordView>) -> bool {
    &&& all.len() == end_at(body, before.len() as int)
    &&& forall|i: int| 0 <= i < before.len() ==> #[trigger] all[i] == before[i]
    &&& says_geometry(body, before, all)
    &&& says_topology(body, before.len() as int, all)
}

/// Whether nothing is amiss with a body: it was found consistent, its geometry
/// has records, and what its loops, faces and shells refer to is there.
pub open spec fn sound(body: Body) -> bool {
    &&& body.faults@.len() == 0
    &&& forall|k: int|
        0 <= k < body.curves@.len() ==> curve_entry(#[trigger] body.curves@[k], 0) is Some
    &&& forall|k: int|
        0 <= k < body.surfaces@.len() ==> surface_entry(#[trigger] body.surfaces@[k], 0) is Some
    &&& forall|c: int|
        0 <= c < body.coedges@.len() ==> (#[trigger] coedge_fault(body, c)) is None
    &&& forall|l: int, o: int|
        #![trigger body.loops@[l].coedges@[o]]
        0 <= l < body.loops@.len() && 0 <= o < body.loops@[l].coedges@.len()
            ==> body.loops@[l].coedges@[o] < body.coedges@.len()
    &&& forall|l: int|
        0 <= l < body.loops@.len() ==> (#[trigger] body.loops@[l]).owner < body.faces@.len()
    &&& forall|f: int|
        0 <= f < body.faces@.len() ==> (#[trigger] body.faces@[f]).owner < body.shells@.len()
    &&& forall|s: int|
        0 <= s < body.shells@.len() ==> (#[trigger] body.shells@[s]).owner < body.lumps@.len()
}

/// A body is written if and only if nothing is amiss with it, which is where
/// neither pass finds anything wrong.
pub proof fn sound_bodies_are_written(body: Body, before: Seq<RecordView>)
    ensures
        outcome(body, before).result is Ok <==> sound(body),
        sound(body) <==> body.faults@.len() == 0 && completes(body),
{
    let curve = |k: int| curve_entry(body.curves@[k], 0) is Some;
    let surface = |k: int| surface_entry(body.surfaces@[k], 0) is Some;
    let coedge = |c: int| coedge_fault(body, c) is None;
    let ring = |l: int| loop_holds(body, l);
    let face = |f: int| body.faces@[f].owner < body.shells@.len();
    let shell = |s: int| body.shells@[s].owner < body.lumps@.len();
    leading_stops_at_the_first(body.curves@.len(), curve);
    leading_stops_at_the_first(body.surfaces@.len(), surface);
    leading_stops_at_the_first(body.coedges@.len(), coedge);
    leading_stops_at_the_first(body.loops@.len(), ring);
    leading_stops_at_the_first(body.faces@.len(), face);
    leading_stops_at_the_first(body.shells@.len(), shell);
    if outcome(body, before).result is Ok {
        assert(stopped_while_allocating(body, before) is None);
        assert(stopped_while_linking(body, before.len() as int) is None);
        assert forall|k: int| 0 <= k < body.curves@.len() implies curve_entry(
            #[trigger] body.curves@[k],
            0,
        ) is Some by {
            assert(curve(k));
        }
        assert forall|k: int| 0 <= k < body.surfaces@.len() implies surface_entry(
            #[trigger] body.surfaces@[k],
            0,
        ) is Some by {
            assert(surface(k));
        }
        assert forall|c: int| 0 <= c < body.coedges@.len() implies (#[trigger] coedge_fault(
            body,
            c,
        )) is None by {
            assert(coedge(c));
        }
        assert forall|l: int, o: int|
            #![trigger body.loops@[l].coedges@[o]]
            0 <= l < body.loops@.len() && 0 <= o
                < body.loops@[l].coedges@.len() implies body.loops@[l].coedges@[o]
            < body.coedges@.len() by {
            assert(ring(l));
            let known = |order: int| body.loops@[l].coedges@[order] < body.coedges@.len();
            leading_stops_at_the_first(body.loops@[l].coedges@.len(), known);
            assert(known(o));
        }
        assert forall|l: int| 0 <= l < body.loops@.len() implies (#[trigger] body.loops@[l]).owner
            < body.faces@.len() by {
            assert(ring(l));
        }
        assert forall|f: int| 0 <= f < body.faces@.len() implies (#[trigger] body.faces@[f]).owner
            < body.shells@.len() by {
            assert(face(f));
        }
        assert forall|s: int| 0 <= s < body.shells@.len() implies (
        #[trigger] body.shells@[s]).owner < body.lumps@.len() by {
            assert(shell(s));
        }
    }
    if sound(body) {
        let l = loops_known(body) as int;
        if l < body.loops@.len() {
            let known = |order: int| body.loops@[l].coedges@[order] < body.coedges@.len();
            leading_stops_at_the_first(body.loops@[l].coedges@.len(), known);
            assert(!ring(l));
        }
        let k = curves_written(body) as int;
        if k < body.curves@.len() {
            assert(!curve(k));
            assert(curve_entry(body.curves@[k], 0) is Some);
        }
        let k = surfaces_written(body) as int;
        if k < body.surfaces@.len() {
            assert(!surface(k));
            assert(surface_entry(body.surfaces@[k], 0) is Some);
        }
        let c = coedges_written(body) as int;
        if c < body.coedges@.len() {
            assert(!coedge(c));
        }
        let f = faces_known(body) as int;
        if f < body.faces@.len() {
            assert(!face(f));
        }
        let s = shells_known(body) as int;
        if s < body.shells@.len() {
            assert(!shell(s));
        }
    }
}

/// The records in between: with the links of vertices and edges made.
pub proof fn edges_are_told(body: Body, base: int, blank: Seq<RecordView>)
    requires
        0 <= base,
        blank.len() == end_at(body, base),
    ensures
        ({
            let after = linked(blank, links_to_edges(body, base));
            &&& after.len() == blank.len()
            &&& forall|v: int|
                #![trigger vertex_link(body, base, v)]
                0 <= v < body.vertices@.len() ==> after[vertex_id(base, v)] == retold(
                    blank[vertex_id(base, v)],
                    vertex_link(body, base, v),
                )
            &&& forall|v: int|
                #![trigger point_id(base, v)]
                0 <= v < body.vertices@.len() ==> after[point_id(base, v)] == blank[point_id(
                    base,
                    v,
                )]
            &&& forall|e: int|
                #![trigger edge_link(body, base, e)]
                0 <= e < body.edges@.len() ==> after[edges_at(body, base) + e] == retold(
                    blank[edges_at(body, base) + e],
                    edge_link(body, base, e),
                )
            &&& forall|i: int|
                (0 <= i < base || curves_at(body, base) <= i < edges_at(body, base) || coedges_at(
                    body,
                    base,
                ) <= i < blank.len()) ==> #[trigger] after[i] == blank[i]
        }),
{
    let vertices = vertex_links(body, base, body.vertices@.len());
    let edges = edge_links(body, base, body.edges@.len());
    let first = linked(blank, vertices);
    let after = linked(blank, links_to_edges(body, base));
    links_in_two_goes(blank, vertices, edges);
    coedges_in_range(body, base);
    links_of_a_row(blank, vertices, base, curves_at(body, base));
    links_of_a_row(first, edges, edges_at(body, base), coedges_at(body, base));
    links_change_tokens_only(blank, vertices);
    assert forall|v: int|
        #![trigger point_id(base, v)]
        0 <= v < body.vertices@.len() implies after[point_id(base, v)] == blank[point_id(
        base,
        v,
    )] by {
        let id = point_id(base, v);
        assert(first[id] == blank[id]);
    }
    assert forall|v: int|
        #![trigger vertex_link(body, base, v)]
        0 <= v < body.vertices@.len() implies after[vertex_id(base, v)] == retold(
        blank[vertex_id(base, v)],
        vertex_link(body, base, v),
    ) by {
        assert(vertices[v] == vertex_link(body, base, v));
        assert(after[vertex_id(base, v)] == first[vertex_id(base, v)]);
    }
    assert forall|e: int|
        #![trigger edge_link(body, base, e)]
        0 <= e < body.edges@.len() implies after[edges_at(body, base) + e] == retold(
        blank[edges_at(body, base) + e],
        edge_link(body, base, e),
    ) by {
        assert(edges[e] == edge_link(body, base, e));
        assert(first[edges_at(body, base) + e] == blank[edges_at(body, base) + e]);
    }
    assert forall|i: int|
        (0 <= i < base || curves_at(body, base) <= i < edges_at(body, base) || coedges_at(body, base)
            <= i < blank.len()) implies #[trigger] after[i] == blank[i] by {
        assert(first[i] == blank[i]);
    }
}

/// The records in the end, as against those with the links of vertices and
/// edges made.
proof fn owners_are_told(body: Body, base: int, blank: Seq<RecordView>)
    requires
        0 <= base,
        blank.len() == end_at(body, base),
        forall|l: int, o: int|
            #![trigger body.loops@[l].coedges@[o]]
            0 <= l < body.loops@.len() && 0 <= o < body.loops@[l].coedges@.len()
                ==> body.loops@[l].coedges@[o] < body.coedges@.len(),
    ensures
        ({
            let sofar = linked(blank, links_to_edges(body, base));
            let after = linked(blank, all_links(body, base));
            &&& after.len() == blank.len()
            &&& forall|i: int|
                0 <= i < coedges_at(body, base) ==> #[trigger] after[i] == sofar[i]
            &&& forall|i: int|
                0 <= i < blank.len() ==> #[trigger] after[i] == (RecordView {
                    tokens: after[i].tokens,
                    ..sofar[i]
                })
            &&& forall|c: int|
                #![trigger pcurve_of(body, c)]
                0 <= c < body.coedges@.len() && pcurve_of(body, c) is Some ==> after[coedge_id(
                    body,
                    base,
                    c,
                ) - 1] == sofar[coedge_id(body, base, c) - 1]
            &&& forall|c: int|
                #![trigger coedge_id(body, base, c)]
                0 <= c < body.coedges@.len() && is_in_no_loop(body, c, body.loops@.len() as int)
                    ==> after[coedge_id(body, base, c)] == sofar[coedge_id(body, base, c)]
            &&& forall|l: int, o: int|
                #![trigger coedge_link(body, base, l, o)]
                0 <= l < body.loops@.len() && 0 <= o < body.loops@[l].coedges@.len()
                    && is_last_place(body, l, o, body.loops@.len() as int) ==> after[coedge_link(
                    body,
                    base,
                    l,
                    o,
                ).id] == retold(
                    sofar[coedge_link(body, base, l, o).id],
                    coedge_link(body, base, l, o),
                )
            &&& forall|l: int|
                #![trigger loop_link(body, base, l)]
                0 <= l < body.loops@.len() ==> after[loops_at(body, base) + l] == retold(
                    sofar[loops_at(body, base) + l],
                    loop_link(body, base, l),
                )
            &&& forall|f: int|
                #![trigger face_link(body, base, f)]
                0 <= f < body.faces@.len() ==> after[faces_at(body, base) + f] == retold(
                    sofar[faces_at(body, base) + f],
                    face_link(body, base, f),
                )
            &&& forall|s: int|
                #![trigger shell_link(body, base, s)]
                0 <= s < body.shells@.len() ==> after[shells_at(body, base) + s] == retold(
                    sofar[shells_at(body, base) + s],
                    shell_link(body, base, s),
                )
            &&& forall|l: int|
                #![trigger lump_link(body, base, l)]
                0 <= l < body.lumps@.len() ==> after[lumps_at(body, base) + l] == retold(
                    sofar[lumps_at(body, base) + l],
                    lump_link(body, base, l),
                )
            &&& after[body_at(body, base)] == retold(
                sofar[body_at(body, base)],
                body_link(body, base),
            )
        }),
{
    let sofar = linked(blank, links_to_edges(body, base));
    let after = linked(blank, all_links(body, base));
    let loops = loop_links(body, base, body.loops@.len() as int);
    let faces = face_links(body, base, body.faces@.len());
    let shells = shell_links(body, base, body.shells@.len());
    let lumps = lump_links(body, base, body.lumps@.len());
    let s1 = linked(sofar, loops);
    let s2 = linked(s1, faces);
    let s3 = linked(s2, shells);
    let s4 = linked(s3, lumps);
    edges_are_told(body, base, blank);
    coedges_in_range(body, base);
    links_in_two_goes(blank, links_to_edges(body, base), loops);
    links_in_two_goes(blank, links_to_loops(body, base), faces);
    links_in_two_goes(blank, links_to_faces(body, base), shells);
    links_in_two_goes(blank, links_to_shells(body, base), lumps);
    assert(all_links(body, base).drop_last() =~= links_to_shells(body, base) + lumps);
    assert(after == with_link(s4, body_link(body, base)));
    links_of_loops(body, base, sofar, body.loops@.len() as int);
    links_of_a_row(s1, faces, faces_at(body, base), shells_at(body, base));
    links_of_a_row(s2, shells, shells_at(body, base), lumps_at(body, base));
    links_of_a_row(s3, lumps, lumps_at(body, base), body_at(body, base));
    links_change_tokens_only(s1, faces);
    links_change_tokens_only(s2, shells);
    links_change_tokens_only(s3, lumps);
    assert forall|i: int| 0 <= i < coedges_at(body, base) implies #[trigger] after[i]
        == sofar[i] by {
        assert(s4[i] == s3[i] && s3[i] == s2[i] && s2[i] == s1[i] && s1[i] == sofar[i]);
    }
    assert forall|i: int| 0 <= i < blank.len() implies #[trigger] after[i] == (RecordView {
        tokens: after[i].tokens,
        ..sofar[i]
    }) by {
        assert(s1[i] == (RecordView { tokens: s1[i].tokens, ..sofar[i] }));
        assert(s2[i] == (RecordView { tokens: s2[i].tokens, ..s1[i] }));
        assert(s3[i] == (RecordView { tokens: s3[i].tokens, ..s2[i] }));
        assert(s4[i] == (RecordView { tokens: s4[i].tokens, ..s3[i] }));
    }
    assert forall|c: int|
        #![trigger pcurve_of(body, c)]
        0 <= c < body.coedges@.len() && pcurve_of(body, c) is Some implies after[coedge_id(
        body,
        base,
        c,
    ) - 1] == sofar[coedge_id(body, base, c) - 1] by {
        let id = coedge_id(body, base, c) - 1;
        assert(coedges_at(body, base) < coedge_id(body, base, c) < loops_at(body, base));
        assert(s4[id] == s3[id] && s3[id] == s2[id] && s2[id] == s1[id]);
    }
    assert forall|c: int|
        #![trigger coedge_id(body, base, c)]
        0 <= c < body.coedges@.len() && is_in_no_loop(
            body,
            c,
            body.loops@.len() as int,
        ) implies after[coedge_id(body, base, c)] == sofar[coedge_id(body, base, c)] by {
        let id = coedge_id(body, base, c);
        assert(coedges_at(body, base) <= id < loops_at(body, base));
        assert(s4[id] == s3[id] && s3[id] == s2[id] && s2[id] == s1[id]);
    }
    assert forall|l: int, o: int|
        #![trigger coedge_link(body, base, l, o)]
        0 <= l < body.loops@.len() && 0 <= o < body.loops@[l].coedges@.len() && is_last_place(
            body,
            l,
            o,
            body.loops@.len() as int,
        ) implies after[coedge_link(body, base, l, o).id] == retold(
        sofar[coedge_link(body, base, l, o).id],
        coedge_link(body, base, l, o),
    ) by {
        let key = body.loops@[l].coedges@[o];
        let id = coedge_link(body, base, l, o).id;
        assert(key < body.coedges@.len());
        assert(coedge_id(body, base, key as int) < loops_at(body, base));
        assert(s4[id] == s3[id] && s3[id] == s2[id] && s2[id] == s1[id]);
    }
    assert forall|l: int|
        #![trigger loop_link(body, base, l)]
        0 <= l < body.loops@.len() implies after[loops_at(body, base) + l] == retold(
        sofar[loops_at(body, base) + l],
        loop_link(body, base, l),
    ) by {
        let id = loops_at(body, base) + l;
        assert(s4[id] == s3[id] && s3[id] == s2[id] && s2[id] == s1[id]);
    }
    assert forall|f: int|
        #![trigger face_link(body, base, f)]
        0 <= f < body.faces@.len() implies after[faces_at(body, base) + f] == retold(
        sofar[faces_at(body, base) + f],
        face_link(body, base, f),
    ) by {
        let id = faces_at(body, base) + f;
        assert(faces[f] == face_link(body, base, f));
        assert(s4[id] == s3[id] && s3[id] == s2[id] && s1[id] == sofar[id]);
    }
    assert forall|s: int|
        #![trigger shell_link(body, base, s)]
        0 <= s < body.shells@.len() implies after[shells_at(body, base) + s] == retold(
        sofar[shells_at(body, base) + s],
        shell_link(body, base, s),
    ) by {
        let id = shells_at(body, base) + s;
        assert(shells[s] == shell_link(body, base, s));
        assert(s4[id] == s3[id] && s2[id] == s1[id] && s1[id] == sofar[id]);
    }
    assert forall|l: int|
        #![trigger lump_link(body, base, l)]
        0 <= l < body.lumps@.len() implies after[lumps_at(body, base) + l] == retold(
        sofar[lumps_at(body, base) + l],
        lump_link(body, base, l),
    ) by {
        let id = lumps_at(body, base) + l;
        assert(lumps[l] == lump_link(body, base, l));
        assert(s3[id] == s2[id] && s2[id] == s1[id] && s1[id] == sofar[id]);
    }
    let id = body_at(body, base);
    assert(s4[id] == s3[id] && s3[id] == s2[id] && s2[id] == s1[id] && s1[id] == sofar[id]);
}

/// The topology, as [`written_bodies_are_told_in_full`] says it.
proof fn topology_is_told(body: Body, before: Seq<RecordView>)
    requires
        sound(body),
    ensures
        says_topology(
            body,
            before.len() as int,
            linked(unlinked(body, before), all_links(body, before.len() as int)),
        ),
{
    let base = before.len() as int;
    let blank = unlinked(body, before);
    let sofar = linked(blank, links_to_edges(body, base));
    let all = linked(blank, all_links(body, base));
    records_stand(body, before);
    coedges_in_range(body, base);
    edges_are_told(body, base, blank);
    owners_are_told(body, base, blank);
    assert forall|v: int|
        #![trigger vertex_link(body, base, v)]
        0 <= v < body.vertices@.len() implies all[vertex_id(base, v)] == told(
        "vertex"@,
        vertex_link(body, base, v),
    ) by {
        assert(blank[vertex_id(base, v)] == entity(vertex_id(base, v), "vertex"@, Seq::empty()));
        assert(all[vertex_id(base, v)] == sofar[vertex_id(base, v)]);
    }
    assert forall|e: int|
        #![trigger edge_link(body, base, e)]
        0 <= e < body.edges@.len() implies all[edges_at(body, base) + e] == told(
        "edge"@,
        edge_link(body, base, e),
    ) by {
        let id = edges_at(body, base) + e;
        assert(blank[id] == entity(id, "edge"@, Seq::empty()));
        assert(all[id] == sofar[id]);
    }
    assert forall|c: int|
        #![trigger coedge_id(body, base, c)]
        0 <= c < body.coedges@.len() implies all[coedge_id(body, base, c)].kind == "coedge"@ by {
        assert(coedge_stands(body, before, blank, c));
        let id = coedge_id(body, base, c);
        assert(sofar[id] == blank[id]);
        assert(all[id] == (RecordView { tokens: all[id].tokens, ..sofar[id] }));
    }
    assert forall|c: int|
        #![trigger coedge_id(body, base, c)]
        0 <= c < body.coedges@.len() && is_in_no_loop(
            body,
            c,
            body.loops@.len() as int,
        ) implies all[coedge_id(body, base, c)] == entity(
        coedge_id(body, base, c),
        "coedge"@,
        Seq::empty(),
    ) by {
        assert(coedge_stands(body, before, blank, c));
        let id = coedge_id(body, base, c);
        assert(sofar[id] == blank[id]);
    }
    assert forall|l: int, o: int|
        #![trigger coedge_link(body, base, l, o)]
        0 <= l < body.loops@.len() && 0 <= o < body.loops@[l].coedges@.len() && is_last_place(
            body,
            l,
            o,
            body.loops@.len() as int,
        ) implies all[coedge_id(body, base, body.loops@[l].coedges@[o] as int)] == told(
        "coedge"@,
        coedge_link(body, base, l, o),
    ) by {
        let key = body.loops@[l].coedges@[o];
        let id = coedge_id(body, base, key as int);
        assert(key < body.coedges@.len());
        assert(coedge_stands(body, before, blank, key as int));
        assert(sofar[id] == blank[id]);
    }
    assert forall|l: int|
        #![trigger loop_link(body, base, l)]
        0 <= l < body.loops@.len() implies all[loops_at(body, base) + l] == told(
        "loop"@,
        loop_link(body, base, l),
    ) by {
        let id = loops_at(body, base) + l;
        assert(blank[id] == entity(id, "loop"@, Seq::empty()));
        assert(sofar[id] == blank[id]);
    }
    assert forall|f: int|
        #![trigger face_link(body, base, f)]
        0 <= f < body.faces@.len() implies all[faces_at(body, base) + f] == told(
        "face"@,
        face_link(body, base, f),
    ) by {
        let id = faces_at(body, base) + f;
        assert(blank[id] == entity(id, "face"@, Seq::empty()));
        assert(sofar[id] == blank[id]);
    }
    assert forall|s: int|
        #![trigger shell_link(body, base, s)]
        0 <= s < body.shells@.len() implies all[shells_at(body, base) + s] == told(
        "shell"@,
        shell_link(body, base, s),
    ) by {
        let id = shells_at(body, base) + s;
        assert(blank[id] == entity(id, "shell"@, Seq::empty()));
        assert(sofar[id] == blank[id]);
    }
    assert forall|l: int|
        #![trigger lump_link(body, base, l)]
        0 <= l < body.lumps@.len() implies all[lumps_at(body, base) + l] == told(
        "lump"@,
        lump_link(body, base, l),
    ) by {
        let id = lumps_at(body, base) + l;
        assert(blank[id] == entity(id, "lump"@, Seq::empty()));
        assert(sofar[id] == blank[id]);
    }
    let id = body_at(body, base);
    assert(sofar[id] == blank[id]);
}

/// Where appending succeeds, the records say everything about the body.
pub proof fn written_bodies_are_told_in_full(body: Body, before: Seq<RecordView>)
    requires
        outcome(body, before).result is Ok,
    ensures
        says(body, before, outcome(body, before).records),
{
    let base = before.len() as int;
    let blank = unlinked(body, before);
    let sofar = linked(blank, links_to_edges(body, base));
    let all = linked(blank, all_links(body, base));
    sound_bodies_are_written(body, before);
    records_stand(body, before);
    coedges_in_range(body, base);
    edges_are_told(body, base, blank);
    owners_are_told(body, base, blank);
    assert(all == outcome(body, before).records);
    assert(says_geometry(body, before, all)) by {
        assert forall|v: int|
            #![trigger point_id(base, v)]
            0 <= v < body.vertices@.len() implies all[point_id(base, v)] == entity(
            point_id(base, v),
            "point"@,
            seq![TokenView::Position(body.vertices@[v].point)],
        ) by {
            assert(all[point_id(base, v)] == sofar[point_id(base, v)]);
        }
        assert forall|k: int| 0 <= k < body.curves@.len() implies Some(
            all[curves_at(body, base) + k],
        ) == curve_entry(#[trigger] body.curves@[k], curves_at(body, base) + k) by {
            let id = curves_at(body, base) + k;
            assert(all[id] == sofar[id] && sofar[id] == blank[id]);
        }
        assert forall|k: int| 0 <= k < body.surfaces@.len() implies Some(
            all[surfaces_at(body, base) + k],
        ) == surface_entry(#[trigger] body.surfaces@[k], surfaces_at(body, base) + k) by {
            let id = surfaces_at(body, base) + k;
            assert(all[id] == sofar[id] && sofar[id] == blank[id]);
        }
        assert forall|c: int|
            #![trigger pcurve_of(body, c)]
            0 <= c < body.coedges@.len() && pcurve_of(body, c) is Some implies all[coedge_id(
            body,
            base,
            c,
        ) - 1] == pcurve_entry(
            pcurve_of(body, c).unwrap(),
            with_coedges(body, before, c),
            surface_ref(body, base, body.faces@[face_of(body, c).unwrap()].surface),
        ) by {
            assert(coedge_stands(body, before, blank, c));
            let id = coedge_id(body, base, c) - 1;
            assert(coedges_at(body, base) < coedge_id(body, base, c) < loops_at(body, base));
            assert(sofar[id] == blank[id]);
        }
    }
    topology_is_told(body, before);
}

/// The document keeps everything it already had, whatever comes of appending:
/// the records that were there are there, where they were, and each new one has
/// its position for its index. There are as many in the end as are asked room
/// for.
pub proof fn documents_keep_what_they_had(body: Body, before: Seq<RecordView>)
    ensures
        grows(before, outcome(body, before).records),
        body.faults@.len() == 0 ==> outcome(body, before).records.len() == written_until(
            body,
            before.len() as int,
        ),
{
    let base = before.len() as int;
    let curve = |k: int| curve_entry(body.curves@[k], 0) is Some;
    let surface = |k: int| surface_entry(body.surfaces@[k], 0) is Some;
    let coedge = |c: int| coedge_fault(body, c) is None;
    let curves = curves_written(body);
    let surfaces = surfaces_written(body);
    leading_stops_at_the_first(body.curves@.len(), curve);
    leading_stops_at_the_first(body.surfaces@.len(), surface);
    leading_stops_at_the_first(body.coedges@.len(), coedge);
    assert forall|k: int| 0 <= k < curves implies curve_entry(
        #[trigger] body.curves@[k],
        0,
    ) is Some by {
        assert(curve(k));
    }
    assert forall|k: int| 0 <= k < surfaces implies surface_entry(
        #[trigger] body.surfaces@[k],
        0,
    ) is Some by {
        assert(surface(k));
    }
    if body.faults@.len() > 0 {
    } else if curves < body.curves@.len() {
        curves_stand(body, before, curves as int);
    } else if surfaces < body.surfaces@.len() {
        surfaces_stand(body, before, surfaces as int);
    } else if coedges_written(body) < body.coedges@.len() {
        coedges_stand(body, before, coedges_written(body) as int);
    } else {
        let blank = unlinked(body, before);
        records_stand(body, before);
        match stopped_while_linking(body, base) {
            Some(links) => {
                stopped_links_stay_within(body, base);
                links_keep_what_there_was(before, blank, links);
            },
            None => {
                sound_bodies_are_written(body, before);
                written_bodies_are_told_in_full(body, before);
                loops_stay_within(body, base, body.loops@.len() as int);
                rows_stay_within(body, base, body.faces@.len(), body.shells@.len());
                let end = end_at(body, base);
                both_stay_within(
                    links_to_edges(body, base),
                    loop_links(body, base, body.loops@.len() as int),
                    base,
                    end,
                );
                both_stay_within(
                    links_to_loops(body, base),
                    face_links(body, base, body.faces@.len()),
                    base,
                    end,
                );
                both_stay_within(
                    links_to_faces(body, base),
                    shell_links(body, base, body.shells@.len()),
                    base,
                    end,
                );
                both_stay_within(
                    links_to_shells(body, base),
                    lump_links(body, base, body.lumps@.len()),
                    base,
                    end,
                );
                both_stay_within(
                    links_to_shells(body, base) + lump_links(body, base, body.lumps@.len()),
                    seq![body_link(body, base)],
                    base,
                    end,
                );
                assert(all_links(body, base) =~= links_to_shells(body, base) + lump_links(
                    body,
                    base,
                    body.lumps@.len(),
                ) + seq![body_link(body, base)]);
                links_keep_what_there_was(before, blank, all_links(body, base));
            },
        }
    }
}

/// Links of new records keep the old ones as they are.
proof fn links_keep_what_there_was(
    before: Seq<RecordView>,
    blank: Seq<RecordView>,
    links: Seq<Link>,
)
    requires
        grows(before, blank),
        within(links, before.len() as int, blank.len() as int),
    ensures
        grows(before, linked(blank, links)),
        linked(blank, links).len() == blank.len(),
{
    let after = linked(blank, links);
    links_change_tokens_only(blank, links);
    assert forall|i: int| 0 <= i < before.len() implies #[trigger] after[i] == before[i] by {
        assert forall|j: int| 0 <= j < links.len() implies (#[trigger] links[j]).id != i by {
            assert(before.len() <= links[j].id);
        }
    }
}

/// A second body leaves the first one as it is: what the first call wrote is
/// there after the second one, where it was.
pub proof fn a_second_body_leaves_the_first(first: Body, second: Body, before: Seq<RecordView>)
    ensures
        ({
            let between = outcome(first, before).records;
            let after = outcome(second, between).records;
            &&& between.len() <= after.len()
            &&& after.take(between.len() as int) == between
        }),
{
    let between = outcome(first, before).records;
    documents_keep_what_they_had(second, between);
    assert(outcome(second, between).records.take(between.len() as int) =~= between);
}

/// What is returned says where the body ended up: the index is that of the last
/// record, which is of kind `body`, and the number is that of the new records.
pub proof fn what_is_returned_finds_the_body(body: Body, before: Seq<RecordView>)
    requires
        outcome(body, before).result is Ok,
        end_at(body, before.len() as int) <= i32::MAX,
    ensures
        ({
            let all = outcome(body, before).records;
            let written = outcome(body, before).result->Ok_0;
            &&& written.body == all.len() - 1
            &&& all[written.body as int].kind == "body"@
            &&& all[written.body as int].index == written.body
            &&& written.records == all.len() - before.len()
        }),
{
    written_bodies_are_told_in_full(body, before);
    coedges_in_range(body, before.len() as int);
}

/// The records after several bodies were appended, one after the other.
pub open spec fn records_after(bodies: Seq<Body>, before: Seq<RecordView>) -> Seq<RecordView>
    decreases bodies.len(),
{
    if bodies.len() == 0 {
        before
    } else {
        outcome(bodies.last(), records_after(bodies.drop_last(), before)).records
    }
}

/// The header after several bodies were appended, one after the other.
pub open spec fn header_after(
    bodies: Seq<Body>,
    before: Seq<RecordView>,
    header: HeaderView,
) -> HeaderView
    decreases bodies.len(),
{
    if bodies.len() == 0 {
        header
    } else {
        let sofar = records_after(bodies.drop_last(), before);
        header_outcome(
            header_after(bodies.drop_last(), before, header),
            sofar.len(),
            records_after(bodies, before).len(),
            outcome(bodies.last(), sofar).result is Ok,
        )
    }
}

/// How many of some bodies have nothing amiss with them.
pub open spec fn sound_ones(bodies: Seq<Body>) -> nat
    decreases bodies.len(),
{
    if bodies.len() == 0 {
        0
    } else {
        sound_ones(bodies.drop_last()) + if sound(bodies.last()) {
            1nat
        } else {
            0nat
        }
    }
}

/// However many bodies are appended, the header counts every one that is
/// written, which are those that nothing is amiss with, and no other; a header
/// that announced every record still does; and the document keeps everything it
/// had.
pub proof fn headers_count_the_bodies(
    bodies: Seq<Body>,
    before: Seq<RecordView>,
    header: HeaderView,
)
    ensures
        header_after(bodies, before, header).num_bodies == header.num_bodies + sound_ones(bodies),
        header.num_records == before.len() ==> header_after(bodies, before, header).num_records
            == records_after(bodies, before).len(),
        grows(before, records_after(bodies, before)),
    decreases bodies.len(),
{
    if bodies.len() > 0 {
        let sofar = records_after(bodies.drop_last(), before);
        headers_count_the_bodies(bodies.drop_last(), before, header);
        sound_bodies_are_written(bodies.last(), sofar);
        documents_keep_what_they_had(bodies.last(), sofar);
    }
}

/// Where the topology was found inconsistent, nothing is written.
pub proof fn inconsistent_bodies_leave_no_trace(
    body: Body,
    before: Seq<RecordView>,
    header: HeaderView,
)
    requires
        body.faults@.len() > 0,
    ensures
        outcome(body, before).result == Err::<Written, _>(Unappendable::Inconsistent),
        outcome(body, before).records == before,
        header_outcome(header, before.len(), before.len(), false) == header,
{
}

/// Whether no attribute and no token of a document points past its last record.
pub open spec fn valid(records: Seq<RecordView>) -> bool {
    forall|i: int|
        0 <= i < records.len() ==> (#[trigger] records[i]).attribute < records.len()
            && points_below(records[i].tokens, records.len() as int)
}

/// Whether every pointer in a list of tokens is less than `end`.
pub open spec fn points_below(tokens: Seq<TokenView>, end: int) -> bool {
    forall|i: int|
        0 <= i < tokens.len() ==> ((#[trigger] tokens[i]) matches TokenView::Pointer(id) ==> id
            < end)
}

/// A valid document stays valid when a body is appended to it, whatever comes
/// of that.
pub proof fn valid_documents_stay_valid(before: Seq<RecordView>, all: Seq<RecordView>)
    requires
        valid(before),
        intact(before, all, all.len() as int),
    ensures
        valid(all),
{
    assert forall|i: int| 0 <= i < all.len() implies (#[trigger] all[i]).attribute < all.len()
        && points_below(all[i].tokens, all.len() as int) by {
        if i < before.len() {
            assert(all[i] == before[i]);
            assert(points_below(before[i].tokens, before.len() as int));
        } else {
            assert(resolves(all[i].tokens, all.len() as int));
        }
    }
}

/// Appending a body changes nothing of the header but the number of records and
/// the number of bodies: the first where records were added, and then to their
/// number; the second where a body was written, and then by one.
pub proof fn headers_keep_everything_else(
    header: HeaderView,
    before: nat,
    after: nat,
    written: bool,
)
    ensures
        ({
            let new = header_outcome(header, before, after, written);
            &&& new.version == header.version
            &&& new.has_history == header.has_history
            &&& new.product_id == header.product_id
            &&& new.product_version == header.product_version
            &&& new.date == header.date
            &&& new.spatial_resolution == header.spatial_resolution
            &&& new.normal_tolerance == header.normal_tolerance
            &&& new.resfit_tolerance == header.resfit_tolerance
            &&& after > before ==> new.num_records == after
            &&& after == before ==> new.num_records == header.num_records
            &&& written ==> new.num_bodies == header.num_bodies + 1
            &&& !written ==> new.num_bodies == header.num_bodies
        }),
{
}

} // verus!
