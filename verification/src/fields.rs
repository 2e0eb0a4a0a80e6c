//! What each field of each record of a written body holds.
//!
//! The fields are counted from zero; the first one is the attribute pointer.

use vstd::prelude::*;
use crate::body::Body;
use crate::forms::{is_bare, is_made_of};
use crate::geometry::Curve2;
use crate::ids::{next_record, the_first_place_decides};
use crate::laws::{sound_bodies_are_written, told, written_bodies_are_told_in_full};
use crate::entities::entity;
use crate::layout::{
    body_at, body_link, coedge_fault, coedge_id, coedge_link, coedges_at, curves_at, edge_link,
    edges_at, end_at, face_link, face_of, faces_at, first_edge, leading, leading_stops_at_the_first,
    loop_link, loops_at, lump_link, lumps_at, outcome, pcurve_of, pcurves_before, places, point_id,
    shell_link, shells_at, surfaces_at, touches, vertex_id, vertex_link, with_coedges,
};
use crate::linking::{is_in_no_loop, is_last_place};
use crate::shape::coedges_in_range;
use crate::splines::{curve_entry, pcurve_entry, pcurve_form, surface_entry};
use crate::token::{RecordView, TokenView};

verus! {

/// Whether the curve of a coedge is one that gets a record: a line or a spline.
pub open spec fn has_a_pcurve(body: Body, c: int) -> bool {
    body.coedges@[c].pcurve matches Some(curve) && (curve is Line || curve is Nurbs)
}

/// The records of a body stand in the order of their kinds: for each vertex its
/// point and itself, then the curves, the surfaces, the edges, the coedges, the
/// loops, the faces, the shells, the lumps and the body.
pub proof fn records_stand_in_order(body: Body, base: int)
    ensures
        forall|v: int| #[trigger] point_id(base, v) == base + 2 * v,
        forall|v: int| #[trigger] vertex_id(base, v) == base + 2 * v + 1,
        curves_at(body, base) == base + 2 * body.vertices@.len(),
        surfaces_at(body, base) == base + 2 * body.vertices@.len() + body.curves@.len(),
        edges_at(body, base) == surfaces_at(body, base) + body.surfaces@.len(),
        coedges_at(body, base) == edges_at(body, base) + body.edges@.len(),
        body.coedges@.len() == 0 ==> loops_at(body, base) == coedges_at(body, base),
        body.coedges@.len() > 0 ==> loops_at(body, base) == coedge_id(
            body,
            base,
            body.coedges@.len() - 1,
        ) + 1,
        faces_at(body, base) == loops_at(body, base) + body.loops@.len(),
        shells_at(body, base) == faces_at(body, base) + body.faces@.len(),
        lumps_at(body, base) == shells_at(body, base) + body.shells@.len(),
        body_at(body, base) == lumps_at(body, base) + body.lumps@.len(),
        end_at(body, base) == body_at(body, base) + 1,
{
}

/// A coedge stands behind the one before it, with its curve in between where
/// that gets a record; the first one stands behind the edges in the same way.
pub proof fn coedges_stand_in_order(body: Body, base: int, c: int)
    requires
        0 <= c < body.coedges@.len(),
    ensures
        coedge_id(body, base, c) == (if c == 0 {
            coedges_at(body, base)
        } else {
            coedge_id(body, base, c - 1) + 1
        }) + (if has_a_pcurve(body, c) {
            1int
        } else {
            0
        }),
        pcurve_of(body, c) is Some <==> has_a_pcurve(body, c),
{
    assert(pcurves_before(body, c + 1) == pcurves_before(body, c) + if pcurve_of(body, c) is Some {
        1nat
    } else {
        0nat
    });
}

/// The pointer to the entity with a key, one of `count` of which the first
/// stands at `first`; null where there is none.
pub open spec fn to(key: usize, count: nat, first: int) -> TokenView {
    TokenView::Pointer(
        if key < count {
            first + key
        } else {
            -1
        },
    )
}

/// The pointer to the first entity that a list names; null where it names none
/// or one that is not there.
pub open spec fn to_first(list: Seq<usize>, count: nat, first: int) -> TokenView {
    if list.len() > 0 {
        to(list[0], count, first)
    } else {
        TokenView::Pointer(-1)
    }
}

/// The pointer to the coedge with a key; null where there is none.
pub open spec fn to_coedge(body: Body, base: int, key: usize) -> TokenView {
    TokenView::Pointer(
        if key < body.coedges@.len() {
            coedge_id(body, base, key as int)
        } else {
            -1
        },
    )
}

/// Whether a token points at what follows an entity in a list: at what stands
/// behind its first place there, and nowhere where nothing does, or nothing that
/// is there.
pub open spec fn follows(
    list: Seq<usize>,
    key: int,
    count: nat,
    first: int,
    token: TokenView,
) -> bool {
    &&& forall|at: int|
        0 <= at < list.len() && #[trigger] list[at] == key && (forall|j: int|
            0 <= j < at ==> (#[trigger] list[j]) != key) ==> token == if at + 1 < list.len() {
            to(list[at + 1], count, first)
        } else {
            TokenView::Pointer(-1)
        }
    &&& (forall|j: int| 0 <= j < list.len() ==> (#[trigger] list[j]) != key) ==> token
        == TokenView::Pointer(-1)
}

/// The keyword of a direction.
pub open spec fn way(forward: bool) -> TokenView {
    if forward {
        TokenView::Ident("forward"@)
    } else {
        TokenView::Ident("reversed"@)
    }
}

/// What follows an entity in a list is what the list says.
proof fn lists_are_followed(list: Seq<usize>, key: usize, count: nat, first: int)
    requires
        0 <= first,
        first + count <= i32::MAX,
    ensures
        follows(
            list,
            key as int,
            count,
            first,
            TokenView::Pointer(next_record(list, key, places(count, first))),
        ),
{
    let ids = places(count, first);
    assert forall|at: int|
        0 <= at < list.len() && #[trigger] list[at] == key && (forall|j: int|
            0 <= j < at ==> (#[trigger] list[j]) != key) implies TokenView::Pointer(
        next_record(list, key, ids),
    ) == if at + 1 < list.len() {
        to(list[at + 1], count, first)
    } else {
        TokenView::Pointer(-1)
    } by {
        the_first_place_decides(list, key, ids, at);
    }
    the_first_place_decides(list, key, ids, 0);
}

/// Whether a record is that of the point of a vertex: it holds the position, and
/// nothing else.
pub open spec fn is_point(body: Body, base: int, v: int, record: RecordView) -> bool {
    is_made_of(
        record,
        base + 2 * v,
        "point"@,
        seq![TokenView::Position(body.vertices@[v].point)],
    )
}

/// Whether a record is that of a vertex: it holds the first edge that starts or
/// ends at the vertex, or null, and its point.
pub open spec fn is_vertex(body: Body, base: int, v: int, record: RecordView) -> bool {
    &&& is_bare(record, base + 2 * v + 1, "vertex"@)
    &&& record.tokens.len() == 3
    &&& record.tokens[0] == TokenView::Pointer(-1)
    &&& record.tokens[2] == TokenView::Pointer(base + 2 * v)
    &&& forall|e: int|
        0 <= e < body.edges@.len() && ((#[trigger] body.edges@[e]).start == v || body.edges@[e].end
            == v) && (forall|i: int|
            0 <= i < e ==> (#[trigger] body.edges@[i]).start != v && body.edges@[i].end != v)
            ==> record.tokens[1] == TokenView::Pointer(edges_at(body, base) + e)
    &&& (forall|i: int|
        0 <= i < body.edges@.len() ==> (#[trigger] body.edges@[i]).start != v && body.edges@[i].end
            != v) ==> record.tokens[1] == TokenView::Pointer(-1)
}

/// The pointer to the vertex with a key; null where there is none.
pub open spec fn to_vertex(body: Body, base: int, key: usize) -> TokenView {
    TokenView::Pointer(
        if key < body.vertices@.len() {
            base + 2 * key + 1
        } else {
            -1
        },
    )
}

/// Whether a record is that of an edge: it holds the vertices it starts and ends
/// at, each with its parameter, its first coedge and its curve. It runs along
/// its curve, whatever its coedges do, and ends in a counted string.
pub open spec fn is_edge(body: Body, base: int, e: int, record: RecordView) -> bool {
    let edge = body.edges@[e];
    &&& is_bare(record, edges_at(body, base) + e, "edge"@)
    &&& record.tokens.len() == 9
    &&& record.tokens[0] == TokenView::Pointer(-1)
    &&& record.tokens[1] == to_vertex(body, base, edge.start)
    &&& record.tokens[2] == TokenView::Float(edge.start_parameter)
    &&& record.tokens[3] == to_vertex(body, base, edge.end)
    &&& record.tokens[4] == TokenView::Float(edge.end_parameter)
    &&& record.tokens[5] == if edge.coedges@.len() > 0 {
        to_coedge(body, base, edge.coedges@[0])
    } else {
        TokenView::Pointer(-1)
    }
    &&& record.tokens[6] == to(edge.curve, body.curves@.len(), curves_at(body, base))
    &&& record.tokens[7] == TokenView::Ident("forward"@)
    &&& record.tokens[8] == TokenView::Text("unknown"@)
}

/// Whether a record is that of the coedge at a place of a loop: it holds the
/// coedges after and before it around the loop, its partner, its edge, whether
/// it runs along the edge, the loop, and its curve, which stands right before
/// it.
pub open spec fn is_coedge(body: Body, base: int, l: int, o: int, record: RecordView) -> bool {
    let ring = body.loops@[l].coedges@;
    let key = ring[o];
    let coedge = body.coedges@[key as int];
    let id = coedge_id(body, base, key as int);
    &&& is_bare(record, id, "coedge"@)
    &&& record.tokens.len() == 8
    &&& record.tokens[0] == TokenView::Pointer(-1)
    &&& record.tokens[1] == to_coedge(
        body,
        base,
        if o + 1 < ring.len() {
            ring[o + 1]
        } else {
            ring[0]
        },
    )
    &&& record.tokens[2] == to_coedge(
        body,
        base,
        if o > 0 {
            ring[o - 1]
        } else {
            ring[ring.len() - 1]
        },
    )
    &&& coedge.partner matches Some(partner) ==> record.tokens[3] == to_coedge(body, base, partner)
    &&& coedge.partner is None ==> record.tokens[3] == TokenView::Pointer(-1)
    &&& record.tokens[4] == to(coedge.edge, body.edges@.len(), edges_at(body, base))
    &&& record.tokens[5] == way(coedge.forward)
    &&& record.tokens[6] == TokenView::Pointer(loops_at(body, base) + l)
    &&& record.tokens[7] == TokenView::Pointer(
        if has_a_pcurve(body, key as int) {
            id - 1
        } else {
            -1
        },
    )
}

/// Whether a record is that of a loop: it holds the loop behind it in the list
/// of its face, its first coedge and the face.
pub open spec fn is_loop(body: Body, base: int, l: int, record: RecordView) -> bool {
    let ring = body.loops@[l];
    &&& is_bare(record, loops_at(body, base) + l, "loop"@)
    &&& record.tokens.len() == 4
    &&& record.tokens[0] == TokenView::Pointer(-1)
    &&& follows(
        body.faces@[ring.owner as int].loops@,
        l,
        body.loops@.len(),
        loops_at(body, base),
        record.tokens[1],
    )
    &&& record.tokens[2] == if ring.coedges@.len() > 0 {
        to_coedge(body, base, ring.coedges@[0])
    } else {
        TokenView::Pointer(-1)
    }
    &&& record.tokens[3] == to(ring.owner, body.faces@.len(), faces_at(body, base))
}

/// Whether a record is that of a face: it holds the face behind it in the list
/// of its shell, its first loop, the shell, no subshell, its surface, whether
/// its normal is that of the surface, and that it has one side.
pub open spec fn is_face(body: Body, base: int, f: int, record: RecordView) -> bool {
    let face = body.faces@[f];
    &&& is_bare(record, faces_at(body, base) + f, "face"@)
    &&& record.tokens.len() == 8
    &&& record.tokens[0] == TokenView::Pointer(-1)
    &&& follows(
        body.shells@[face.owner as int].faces@,
        f,
        body.faces@.len(),
        faces_at(body, base),
        record.tokens[1],
    )
    &&& record.tokens[2] == to_first(face.loops@, body.loops@.len(), loops_at(body, base))
    &&& record.tokens[3] == to(face.owner, body.shells@.len(), shells_at(body, base))
    &&& record.tokens[4] == TokenView::Pointer(-1)
    &&& record.tokens[5] == to(face.surface, body.surfaces@.len(), surfaces_at(body, base))
    &&& record.tokens[6] == way(face.forward)
    &&& record.tokens[7] == TokenView::Ident("single"@)
}

/// Whether a record is that of a shell: it holds the shell behind it in the list
/// of its lump, no subshell, its first face, no wire and the lump.
pub open spec fn is_shell(body: Body, base: int, s: int, record: RecordView) -> bool {
    let shell = body.shells@[s];
    &&& is_bare(record, shells_at(body, base) + s, "shell"@)
    &&& record.tokens.len() == 6
    &&& record.tokens[0] == TokenView::Pointer(-1)
    &&& follows(
        body.lumps@[shell.owner as int].shells@,
        s,
        body.shells@.len(),
        shells_at(body, base),
        record.tokens[1],
    )
    &&& record.tokens[2] == TokenView::Pointer(-1)
    &&& record.tokens[3] == to_first(shell.faces@, body.faces@.len(), faces_at(body, base))
    &&& record.tokens[4] == TokenView::Pointer(-1)
    &&& record.tokens[5] == to(shell.owner, body.lumps@.len(), lumps_at(body, base))
}

/// Whether a record is that of a lump: it holds the lump behind it in the list
/// of the body, its first shell and the body.
pub open spec fn is_lump(body: Body, base: int, l: int, record: RecordView) -> bool {
    &&& is_bare(record, lumps_at(body, base) + l, "lump"@)
    &&& record.tokens.len() == 4
    &&& record.tokens[0] == TokenView::Pointer(-1)
    &&& follows(body.roots@, l, body.lumps@.len(), lumps_at(body, base), record.tokens[1])
    &&& record.tokens[2] == to_first(
        body.lumps@[l].shells@,
        body.shells@.len(),
        shells_at(body, base),
    )
    &&& record.tokens[3] == TokenView::Pointer(body_at(body, base))
}

/// Whether a record is that of the body: it holds its first lump, no wire and no
/// transform.
pub open spec fn is_body(body: Body, base: int, record: RecordView) -> bool {
    &&& is_bare(record, body_at(body, base), "body"@)
    &&& record.tokens.len() == 4
    &&& record.tokens[0] == TokenView::Pointer(-1)
    &&& record.tokens[1] == to_first(body.roots@, body.lumps@.len(), lumps_at(body, base))
    &&& record.tokens[2] == TokenView::Pointer(-1)
    &&& record.tokens[3] == TokenView::Pointer(-1)
}

/// The link of a vertex makes its record.
pub proof fn a_vertex_is_linked(body: Body, base: int, v: int)
    requires
        0 <= v,
    ensures
        is_vertex(body, base, v, told("vertex"@, vertex_link(body, base, v))),
{
    let apart = |e: int| !touches(body, e, v);
    let found = first_edge(body, v) as int;
    leading_stops_at_the_first(body.edges@.len(), apart);
    assert(first_edge(body, v) == leading(body.edges@.len(), apart));
    assert forall|e: int| 0 <= e < found implies (#[trigger] body.edges@[e]).start != v
        && body.edges@[e].end != v by {
        assert(apart(e));
    }
    if found < body.edges@.len() {
        assert(!apart(found));
        assert(body.edges@[found].start == v || body.edges@[found].end == v);
    }
}

/// The link of an edge makes its record.
pub proof fn an_edge_is_linked(body: Body, base: int, e: int)
    ensures
        is_edge(body, base, e, told("edge"@, edge_link(body, base, e))),
{
}

/// The link of a coedge makes its record.
pub proof fn a_coedge_is_linked(body: Body, base: int, l: int, o: int)
    requires
        0 <= o < body.loops@[l].coedges@.len(),
        body.loops@[l].coedges@[o] < body.coedges@.len(),
    ensures
        is_coedge(body, base, l, o, told("coedge"@, coedge_link(body, base, l, o))),
{
    coedges_stand_in_order(body, base, body.loops@[l].coedges@[o] as int);
    steps_around(o, body.loops@[l].coedges@.len() as int);
}

/// The places after and before one in a ring.
proof fn steps_around(o: int, n: int)
    requires
        0 <= o < n,
    ensures
        (o + 1) % n == if o + 1 < n {
            o + 1
        } else {
            0
        },
        (o + n - 1) % n == if o > 0 {
            o - 1
        } else {
            n - 1
        },
{
    vstd::arithmetic::div_mod::lemma_mod_self_0(n);
    vstd::arithmetic::div_mod::lemma_small_mod((n - 1) as nat, n as nat);
    if o + 1 < n {
        vstd::arithmetic::div_mod::lemma_small_mod((o + 1) as nat, n as nat);
    }
    if o > 0 {
        vstd::arithmetic::div_mod::lemma_mod_add_multiples_vanish(o - 1, n);
        vstd::arithmetic::div_mod::lemma_small_mod((o - 1) as nat, n as nat);
    }
}

/// The link of a loop makes its record.
pub proof fn a_loop_is_linked(body: Body, base: int, l: int)
    requires
        0 <= base,
        end_at(body, base) <= i32::MAX,
        0 <= l < body.loops@.len(),
    ensures
        is_loop(body, base, l, told("loop"@, loop_link(body, base, l))),
{
    coedges_in_range(body, base);
    lists_are_followed(
        body.faces@[body.loops@[l].owner as int].loops@,
        l as usize,
        body.loops@.len(),
        loops_at(body, base),
    );
}

/// The link of a face makes its record.
pub proof fn a_face_is_linked(body: Body, base: int, f: int)
    requires
        0 <= base,
        end_at(body, base) <= i32::MAX,
        0 <= f < body.faces@.len(),
    ensures
        is_face(body, base, f, told("face"@, face_link(body, base, f))),
{
    coedges_in_range(body, base);
    lists_are_followed(
        body.shells@[body.faces@[f].owner as int].faces@,
        f as usize,
        body.faces@.len(),
        faces_at(body, base),
    );
}

/// The link of a shell makes its record.
pub proof fn a_shell_is_linked(body: Body, base: int, s: int)
    requires
        0 <= base,
        end_at(body, base) <= i32::MAX,
        0 <= s < body.shells@.len(),
    ensures
        is_shell(body, base, s, told("shell"@, shell_link(body, base, s))),
{
    coedges_in_range(body, base);
    lists_are_followed(
        body.lumps@[body.shells@[s].owner as int].shells@,
        s as usize,
        body.shells@.len(),
        shells_at(body, base),
    );
}

/// The link of a lump makes its record.
pub proof fn a_lump_is_linked(body: Body, base: int, l: int)
    requires
        0 <= base,
        end_at(body, base) <= i32::MAX,
        0 <= l < body.lumps@.len(),
    ensures
        is_lump(body, base, l, told("lump"@, lump_link(body, base, l))),
{
    coedges_in_range(body, base);
    lists_are_followed(body.roots@, l as usize, body.lumps@.len(), lumps_at(body, base));
}

/// The link of the body makes its record.
pub proof fn the_body_is_linked(body: Body, base: int)
    ensures
        is_body(body, base, told("body"@, body_link(body, base))),
{
}

/// Where appending succeeds, every vertex and every edge has its point and its
/// record, every one with its fields.
pub proof fn fields_of_vertices_and_edges(body: Body, before: Seq<RecordView>, k: int)
    requires
        outcome(body, before).result is Ok,
        0 <= k,
    ensures
        ({
            let base = before.len() as int;
            let all = outcome(body, before).records;
            &&& k < body.vertices@.len() ==> is_point(body, base, k, all[base + 2 * k])
            &&& k < body.vertices@.len() ==> is_vertex(body, base, k, all[base + 2 * k + 1])
            &&& k < body.edges@.len() ==> is_edge(body, base, k, all[edges_at(body, base) + k])
        }),
{
    let base = before.len() as int;
    let all = outcome(body, before).records;
    a_vertex_is_linked(body, base, k);
    an_edge_is_linked(body, base, k);
    let point = entity(
        point_id(base, k),
        "point"@,
        seq![TokenView::Position(body.vertices@[k].point)],
    );
    assert(is_point(body, base, k, point));
    assert(k < body.vertices@.len() ==> all[point_id(base, k)] == point) by {
        written_bodies_are_told_in_full(body, before);
    }
    assert(k < body.vertices@.len() ==> all[vertex_id(base, k)] == told(
        "vertex"@,
        vertex_link(body, base, k),
    )) by {
        written_bodies_are_told_in_full(body, before);
    }
    assert(k < body.edges@.len() ==> all[edges_at(body, base) + k] == told(
        "edge"@,
        edge_link(body, base, k),
    )) by {
        written_bodies_are_told_in_full(body, before);
    }
}

/// Where appending succeeds, every coedge that a loop names has its fields by the
/// last place that names it, and one that no loop names holds nothing but its
/// attribute pointer.
pub proof fn fields_of_coedges(body: Body, before: Seq<RecordView>, l: int, o: int, c: int)
    requires
        outcome(body, before).result is Ok,
        0 <= c < body.coedges@.len(),
    ensures
        ({
            let base = before.len() as int;
            let all = outcome(body, before).records;
            let id = coedge_id(body, base, c);
            let count = body.loops@.len() as int;
            &&& 0 <= l < count && 0 <= o < body.loops@[l].coedges@.len()
                && body.loops@[l].coedges@[o] == c && is_last_place(body, l, o, count)
                ==> is_coedge(body, base, l, o, all[id])
            &&& is_in_no_loop(body, c, count) ==> is_made_of(all[id], id, "coedge"@, Seq::empty())
        }),
{
    let base = before.len() as int;
    let all = outcome(body, before).records;
    let id = coedge_id(body, base, c);
    let count = body.loops@.len() as int;
    if 0 <= l < count && 0 <= o < body.loops@[l].coedges@.len() && body.loops@[l].coedges@[o] == c
        && is_last_place(body, l, o, count) {
        a_coedge_is_linked(body, base, l, o);
        assert(all[id] == told("coedge"@, coedge_link(body, base, l, o))) by {
            written_bodies_are_told_in_full(body, before);
        }
    }
    if is_in_no_loop(body, c, count) {
        let blank = entity(id, "coedge"@, Seq::empty());
        assert(is_made_of(blank, id, "coedge"@, Seq::empty()));
        assert(all[id] == blank) by {
            written_bodies_are_told_in_full(body, before);
        }
    }
}

/// Where appending succeeds, every loop, face, shell and lump and the body have
/// their records, every one with its fields, and the body is the last one.
pub proof fn fields_of_owners(body: Body, before: Seq<RecordView>, k: int)
    requires
        outcome(body, before).result is Ok,
        end_at(body, before.len() as int) <= i32::MAX,
        0 <= k,
    ensures
        ({
            let base = before.len() as int;
            let all = outcome(body, before).records;
            &&& k < body.loops@.len() ==> is_loop(body, base, k, all[loops_at(body, base) + k])
            &&& k < body.faces@.len() ==> is_face(body, base, k, all[faces_at(body, base) + k])
            &&& k < body.shells@.len() ==> is_shell(body, base, k, all[shells_at(body, base) + k])
            &&& k < body.lumps@.len() ==> is_lump(body, base, k, all[lumps_at(body, base) + k])
            &&& is_body(body, base, all.last())
        }),
{
    let base = before.len() as int;
    let all = outcome(body, before).records;
    if k < body.loops@.len() {
        a_loop_is_linked(body, base, k);
        assert(all[loops_at(body, base) + k] == told("loop"@, loop_link(body, base, k))) by {
            written_bodies_are_told_in_full(body, before);
        }
    }
    if k < body.faces@.len() {
        a_face_is_linked(body, base, k);
        assert(all[faces_at(body, base) + k] == told("face"@, face_link(body, base, k))) by {
            written_bodies_are_told_in_full(body, before);
        }
    }
    if k < body.shells@.len() {
        a_shell_is_linked(body, base, k);
        assert(all[shells_at(body, base) + k] == told("shell"@, shell_link(body, base, k))) by {
            written_bodies_are_told_in_full(body, before);
        }
    }
    if k < body.lumps@.len() {
        a_lump_is_linked(body, base, k);
        assert(all[lumps_at(body, base) + k] == told("lump"@, lump_link(body, base, k))) by {
            written_bodies_are_told_in_full(body, before);
        }
    }
    the_body_is_linked(body, base);
    assert(all.last() == told("body"@, body_link(body, base))) by {
        written_bodies_are_told_in_full(body, before);
        coedges_in_range(body, base);
    }
}

/// Where appending succeeds, every curve and every surface has the record that
/// its form asks for.
pub proof fn fields_of_geometry(body: Body, before: Seq<RecordView>, k: int)
    requires
        outcome(body, before).result is Ok,
        0 <= k,
    ensures
        ({
            let base = before.len() as int;
            let all = outcome(body, before).records;
            let curve = base + 2 * body.vertices@.len() + k;
            let surface = base + 2 * body.vertices@.len() + body.curves@.len() + k;
            &&& k < body.curves@.len() ==> Some(all[curve]) == curve_entry(body.curves@[k], curve)
            &&& k < body.surfaces@.len() ==> Some(all[surface]) == surface_entry(
                body.surfaces@[k],
                surface,
            )
        }),
{
    written_bodies_are_told_in_full(body, before);
}

/// Where appending succeeds, the curve of a coedge that has a form has its record
/// right before the coedge, with that form, on the surface of the face that the
/// loop of the coedge bounds.
pub proof fn fields_of_pcurves(body: Body, before: Seq<RecordView>, c: int, curve: Curve2)
    requires
        outcome(body, before).result is Ok,
        0 <= c < body.coedges@.len(),
        body.coedges@[c].pcurve == Some(curve),
        curve is Line || curve is Nurbs,
        body.faces@[body.loops@[body.coedges@[c].owner as int].owner as int].surface
            < body.surfaces@.len(),
    ensures
        ({
            let base = before.len() as int;
            let id = coedge_id(body, base, c);
            let face = body.faces@[body.loops@[body.coedges@[c].owner as int].owner as int];
            outcome(body, before).records[id - 1] == pcurve_entry(
                pcurve_form(curve).unwrap(),
                with_coedges(body, before, c),
                surfaces_at(body, base) + face.surface,
            )
        }),
{
    assert(coedge_fault(body, c) is None) by {
        sound_bodies_are_written(body, before);
    }
    assert(face_of(body, c) == Some(body.loops@[body.coedges@[c].owner as int].owner as int));
    assert(pcurve_of(body, c) == pcurve_form(curve));
    written_bodies_are_told_in_full(body, before);
}

} // verus!
