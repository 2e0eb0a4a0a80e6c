//! What is reported of a body that cannot be written, and what it leaves behind.

use vstd::prelude::*;
use crate::append::{Unappendable, Written};
use crate::body::Body;
use crate::entities::entity;
use crate::fields::{
    a_coedge_is_linked, a_face_is_linked, a_loop_is_linked, a_shell_is_linked, a_vertex_is_linked,
    an_edge_is_linked, coedges_stand_in_order, has_a_pcurve, is_coedge, is_edge, is_face, is_loop,
    is_point, is_shell, is_vertex,
};
use crate::forms::{curves_have_records, has_a_form, is_bare, is_made_of};
use crate::geometry::Surface;
use crate::laws::{edges_are_told, told};
use crate::layout::{
    body_at, coedge_fault, coedge_id, coedge_link, coedges_at, coedges_known, coedges_written,
    curves_at, curves_written, edge_link, edges_at, end_at, face_link, face_links, faces_at,
    faces_known, leading_is_unique, leading_stops_at_the_first, linked, links_to_edges,
    links_to_faces, links_to_loops, loop_holds, loop_link, loop_links, loops_at, loops_known,
    lumps_at, outcome, point_id, ring_links, shell_link, shell_links, shells_at, shells_known,
    stopped_while_allocating, stopped_while_linking, surfaces_at, surfaces_written, unlinked,
    vertex_id, vertex_link, with_coedges, with_curves, with_edges, with_surfaces, with_vertices,
};
use crate::linking::{
    coedge_ids_are_apart, is_in_no_loop, is_last_place, links_change_tokens_only, links_in_two_goes,
    links_of_a_row, links_of_loops, retold, ring_stays_within, the_last_link_counts, within,
};
use crate::shape::{
    blanks_stand, coedge_stands, coedges_in_range, coedges_stand, curves_stand, grows,
    records_stand, surfaces_stand, vertices_stand,
};
use crate::splines::{curve_entry, surface_entry};
use crate::token::{RecordView, TokenView};

verus! {

/// Which surfaces have a record: every spline surface, and an analytic one whose
/// frame has a normal.
pub open spec fn has_a_shape(surface: Surface) -> bool {
    match surface {
        Surface::Plane { frame } => frame.normal is Some,
        Surface::Cylinder { frame, .. } => frame.normal is Some,
        Surface::Cone { frame, .. } => frame.normal is Some,
        Surface::Sphere { frame, .. } => frame.normal is Some,
        Surface::Torus { frame, .. } => frame.normal is Some,
        Surface::Nurbs(_) => true,
    }
}

/// Whether a coedge is in a loop of a face.
pub open spec fn has_a_face(body: Body, c: int) -> bool {
    &&& body.coedges@[c].owner < body.loops@.len()
    &&& body.loops@[body.coedges@[c].owner as int].owner < body.faces@.len()
}

/// Whether a coedge is in a loop of a face on a spline surface.
pub open spec fn is_on_a_spline(body: Body, c: int) -> bool {
    let key = body.faces@[body.loops@[body.coedges@[c].owner as int].owner as int].surface;
    has_a_face(body, c) && key < body.surfaces@.len() && body.surfaces@[key as int] is Nurbs
}

/// Whether all curves and surfaces of a body have records, and it was found
/// consistent.
pub open spec fn has_geometry(body: Body) -> bool {
    &&& body.faults@.len() == 0
    &&& forall|k: int| 0 <= k < body.curves@.len() ==> has_a_form(#[trigger] body.curves@[k])
    &&& forall|k: int| 0 <= k < body.surfaces@.len() ==> has_a_shape(#[trigger] body.surfaces@[k])
}

/// What is wrong with a coedge: it has a curve but no face, or it has a curve
/// that is neither a line nor a spline, and its face is on a spline surface.
pub open spec fn is_wrong(body: Body, c: int) -> bool {
    body.coedges@[c].pcurve matches Some(curve) && (!has_a_face(body, c) || (curve is Other
        && is_on_a_spline(body, c)))
}

/// A coedge is found wrong where it is.
pub proof fn wrong_coedges(body: Body, c: int)
    ensures
        coedge_fault(body, c) is Some <==> is_wrong(body, c),
        is_wrong(body, c) && !has_a_face(body, c) ==> coedge_fault(body, c) == Some(
            Unappendable::Inconsistent,
        ),
        is_wrong(body, c) && has_a_face(body, c) ==> coedge_fault(body, c) == Some(
            Unappendable::Curve,
        ),
{
}

/// A surface has a record if and only if it has a shape.
pub proof fn shapes_have_records(surface: Surface, index: int)
    ensures
        surface_entry(surface, index) is Some <==> has_a_shape(surface),
{
}

/// Where every curve has a form, every curve is written; where one has none, the
/// curves before the first such are.
pub proof fn curves_are_counted(body: Body, k: int)
    requires
        0 <= k <= body.curves@.len(),
        forall|j: int| 0 <= j < k ==> has_a_form(#[trigger] body.curves@[j]),
        k < body.curves@.len() ==> !has_a_form(body.curves@[k]),
    ensures
        curves_written(body) == k,
{
    let right = |j: int| curve_entry(body.curves@[j], 0) is Some;
    assert forall|j: int| 0 <= j < k implies #[trigger] right(j) by {
        curves_have_records(body.curves@[j], 0);
    }
    if k < body.curves@.len() {
        curves_have_records(body.curves@[k], 0);
    }
    leading_is_unique(body.curves@.len(), right, k as nat);
}

/// Where every surface has a shape, every surface is written; where one has none,
/// the surfaces before the first such are.
pub proof fn surfaces_are_counted(body: Body, k: int)
    requires
        0 <= k <= body.surfaces@.len(),
        forall|j: int| 0 <= j < k ==> has_a_shape(#[trigger] body.surfaces@[j]),
        k < body.surfaces@.len() ==> !has_a_shape(body.surfaces@[k]),
    ensures
        surfaces_written(body) == k,
{
    let right = |j: int| surface_entry(body.surfaces@[j], 0) is Some;
    assert forall|j: int| 0 <= j < k implies #[trigger] right(j) by {
        shapes_have_records(body.surfaces@[j], 0);
    }
    if k < body.surfaces@.len() {
        shapes_have_records(body.surfaces@[k], 0);
    }
    leading_is_unique(body.surfaces@.len(), right, k as nat);
}

/// Where no coedge is wrong, every coedge is written; where one is, the coedges
/// before the first such are.
pub proof fn coedges_are_counted(body: Body, c: int)
    requires
        0 <= c <= body.coedges@.len(),
        forall|d: int| 0 <= d < c ==> !#[trigger] is_wrong(body, d),
        c < body.coedges@.len() ==> is_wrong(body, c),
    ensures
        coedges_written(body) == c,
{
    let right = |d: int| coedge_fault(body, d) is None;
    assert forall|d: int| 0 <= d < c implies #[trigger] right(d) by {
        assert(!is_wrong(body, d));
        wrong_coedges(body, d);
    }
    wrong_coedges(body, c);
    leading_is_unique(body.coedges@.len(), right, c as nat);
}

/// A body that was found inconsistent is reported as such. Else the first curve
/// without a form is reported, before any surface.
pub proof fn curves_are_reported(body: Body, before: Seq<RecordView>, k: int)
    requires
        0 <= k < body.curves@.len(),
        forall|j: int| 0 <= j < k ==> has_a_form(#[trigger] body.curves@[j]),
        !has_a_form(body.curves@[k]),
    ensures
        outcome(body, before).result == Err::<Written, _>(
            if body.faults@.len() > 0 {
                Unappendable::Inconsistent
            } else {
                Unappendable::Curve
            },
        ),
{
    curves_are_counted(body, k);
}

/// The first surface without a shape is reported, where every curve has a form.
pub proof fn surfaces_are_reported(body: Body, before: Seq<RecordView>, k: int)
    requires
        body.faults@.len() == 0,
        forall|j: int| 0 <= j < body.curves@.len() ==> has_a_form(#[trigger] body.curves@[j]),
        0 <= k < body.surfaces@.len(),
        forall|j: int| 0 <= j < k ==> has_a_shape(#[trigger] body.surfaces@[j]),
        !has_a_shape(body.surfaces@[k]),
    ensures
        outcome(body, before).result == Err::<Written, _>(Unappendable::Surface),
{
    curves_are_counted(body, body.curves@.len() as int);
    surfaces_are_counted(body, k);
}

/// The first coedge that is wrong is reported, where all geometry has records:
/// as inconsistent where it has no face, and else as a curve.
pub proof fn coedges_are_reported(body: Body, before: Seq<RecordView>, c: int)
    requires
        has_geometry(body),
        0 <= c < body.coedges@.len(),
        forall|d: int| 0 <= d < c ==> !#[trigger] is_wrong(body, d),
        is_wrong(body, c),
    ensures
        outcome(body, before).result == Err::<Written, _>(
            if has_a_face(body, c) {
                Unappendable::Curve
            } else {
                Unappendable::Inconsistent
            },
        ),
{
    curves_are_counted(body, body.curves@.len() as int);
    surfaces_are_counted(body, body.surfaces@.len() as int);
    coedges_are_counted(body, c);
    wrong_coedges(body, c);
}

/// Whether a loop names only coedges that are there, and a face that is.
pub open spec fn hangs_together(body: Body, l: int) -> bool {
    &&& forall|o: int|
        0 <= o < body.loops@[l].coedges@.len() ==> (#[trigger] body.loops@[l].coedges@[o])
            < body.coedges@.len()
    &&& body.loops@[l].owner < body.faces@.len()
}

/// A loop holds where it hangs together.
pub proof fn loops_hold(body: Body, l: int)
    ensures
        loop_holds(body, l) <==> hangs_together(body, l),
{
    let ring = body.loops@[l].coedges@;
    let known = |o: int| ring[o] < body.coedges@.len();
    leading_stops_at_the_first(ring.len(), known);
    if loop_holds(body, l) {
        assert forall|o: int| 0 <= o < ring.len() implies (#[trigger] body.loops@[l].coedges@[o])
            < body.coedges@.len() by {
            assert(known(o));
        }
    }
    if hangs_together(body, l) {
        assert(coedges_known(body, l) < ring.len() ==> !known(coedges_known(body, l) as int));
    }
}

/// Whether everything that owns something, and is owned, is there: every loop
/// hangs together, every face has a shell and every shell a lump.
pub open spec fn is_connected(body: Body) -> bool {
    &&& forall|l: int| 0 <= l < body.loops@.len() ==> #[trigger] hangs_together(body, l)
    &&& forall|f: int|
        0 <= f < body.faces@.len() ==> (#[trigger] body.faces@[f]).owner < body.shells@.len()
    &&& forall|s: int|
        0 <= s < body.shells@.len() ==> (#[trigger] body.shells@[s]).owner < body.lumps@.len()
}

/// A body whose geometry has records and whose coedges are not wrong is written
/// if it is connected, and reported as inconsistent if it is not.
pub proof fn loose_ends_are_reported(body: Body, before: Seq<RecordView>)
    requires
        has_geometry(body),
        forall|c: int| 0 <= c < body.coedges@.len() ==> !#[trigger] is_wrong(body, c),
    ensures
        outcome(body, before).result is Ok <==> is_connected(body),
        !is_connected(body) ==> outcome(body, before).result == Err::<Written, _>(
            Unappendable::Inconsistent,
        ),
{
    let ring = |l: int| loop_holds(body, l);
    let face = |f: int| body.faces@[f].owner < body.shells@.len();
    let shell = |s: int| body.shells@[s].owner < body.lumps@.len();
    curves_are_counted(body, body.curves@.len() as int);
    surfaces_are_counted(body, body.surfaces@.len() as int);
    coedges_are_counted(body, body.coedges@.len() as int);
    leading_stops_at_the_first(body.loops@.len(), ring);
    leading_stops_at_the_first(body.faces@.len(), face);
    leading_stops_at_the_first(body.shells@.len(), shell);
    assert(stopped_while_allocating(body, before) is None);
    if is_connected(body) {
        let l = loops_known(body) as int;
        if l < body.loops@.len() {
            assert(!ring(l));
            loops_hold(body, l);
            assert(hangs_together(body, l));
        }
        let f = faces_known(body) as int;
        if f < body.faces@.len() {
            assert(!face(f));
        }
        let s = shells_known(body) as int;
        if s < body.shells@.len() {
            assert(!shell(s));
        }
    }
    if stopped_while_linking(body, before.len() as int) is None {
        assert forall|l: int| 0 <= l < body.loops@.len() implies #[trigger] hangs_together(
            body,
            l,
        ) by {
            assert(ring(l));
            loops_hold(body, l);
        }
        assert forall|f: int| 0 <= f < body.faces@.len() implies (#[trigger] body.faces@[f]).owner
            < body.shells@.len() by {
            assert(face(f));
        }
        assert forall|s: int| 0 <= s < body.shells@.len() implies (
        #[trigger] body.shells@[s]).owner < body.lumps@.len() by {
            assert(shell(s));
        }
    }
}

/// Whether records are those that the first pass adds for the vertices, and for
/// so many curves and surfaces and their edges: points, curves and surfaces with
/// their geometry, vertices and edges with nothing but their attribute pointer.
pub open spec fn are_added(
    body: Body,
    base: int,
    all: Seq<RecordView>,
    curves: int,
    surfaces: int,
    edges: int,
) -> bool {
    &&& forall|v: int|
        0 <= v < body.vertices@.len() ==> #[trigger] is_point(body, base, v, all[base + 2 * v])
    &&& forall|v: int|
        0 <= v < body.vertices@.len() ==> #[trigger] is_blank_vertex(all, base, v)
    &&& forall|k: int|
        0 <= k < curves ==> Some(all[curves_at(body, base) + k]) == curve_entry(
            #[trigger] body.curves@[k],
            curves_at(body, base) + k,
        )
    &&& forall|k: int|
        0 <= k < surfaces ==> Some(all[surfaces_at(body, base) + k]) == surface_entry(
            #[trigger] body.surfaces@[k],
            surfaces_at(body, base) + k,
        )
    &&& forall|e: int|
        0 <= e < edges ==> #[trigger] is_blank_one(all, edges_at(body, base), e, "edge"@)
}

/// Whether the record at a position is of a kind, with nothing but its attribute
/// pointer.
pub open spec fn is_blank(all: Seq<RecordView>, at: int, kind: Seq<char>) -> bool {
    is_made_of(all[at], at, kind, Seq::empty())
}

/// Whether the record of a vertex holds nothing but its attribute pointer.
pub open spec fn is_blank_vertex(all: Seq<RecordView>, base: int, v: int) -> bool {
    is_blank(all, base + 2 * v + 1, "vertex"@)
}

/// Whether the record of one of a row, of which the first stands at `first`, is of
/// a kind and holds nothing but its attribute pointer.
pub open spec fn is_blank_one(
    all: Seq<RecordView>,
    first: int,
    n: int,
    kind: Seq<char>,
) -> bool {
    is_blank(all, first + n, kind)
}

/// The records of the vertices, in whatever has them.
proof fn vertices_are_added(body: Body, before: Seq<RecordView>, all: Seq<RecordView>)
    requires
        grows(with_vertices(body, before, body.vertices@.len() as int), all),
    ensures
        forall|v: int|
            0 <= v < body.vertices@.len() ==> #[trigger] is_point(
                body,
                before.len() as int,
                v,
                all[before.len() + 2 * v],
            ),
        forall|v: int|
            0 <= v < body.vertices@.len() ==> #[trigger] is_blank_vertex(
                all,
                before.len() as int,
                v,
            ),
{
    let base = before.len() as int;
    let vertices = with_vertices(body, before, body.vertices@.len() as int);
    vertices_stand(body, before, body.vertices@.len() as int);
    assert forall|v: int| 0 <= v < body.vertices@.len() implies #[trigger] is_point(
        body,
        base,
        v,
        all[base + 2 * v],
    ) by {
        let id = point_id(base, v);
        assert(vertices[id] == entity(
            id,
            "point"@,
            seq![TokenView::Position(body.vertices@[v].point)],
        ));
        assert(all[id] == vertices[id]);
    }
    assert forall|v: int| 0 <= v < body.vertices@.len() implies #[trigger] is_blank_vertex(
        all,
        base,
        v,
    ) by {
        let id = vertex_id(base, v);
        assert(vertices[id] == entity(id, "vertex"@, Seq::empty()));
        assert(all[id] == vertices[id]);
    }
}

/// A body whose curve has no form leaves the points and the vertices behind, and
/// the curves before that one.
pub proof fn refused_curves_leave(body: Body, before: Seq<RecordView>, k: int)
    requires
        body.faults@.len() == 0,
        0 <= k < body.curves@.len(),
        forall|j: int| 0 <= j < k ==> has_a_form(#[trigger] body.curves@[j]),
        !has_a_form(body.curves@[k]),
    ensures
        ({
            let base = before.len() as int;
            let all = outcome(body, before).records;
            &&& all.len() == base + 2 * body.vertices@.len() + k
            &&& grows(before, all)
            &&& are_added(body, base, all, k, 0, 0)
        }),
{
    curves_are_counted(body, k);
    assert forall|j: int| 0 <= j < k implies curve_entry(#[trigger] body.curves@[j], 0) is Some by {
        curves_have_records(body.curves@[j], 0);
    }
    curves_stand(body, before, k);
    vertices_are_added(body, before, with_curves(body, before, k));
}

/// A body whose surface has no shape leaves the points and the vertices behind,
/// all curves, and the surfaces before that one.
pub proof fn refused_surfaces_leave(body: Body, before: Seq<RecordView>, k: int)
    requires
        body.faults@.len() == 0,
        forall|j: int| 0 <= j < body.curves@.len() ==> has_a_form(#[trigger] body.curves@[j]),
        0 <= k < body.surfaces@.len(),
        forall|j: int| 0 <= j < k ==> has_a_shape(#[trigger] body.surfaces@[j]),
        !has_a_shape(body.surfaces@[k]),
    ensures
        ({
            let base = before.len() as int;
            let all = outcome(body, before).records;
            &&& all.len() == base + 2 * body.vertices@.len() + body.curves@.len() + k
            &&& grows(before, all)
            &&& are_added(body, base, all, body.curves@.len() as int, k, 0)
        }),
{
    let count = body.curves@.len() as int;
    curves_are_counted(body, count);
    surfaces_are_counted(body, k);
    assert forall|j: int| 0 <= j < count implies curve_entry(
        #[trigger] body.curves@[j],
        0,
    ) is Some by {
        curves_have_records(body.curves@[j], 0);
    }
    assert forall|j: int| 0 <= j < k implies surface_entry(
        #[trigger] body.surfaces@[j],
        0,
    ) is Some by {
        shapes_have_records(body.surfaces@[j], 0);
    }
    let curves = with_curves(body, before, count);
    let all = with_surfaces(body, before, k);
    curves_stand(body, before, count);
    surfaces_stand(body, before, k);
    vertices_are_added(body, before, all);
    assert forall|j: int| 0 <= j < count implies Some(
        all[curves_at(body, before.len() as int) + j],
    ) == curve_entry(#[trigger] body.curves@[j], curves_at(body, before.len() as int) + j) by {
        let at = curves_at(body, before.len() as int) + j;
        assert(all[at] == curves[at]);
    }
}

/// A body with a coedge that is wrong leaves the points, the vertices, all curves,
/// surfaces and edges behind, and the coedges before that one, each with its
/// curve before it where that has a record.
pub proof fn refused_coedges_leave(body: Body, before: Seq<RecordView>, c: int)
    requires
        has_geometry(body),
        0 <= c < body.coedges@.len(),
        forall|d: int| 0 <= d < c ==> !#[trigger] is_wrong(body, d),
        is_wrong(body, c),
    ensures
        ({
            let base = before.len() as int;
            let all = outcome(body, before).records;
            &&& all.len() == if c == 0 {
                coedges_at(body, base)
            } else {
                coedge_id(body, base, c - 1) + 1
            }
            &&& grows(before, all)
            &&& are_added(
                body,
                base,
                all,
                body.curves@.len() as int,
                body.surfaces@.len() as int,
                body.edges@.len() as int,
            )
            &&& forall|d: int|
                0 <= d < c ==> is_blank(all, #[trigger] coedge_id(body, base, d), "coedge"@)
            &&& forall|d: int|
                0 <= d < c && has_a_pcurve(body, d) ==> is_bare(
                    all[coedge_id(body, base, d) - 1],
                    #[trigger] coedge_id(body, base, d) - 1,
                    "pcurve"@,
                )
        }),
{
    let base = before.len() as int;
    let all = with_coedges(body, before, c);
    let edges = with_edges(body, before);
    let curves = with_curves(body, before, body.curves@.len() as int);
    let surfaces = with_surfaces(body, before, body.surfaces@.len() as int);
    curves_are_counted(body, body.curves@.len() as int);
    surfaces_are_counted(body, body.surfaces@.len() as int);
    coedges_are_counted(body, c);
    assert forall|j: int| 0 <= j < body.curves@.len() implies curve_entry(
        #[trigger] body.curves@[j],
        0,
    ) is Some by {
        curves_have_records(body.curves@[j], 0);
    }
    assert forall|j: int| 0 <= j < body.surfaces@.len() implies surface_entry(
        #[trigger] body.surfaces@[j],
        0,
    ) is Some by {
        shapes_have_records(body.surfaces@[j], 0);
    }
    curves_stand(body, before, body.curves@.len() as int);
    surfaces_stand(body, before, body.surfaces@.len() as int);
    blanks_stand(surfaces, "edge"@, body.edges@.len() as int);
    coedges_stand(body, before, c);
    vertices_are_added(body, before, all);
    assert(all == outcome(body, before).records);
    assert forall|j: int| 0 <= j < body.curves@.len() implies Some(
        all[curves_at(body, base) + j],
    ) == curve_entry(#[trigger] body.curves@[j], curves_at(body, base) + j) by {
        let at = curves_at(body, base) + j;
        assert(all[at] == edges[at] && edges[at] == surfaces[at] && surfaces[at] == curves[at]);
    }
    assert forall|j: int| 0 <= j < body.surfaces@.len() implies Some(
        all[surfaces_at(body, base) + j],
    ) == surface_entry(#[trigger] body.surfaces@[j], surfaces_at(body, base) + j) by {
        let at = surfaces_at(body, base) + j;
        assert(all[at] == edges[at] && edges[at] == surfaces[at]);
    }
    assert forall|e: int| 0 <= e < body.edges@.len() implies #[trigger] is_blank_one(
        all,
        edges_at(body, base),
        e,
        "edge"@,
    ) by {
        let at = edges_at(body, base) + e;
        assert(edges[at] == entity(at, "edge"@, Seq::empty()));
        assert(all[at] == edges[at]);
    }
    assert forall|d: int| 0 <= d < c implies is_blank(
        all,
        #[trigger] coedge_id(body, base, d),
        "coedge"@,
    ) by {
        assert(coedge_stands(body, before, all, d));
    }
    assert forall|d: int| 0 <= d < c && has_a_pcurve(body, d) implies is_bare(
        all[coedge_id(body, base, d) - 1],
        #[trigger] coedge_id(body, base, d) - 1,
        "pcurve"@,
    ) by {
        assert(coedge_stands(body, before, all, d));
        coedges_stand_in_order(body, base, d);
        coedges_stand(body, before, d);
    }
}

/// Whether so many loops, faces and shells of a body are linked, and those behind
/// them, all lumps and the body are not.
pub open spec fn are_linked(
    body: Body,
    base: int,
    all: Seq<RecordView>,
    loops: int,
    faces: int,
    shells: int,
) -> bool {
    &&& forall|l: int|
        0 <= l < loops ==> #[trigger] is_loop(body, base, l, all[loops_at(body, base) + l])
    &&& forall|l: int|
        loops <= l < body.loops@.len() ==> #[trigger] is_blank_one(
            all,
            loops_at(body, base),
            l,
            "loop"@,
        )
    &&& forall|f: int|
        0 <= f < faces ==> #[trigger] is_face(body, base, f, all[faces_at(body, base) + f])
    &&& forall|f: int|
        faces <= f < body.faces@.len() ==> #[trigger] is_blank_one(
            all,
            faces_at(body, base),
            f,
            "face"@,
        )
    &&& forall|s: int|
        0 <= s < shells ==> #[trigger] is_shell(body, base, s, all[shells_at(body, base) + s])
    &&& forall|s: int|
        shells <= s < body.shells@.len() ==> #[trigger] is_blank_one(
            all,
            shells_at(body, base),
            s,
            "shell"@,
        )
    &&& forall|l: int|
        0 <= l < body.lumps@.len() ==> #[trigger] is_blank_one(
            all,
            lumps_at(body, base),
            l,
            "lump"@,
        )
    &&& is_blank(all, body_at(body, base), "body"@)
}

/// Whether every vertex and every edge of a body is linked, and every point,
/// curve and surface is as it was added.
pub open spec fn ends_are_linked(body: Body, base: int, all: Seq<RecordView>) -> bool {
    &&& forall|v: int|
        0 <= v < body.vertices@.len() ==> #[trigger] is_point(body, base, v, all[base + 2 * v])
    &&& forall|v: int|
        0 <= v < body.vertices@.len() ==> #[trigger] is_vertex(
            body,
            base,
            v,
            all[base + 2 * v + 1],
        )
    &&& forall|k: int|
        0 <= k < body.curves@.len() ==> Some(all[curves_at(body, base) + k]) == curve_entry(
            #[trigger] body.curves@[k],
            curves_at(body, base) + k,
        )
    &&& forall|k: int|
        0 <= k < body.surfaces@.len() ==> Some(all[surfaces_at(body, base) + k]) == surface_entry(
            #[trigger] body.surfaces@[k],
            surfaces_at(body, base) + k,
        )
    &&& forall|e: int|
        0 <= e < body.edges@.len() ==> #[trigger] is_edge(
            body,
            base,
            e,
            all[edges_at(body, base) + e],
        )
}

/// The records of a body whose vertices and edges are linked, in whatever has
/// them.
proof fn ends_stay_linked(body: Body, before: Seq<RecordView>, all: Seq<RecordView>)
    requires
        has_geometry(body),
        ({
            let base = before.len() as int;
            let sofar = linked(unlinked(body, before), links_to_edges(body, base));
            forall|i: int| 0 <= i < coedges_at(body, base) ==> #[trigger] all[i] == sofar[i]
        }),
    ensures
        ends_are_linked(body, before.len() as int, all),
{
    let base = before.len() as int;
    let blank = unlinked(body, before);
    let sofar = linked(blank, links_to_edges(body, base));
    geometry_has_records(body);
    records_stand(body, before);
    coedges_in_range(body, base);
    edges_are_told(body, base, blank);
    assert forall|v: int| 0 <= v < body.vertices@.len() implies #[trigger] is_point(
        body,
        base,
        v,
        all[base + 2 * v],
    ) by {
        let id = point_id(base, v);
        assert(all[id] == sofar[id] && sofar[id] == blank[id]);
        assert(blank[id] == entity(
            id,
            "point"@,
            seq![TokenView::Position(body.vertices@[v].point)],
        ));
    }
    assert forall|v: int| 0 <= v < body.vertices@.len() implies #[trigger] is_vertex(
        body,
        base,
        v,
        all[base + 2 * v + 1],
    ) by {
        let id = vertex_id(base, v);
        a_vertex_is_linked(body, base, v);
        assert(blank[id] == entity(id, "vertex"@, Seq::empty()));
        assert(sofar[id] == told("vertex"@, vertex_link(body, base, v)));
        assert(all[id] == sofar[id]);
    }
    assert forall|k: int| 0 <= k < body.curves@.len() implies Some(
        all[curves_at(body, base) + k],
    ) == curve_entry(#[trigger] body.curves@[k], curves_at(body, base) + k) by {
        let id = curves_at(body, base) + k;
        assert(all[id] == sofar[id] && sofar[id] == blank[id]);
    }
    assert forall|k: int| 0 <= k < body.surfaces@.len() implies Some(
        all[surfaces_at(body, base) + k],
    ) == surface_entry(#[trigger] body.surfaces@[k], surfaces_at(body, base) + k) by {
        let id = surfaces_at(body, base) + k;
        assert(all[id] == sofar[id] && sofar[id] == blank[id]);
    }
    assert forall|e: int| 0 <= e < body.edges@.len() implies #[trigger] is_edge(
        body,
        base,
        e,
        all[edges_at(body, base) + e],
    ) by {
        let id = edges_at(body, base) + e;
        an_edge_is_linked(body, base, e);
        assert(blank[id] == entity(id, "edge"@, Seq::empty()));
        assert(sofar[id] == told("edge"@, edge_link(body, base, e)));
        assert(all[id] == sofar[id]);
    }
}

/// Geometry has records where it has.
proof fn geometry_has_records(body: Body)
    requires
        has_geometry(body),
    ensures
        forall|k: int|
            0 <= k < body.curves@.len() ==> curve_entry(#[trigger] body.curves@[k], 0) is Some,
        forall|k: int|
            0 <= k < body.surfaces@.len() ==> surface_entry(#[trigger] body.surfaces@[k], 0)
                is Some,
{
    assert forall|k: int| 0 <= k < body.curves@.len() implies curve_entry(
        #[trigger] body.curves@[k],
        0,
    ) is Some by {
        curves_have_records(body.curves@[k], 0);
    }
    assert forall|k: int| 0 <= k < body.surfaces@.len() implies surface_entry(
        #[trigger] body.surfaces@[k],
        0,
    ) is Some by {
        shapes_have_records(body.surfaces@[k], 0);
    }
}

/// Whether so many loops, faces and shells have been linked, as the links say it.
spec fn rows_are_told(
    body: Body,
    base: int,
    blank: Seq<RecordView>,
    all: Seq<RecordView>,
    loops: int,
    faces: int,
    shells: int,
) -> bool {
    &&& forall|l: int|
        #![trigger loop_link(body, base, l)]
        0 <= l < loops ==> all[loops_at(body, base) + l] == retold(
            blank[loops_at(body, base) + l],
            loop_link(body, base, l),
        )
    &&& forall|f: int|
        #![trigger face_link(body, base, f)]
        0 <= f < faces ==> all[faces_at(body, base) + f] == retold(
            blank[faces_at(body, base) + f],
            face_link(body, base, f),
        )
    &&& forall|s: int|
        #![trigger shell_link(body, base, s)]
        0 <= s < shells ==> all[shells_at(body, base) + s] == retold(
            blank[shells_at(body, base) + s],
            shell_link(body, base, s),
        )
    &&& forall|i: int|
        loops_at(body, base) + loops <= i < faces_at(body, base) || faces_at(body, base) + faces
            <= i < shells_at(body, base) || shells_at(body, base) + shells <= i < end_at(body, base)
            ==> #[trigger] all[i] == blank[i]
}

/// What the links say, field by field.
proof fn rows_are_linked(
    body: Body,
    before: Seq<RecordView>,
    all: Seq<RecordView>,
    loops: int,
    faces: int,
    shells: int,
)
    requires
        has_geometry(body),
        end_at(body, before.len() as int) <= i32::MAX,
        0 <= loops <= body.loops@.len(),
        0 <= faces <= body.faces@.len(),
        0 <= shells <= body.shells@.len(),
        rows_are_told(
            body,
            before.len() as int,
            unlinked(body, before),
            all,
            loops,
            faces,
            shells,
        ),
    ensures
        are_linked(body, before.len() as int, all, loops, faces, shells),
{
    let base = before.len() as int;
    let blank = unlinked(body, before);
    geometry_has_records(body);
    records_stand(body, before);
    coedges_in_range(body, base);
    assert forall|l: int| 0 <= l < loops implies #[trigger] is_loop(
        body,
        base,
        l,
        all[loops_at(body, base) + l],
    ) by {
        a_loop_is_linked(body, base, l);
        assert(all[loops_at(body, base) + l] == told("loop"@, loop_link(body, base, l)));
    }
    assert forall|l: int| loops <= l < body.loops@.len() implies #[trigger] is_blank_one(
        all,
        loops_at(body, base),
        l,
        "loop"@,
    ) by {
        let id = loops_at(body, base) + l;
        assert(all[id] == blank[id]);
    }
    assert forall|f: int| 0 <= f < faces implies #[trigger] is_face(
        body,
        base,
        f,
        all[faces_at(body, base) + f],
    ) by {
        a_face_is_linked(body, base, f);
        assert(all[faces_at(body, base) + f] == told("face"@, face_link(body, base, f)));
    }
    assert forall|f: int| faces <= f < body.faces@.len() implies #[trigger] is_blank_one(
        all,
        faces_at(body, base),
        f,
        "face"@,
    ) by {
        let id = faces_at(body, base) + f;
        assert(all[id] == blank[id]);
    }
    assert forall|s: int| 0 <= s < shells implies #[trigger] is_shell(
        body,
        base,
        s,
        all[shells_at(body, base) + s],
    ) by {
        a_shell_is_linked(body, base, s);
        assert(all[shells_at(body, base) + s] == told("shell"@, shell_link(body, base, s)));
    }
    assert forall|s: int| shells <= s < body.shells@.len() implies #[trigger] is_blank_one(
        all,
        shells_at(body, base),
        s,
        "shell"@,
    ) by {
        let id = shells_at(body, base) + s;
        assert(all[id] == blank[id]);
    }
    assert forall|l: int| 0 <= l < body.lumps@.len() implies #[trigger] is_blank_one(
        all,
        lumps_at(body, base),
        l,
        "lump"@,
    ) by {
        let id = lumps_at(body, base) + l;
        assert(all[id] == blank[id]);
    }
    let id = body_at(body, base);
    assert(all[id] == blank[id]);
}

/// Whether the second pass is reached: all geometry has records and no coedge is
/// wrong.
pub open spec fn gets_linked(body: Body) -> bool {
    &&& has_geometry(body)
    &&& forall|c: int| 0 <= c < body.coedges@.len() ==> !#[trigger] is_wrong(body, c)
}

/// Where the second pass is reached, the first one does not stop.
proof fn the_second_pass_is_reached(body: Body, before: Seq<RecordView>)
    requires
        gets_linked(body),
    ensures
        stopped_while_allocating(body, before) is None,
{
    curves_are_counted(body, body.curves@.len() as int);
    surfaces_are_counted(body, body.surfaces@.len() as int);
    coedges_are_counted(body, body.coedges@.len() as int);
}

/// Where the loops before one hang together and that one does not, it is where
/// the second pass stops.
proof fn loops_are_counted(body: Body, l: int)
    requires
        0 <= l <= body.loops@.len(),
        forall|m: int| 0 <= m < l ==> #[trigger] hangs_together(body, m),
        l < body.loops@.len() ==> !hangs_together(body, l),
    ensures
        loops_known(body) == l,
{
    let ring = |m: int| loop_holds(body, m);
    assert forall|m: int| 0 <= m < l implies #[trigger] ring(m) by {
        assert(hangs_together(body, m));
        loops_hold(body, m);
    }
    loops_hold(body, l);
    leading_is_unique(body.loops@.len(), ring, l as nat);
}

/// A body with a loop that does not hang together leaves every record behind.
/// Vertices, edges and the loops before that one are linked; so are the first `n`
/// coedges of that loop, up to the first one that is missing.
pub proof fn refused_loops_leave(body: Body, before: Seq<RecordView>, l: int, n: int)
    requires
        gets_linked(body),
        end_at(body, before.len() as int) <= i32::MAX,
        0 <= l < body.loops@.len(),
        forall|m: int| 0 <= m < l ==> #[trigger] hangs_together(body, m),
        !hangs_together(body, l),
        0 <= n <= body.loops@[l].coedges@.len(),
        forall|o: int| 0 <= o < n ==> (#[trigger] body.loops@[l].coedges@[o]) < body.coedges@.len(),
        n < body.loops@[l].coedges@.len() ==> body.loops@[l].coedges@[n] >= body.coedges@.len(),
    ensures
        ({
            let base = before.len() as int;
            let all = outcome(body, before).records;
            &&& all.len() == end_at(body, base)
            &&& forall|i: int| 0 <= i < before.len() ==> #[trigger] all[i] == before[i]
            &&& ends_are_linked(body, base, all)
            &&& are_linked(body, base, all, l, 0, 0)
            &&& forall|o: int|
                0 <= o < n && (forall|p: int|
                    o < p < n ==> (#[trigger] body.loops@[l].coedges@[p])
                        != body.loops@[l].coedges@[o]) ==> is_coedge(
                    body,
                    base,
                    l,
                    o,
                    all[coedge_id(body, base, #[trigger] body.loops@[l].coedges@[o] as int)],
                )
        }),
{
    let base = before.len() as int;
    let blank = unlinked(body, before);
    let known = |o: int| body.loops@[l].coedges@[o] < body.coedges@.len();
    let loops = loop_links(body, base, l);
    let rings = ring_links(body, base, l, n as nat);
    let sofar = linked(blank, links_to_edges(body, base));
    let first = linked(sofar, loops);
    let all = linked(first, rings);
    the_second_pass_is_reached(body, before);
    loops_are_counted(body, l);
    assert forall|o: int| 0 <= o < n implies #[trigger] known(o) by {}
    leading_is_unique(body.loops@[l].coedges@.len(), known, n as nat);
    assert(coedges_known(body, l) == n);
    links_in_two_goes(blank, links_to_edges(body, base), loops);
    links_in_two_goes(blank, links_to_edges(body, base) + loops, rings);
    assert(all == outcome(body, before).records);
    geometry_has_records(body);
    records_stand(body, before);
    coedges_in_range(body, base);
    edges_are_told(body, base, blank);
    assert forall|m: int, o: int|
        #![trigger body.loops@[m].coedges@[o]]
        0 <= m < l && 0 <= o < body.loops@[m].coedges@.len() implies body.loops@[m].coedges@[o]
        < body.coedges@.len() by {
        assert(hangs_together(body, m));
    }
    links_of_loops(body, base, sofar, l);
    ring_stays_within(body, base, l, n as nat);
    assert(within(rings, 0, first.len() as int)) by {
        assert forall|j: int| 0 <= j < rings.len() implies 0 <= (#[trigger] rings[j]).id
            < first.len() by {
            assert(coedges_at(body, base) <= rings[j].id < loops_at(body, base));
        }
    }
    links_change_tokens_only(first, rings);
    assert forall|i: int|
        0 <= i < coedges_at(body, base) || loops_at(body, base) <= i < end_at(
            body,
            base,
        ) implies #[trigger] all[i] == first[i] by {
        assert forall|j: int| 0 <= j < rings.len() implies (#[trigger] rings[j]).id != i by {
            assert(coedges_at(body, base) <= rings[j].id < loops_at(body, base));
        }
    }
    assert forall|i: int| 0 <= i < coedges_at(body, base) implies #[trigger] all[i] == sofar[i] by {
        assert(all[i] == first[i]);
    }
    ends_stay_linked(body, before, all);
    assert forall|i: int| 0 <= i < before.len() implies #[trigger] all[i] == before[i] by {
        assert(all[i] == sofar[i] && sofar[i] == blank[i]);
    }
    assert(rows_are_told(body, base, blank, all, l, 0, 0)) by {
        assert forall|m: int|
            #![trigger loop_link(body, base, m)]
            0 <= m < l implies all[loops_at(body, base) + m] == retold(
            blank[loops_at(body, base) + m],
            loop_link(body, base, m),
        ) by {
            let id = loops_at(body, base) + m;
            assert(all[id] == first[id] && sofar[id] == blank[id]);
        }
        assert forall|i: int| loops_at(body, base) + l <= i < end_at(body, base) implies
            #[trigger] all[i] == blank[i] by {
            assert(all[i] == first[i] && first[i] == sofar[i] && sofar[i] == blank[i]);
        }
    }
    rows_are_linked(body, before, all, l, 0, 0);
    assert forall|o: int|
        0 <= o < n && (forall|p: int|
            o < p < n ==> (#[trigger] body.loops@[l].coedges@[p])
                != body.loops@[l].coedges@[o]) implies is_coedge(
        body,
        base,
        l,
        o,
        all[coedge_id(body, base, #[trigger] body.loops@[l].coedges@[o] as int)],
    ) by {
        let key = body.loops@[l].coedges@[o] as int;
        let id = coedge_id(body, base, key);
        assert(key < body.coedges@.len());
        assert(rings[o] == coedge_link(body, base, l, o));
        assert forall|k: int| o < k < rings.len() implies (#[trigger] rings[k]).id
            != rings[o].id by {
            let other = body.loops@[l].coedges@[k];
            assert(other < body.coedges@.len() && other != key);
            coedge_ids_are_apart(body, base, other as int, key);
        }
        the_last_link_counts(first, rings, o);
        a_coedge_is_linked(body, base, l, o);
        assert(coedge_stands(body, before, blank, key));
        assert(first[id] == (RecordView { tokens: first[id].tokens, ..sofar[id] }));
        assert(sofar[id] == blank[id]);
    }
}

/// Whether a coedge that is named holds what its last place gives it, and one that
/// is not holds nothing but its attribute pointer.
pub open spec fn coedges_are_linked(body: Body, base: int, all: Seq<RecordView>) -> bool {
    let count = body.loops@.len() as int;
    &&& forall|l: int, o: int|
        0 <= l < count && 0 <= o < body.loops@[l].coedges@.len() && is_last_place(
            body,
            l,
            o,
            count,
        ) ==> is_coedge(
            body,
            base,
            l,
            o,
            all[coedge_id(body, base, #[trigger] body.loops@[l].coedges@[o] as int)],
        )
    &&& forall|c: int|
        0 <= c < body.coedges@.len() && is_in_no_loop(body, c, count) ==> is_blank(
            all,
            #[trigger] coedge_id(body, base, c),
            "coedge"@,
        )
}

/// The records with the links of all loops made, in whatever has them.
proof fn rings_stay_linked(body: Body, before: Seq<RecordView>, all: Seq<RecordView>)
    requires
        has_geometry(body),
        forall|l: int| 0 <= l < body.loops@.len() ==> #[trigger] hangs_together(body, l),
        ({
            let base = before.len() as int;
            let first = linked(unlinked(body, before), links_to_loops(body, base));
            forall|i: int| 0 <= i < faces_at(body, base) ==> #[trigger] all[i] == first[i]
        }),
    ensures
        ({
            let base = before.len() as int;
            let blank = unlinked(body, before);
            let first = linked(blank, links_to_loops(body, base));
            &&& first.len() == end_at(body, base)
            &&& forall|i: int|
                faces_at(body, base) <= i < end_at(body, base) ==> #[trigger] first[i] == blank[i]
            &&& forall|l: int|
                #![trigger loop_link(body, base, l)]
                0 <= l < body.loops@.len() ==> all[loops_at(body, base) + l] == retold(
                    blank[loops_at(body, base) + l],
                    loop_link(body, base, l),
                )
            &&& forall|i: int| 0 <= i < before.len() ==> #[trigger] all[i] == before[i]
            &&& ends_are_linked(body, base, all)
            &&& coedges_are_linked(body, base, all)
        }),
{
    let base = before.len() as int;
    let blank = unlinked(body, before);
    let count = body.loops@.len() as int;
    let loops = loop_links(body, base, count);
    let sofar = linked(blank, links_to_edges(body, base));
    let first = linked(sofar, loops);
    links_in_two_goes(blank, links_to_edges(body, base), loops);
    geometry_has_records(body);
    records_stand(body, before);
    coedges_in_range(body, base);
    edges_are_told(body, base, blank);
    assert forall|m: int, o: int|
        #![trigger body.loops@[m].coedges@[o]]
        0 <= m < count && 0 <= o < body.loops@[m].coedges@.len() implies body.loops@[m].coedges@[o]
        < body.coedges@.len() by {
        assert(hangs_together(body, m));
    }
    links_of_loops(body, base, sofar, count);
    assert forall|i: int| 0 <= i < coedges_at(body, base) implies #[trigger] all[i] == sofar[i] by {
        assert(all[i] == first[i]);
    }
    ends_stay_linked(body, before, all);
    assert forall|i: int| 0 <= i < before.len() implies #[trigger] all[i] == before[i] by {
        assert(all[i] == sofar[i] && sofar[i] == blank[i]);
    }
    assert forall|i: int| faces_at(body, base) <= i < end_at(body, base) implies #[trigger] first[i]
        == blank[i] by {
        assert(first[i] == sofar[i] && sofar[i] == blank[i]);
    }
    assert forall|l: int|
        #![trigger loop_link(body, base, l)]
        0 <= l < count implies all[loops_at(body, base) + l] == retold(
        blank[loops_at(body, base) + l],
        loop_link(body, base, l),
    ) by {
        let id = loops_at(body, base) + l;
        assert(all[id] == first[id] && sofar[id] == blank[id]);
    }
    assert forall|l: int, o: int|
        0 <= l < count && 0 <= o < body.loops@[l].coedges@.len() && is_last_place(
            body,
            l,
            o,
            count,
        ) implies is_coedge(
        body,
        base,
        l,
        o,
        all[coedge_id(body, base, #[trigger] body.loops@[l].coedges@[o] as int)],
    ) by {
        let key = body.loops@[l].coedges@[o] as int;
        let id = coedge_id(body, base, key);
        assert(key < body.coedges@.len());
        a_coedge_is_linked(body, base, l, o);
        assert(coedge_stands(body, before, blank, key));
        assert(first[coedge_link(body, base, l, o).id] == retold(
            sofar[id],
            coedge_link(body, base, l, o),
        ));
        assert(all[id] == first[id] && sofar[id] == blank[id]);
    }
    assert forall|c: int| 0 <= c < body.coedges@.len() && is_in_no_loop(body, c, count) implies
        is_blank(all, #[trigger] coedge_id(body, base, c), "coedge"@) by {
        let id = coedge_id(body, base, c);
        assert(coedge_stands(body, before, blank, c));
        assert(all[id] == first[id] && first[id] == sofar[id] && sofar[id] == blank[id]);
    }
}

/// A body with a face whose shell is missing leaves every record behind.
/// Everything up to the loops is linked, and the faces before that one are.
pub proof fn refused_faces_leave(body: Body, before: Seq<RecordView>, f: int)
    requires
        gets_linked(body),
        end_at(body, before.len() as int) <= i32::MAX,
        forall|l: int| 0 <= l < body.loops@.len() ==> #[trigger] hangs_together(body, l),
        0 <= f < body.faces@.len(),
        forall|g: int| 0 <= g < f ==> (#[trigger] body.faces@[g]).owner < body.shells@.len(),
        body.faces@[f].owner >= body.shells@.len(),
    ensures
        ({
            let base = before.len() as int;
            let all = outcome(body, before).records;
            &&& all.len() == end_at(body, base)
            &&& forall|i: int| 0 <= i < before.len() ==> #[trigger] all[i] == before[i]
            &&& ends_are_linked(body, base, all)
            &&& coedges_are_linked(body, base, all)
            &&& are_linked(body, base, all, body.loops@.len() as int, f, 0)
        }),
{
    let base = before.len() as int;
    let blank = unlinked(body, before);
    let count = body.loops@.len() as int;
    let faces = face_links(body, base, f as nat);
    let first = linked(blank, links_to_loops(body, base));
    let all = linked(first, faces);
    let face = |g: int| body.faces@[g].owner < body.shells@.len();
    the_second_pass_is_reached(body, before);
    loops_are_counted(body, count);
    assert forall|g: int| 0 <= g < f implies #[trigger] face(g) by {}
    leading_is_unique(body.faces@.len(), face, f as nat);
    assert(faces_known(body) == f);
    links_in_two_goes(blank, links_to_loops(body, base), faces);
    assert(all == outcome(body, before).records);
    coedges_in_range(body, base);
    rings_stay_linked(body, before, first);
    links_of_a_row(first, faces, faces_at(body, base), faces_at(body, base) + f);
    rings_stay_linked(body, before, all);
    assert(rows_are_told(body, base, blank, all, count, f, 0)) by {
        assert forall|g: int|
            #![trigger face_link(body, base, g)]
            0 <= g < f implies all[faces_at(body, base) + g] == retold(
            blank[faces_at(body, base) + g],
            face_link(body, base, g),
        ) by {
            let id = faces_at(body, base) + g;
            assert(faces[g] == face_link(body, base, g));
            assert(first[id] == blank[id]);
        }
        assert forall|i: int|
            loops_at(body, base) + count <= i < faces_at(body, base) || faces_at(body, base) + f
                <= i < shells_at(body, base) || shells_at(body, base) <= i < end_at(
                body,
                base,
            ) implies #[trigger] all[i] == blank[i] by {
            assert(all[i] == first[i] && first[i] == blank[i]);
        }
    }
    rows_are_linked(body, before, all, count, f, 0);
}

/// A body with a shell whose lump is missing leaves every record behind.
/// Everything up to the faces is linked, and the shells before that one are.
pub proof fn refused_shells_leave(body: Body, before: Seq<RecordView>, s: int)
    requires
        gets_linked(body),
        end_at(body, before.len() as int) <= i32::MAX,
        forall|l: int| 0 <= l < body.loops@.len() ==> #[trigger] hangs_together(body, l),
        forall|f: int|
            0 <= f < body.faces@.len() ==> (#[trigger] body.faces@[f]).owner < body.shells@.len(),
        0 <= s < body.shells@.len(),
        forall|t: int| 0 <= t < s ==> (#[trigger] body.shells@[t]).owner < body.lumps@.len(),
        body.shells@[s].owner >= body.lumps@.len(),
    ensures
        ({
            let base = before.len() as int;
            let all = outcome(body, before).records;
            &&& all.len() == end_at(body, base)
            &&& forall|i: int| 0 <= i < before.len() ==> #[trigger] all[i] == before[i]
            &&& ends_are_linked(body, base, all)
            &&& coedges_are_linked(body, base, all)
            &&& are_linked(
                body,
                base,
                all,
                body.loops@.len() as int,
                body.faces@.len() as int,
                s,
            )
        }),
{
    let base = before.len() as int;
    let blank = unlinked(body, before);
    let count = body.loops@.len() as int;
    let many = body.faces@.len() as int;
    let faces = face_links(body, base, body.faces@.len());
    let shells = shell_links(body, base, s as nat);
    let first = linked(blank, links_to_loops(body, base));
    let second = linked(first, faces);
    let all = linked(second, shells);
    let face = |g: int| body.faces@[g].owner < body.shells@.len();
    let shell = |t: int| body.shells@[t].owner < body.lumps@.len();
    the_second_pass_is_reached(body, before);
    loops_are_counted(body, count);
    assert forall|g: int| 0 <= g < many implies #[trigger] face(g) by {}
    leading_is_unique(body.faces@.len(), face, body.faces@.len());
    assert forall|t: int| 0 <= t < s implies #[trigger] shell(t) by {}
    leading_is_unique(body.shells@.len(), shell, s as nat);
    assert(faces_known(body) == many && shells_known(body) == s);
    links_in_two_goes(blank, links_to_loops(body, base), faces);
    links_in_two_goes(blank, links_to_faces(body, base), shells);
    assert(all == outcome(body, before).records);
    coedges_in_range(body, base);
    rings_stay_linked(body, before, first);
    links_of_a_row(first, faces, faces_at(body, base), shells_at(body, base));
    links_of_a_row(second, shells, shells_at(body, base), shells_at(body, base) + s);
    assert forall|i: int| 0 <= i < faces_at(body, base) implies #[trigger] all[i] == first[i] by {
        assert(all[i] == second[i] && second[i] == first[i]);
    }
    rings_stay_linked(body, before, all);
    assert(rows_are_told(body, base, blank, all, count, many, s)) by {
        assert forall|g: int|
            #![trigger face_link(body, base, g)]
            0 <= g < many implies all[faces_at(body, base) + g] == retold(
            blank[faces_at(body, base) + g],
            face_link(body, base, g),
        ) by {
            let id = faces_at(body, base) + g;
            assert(faces[g] == face_link(body, base, g));
            assert(all[id] == second[id] && first[id] == blank[id]);
        }
        assert forall|t: int|
            #![trigger shell_link(body, base, t)]
            0 <= t < s implies all[shells_at(body, base) + t] == retold(
            blank[shells_at(body, base) + t],
            shell_link(body, base, t),
        ) by {
            let id = shells_at(body, base) + t;
            assert(shells[t] == shell_link(body, base, t));
            assert(second[id] == first[id] && first[id] == blank[id]);
        }
        assert forall|i: int|
            loops_at(body, base) + count <= i < faces_at(body, base) || faces_at(body, base) + many
                <= i < shells_at(body, base) || shells_at(body, base) + s <= i < end_at(
                body,
                base,
            ) implies #[trigger] all[i] == blank[i] by {
            assert(all[i] == second[i] && second[i] == first[i] && first[i] == blank[i]);
        }
    }
    rows_are_linked(body, before, all, count, many, s);
}

} // verus!
