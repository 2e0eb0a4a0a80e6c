//! What a body looks like as records.
//!
//! Records are allocated before their circular topology pointers are filled.
//! The first part of this module says which records a body becomes and where
//! each one goes; the second part says what the records point at; the third
//! part puts both together into what appending does.

use vstd::prelude::*;
use crate::append::{Unappendable, Written};
use crate::body::Body;
use crate::entities::entity;
use crate::geometry::Surface;
use crate::ids::next_record;
use crate::records::{null_view, sense_view};
use crate::splines::{curve_entry, pcurve_entry, pcurve_form, surface_entry, PcurveForm};
use crate::token::{HeaderView, RecordView, TokenView};

verus! {

/// How many of `count` things in a row, from the first one on, are all right.
pub open spec fn leading(count: nat, right: spec_fn(int) -> bool) -> nat
    decreases count,
{
    if count == 0 {
        0
    } else {
        let before = leading((count - 1) as nat, right);
        if before == count - 1 && right(count - 1) {
            count
        } else {
            before
        }
    }
}

/// [`leading`] counts up to the first thing that is not right.
pub proof fn leading_stops_at_the_first(count: nat, right: spec_fn(int) -> bool)
    ensures
        leading(count, right) <= count,
        forall|i: int| 0 <= i < leading(count, right) ==> #[trigger] right(i),
        leading(count, right) < count ==> !right(leading(count, right) as int),
    decreases count,
{
    if count > 0 {
        leading_stops_at_the_first((count - 1) as nat, right);
    }
}

/// Where [`leading`] stops is the only place that it can stop at.
pub proof fn leading_is_unique(count: nat, right: spec_fn(int) -> bool, stop: nat)
    requires
        stop <= count,
        forall|i: int| 0 <= i < stop ==> #[trigger] right(i),
        stop < count ==> !right(stop as int),
    ensures
        leading(count, right) == stop,
{
    leading_stops_at_the_first(count, right);
}

// Which records there are.

/// The spline form of the parameter-space curve of a coedge, where it has one.
pub open spec fn pcurve_of(body: Body, c: int) -> Option<PcurveForm> {
    match body.coedges@[c].pcurve {
        Some(curve) => pcurve_form(curve),
        None => None,
    }
}

/// How many of the first `n` coedges have a record for their curve.
pub open spec fn pcurves_before(body: Body, n: int) -> nat
    decreases n,
{
    if n <= 0 {
        0
    } else {
        pcurves_before(body, n - 1) + if pcurve_of(body, n - 1) is Some {
            1nat
        } else {
            0nat
        }
    }
}

/// The index of the point of a vertex. `base` is the number of records there
/// were before, here and below.
pub open spec fn point_id(base: int, v: int) -> int {
    base + 2 * v
}

/// The index of a vertex.
pub open spec fn vertex_id(base: int, v: int) -> int {
    base + 2 * v + 1
}

/// The index of the first curve.
pub open spec fn curves_at(body: Body, base: int) -> int {
    base + 2 * body.vertices@.len()
}

/// The index of the first surface.
pub open spec fn surfaces_at(body: Body, base: int) -> int {
    curves_at(body, base) + body.curves@.len()
}

/// The index of the first edge.
pub open spec fn edges_at(body: Body, base: int) -> int {
    surfaces_at(body, base) + body.surfaces@.len()
}

/// The index of the first coedge, or of its curve.
pub open spec fn coedges_at(body: Body, base: int) -> int {
    edges_at(body, base) + body.edges@.len()
}

/// The index of a coedge. Its curve, where that has a record, stands before it.
pub open spec fn coedge_id(body: Body, base: int, c: int) -> int {
    coedges_at(body, base) + c + pcurves_before(body, c + 1)
}

/// The index of the first loop.
pub open spec fn loops_at(body: Body, base: int) -> int {
    coedges_at(body, base) + body.coedges@.len() + pcurves_before(body, body.coedges@.len() as int)
}

/// The index of the first face.
pub open spec fn faces_at(body: Body, base: int) -> int {
    loops_at(body, base) + body.loops@.len()
}

/// The index of the first shell.
pub open spec fn shells_at(body: Body, base: int) -> int {
    faces_at(body, base) + body.faces@.len()
}

/// The index of the first lump.
pub open spec fn lumps_at(body: Body, base: int) -> int {
    shells_at(body, base) + body.shells@.len()
}

/// The index of the body.
pub open spec fn body_at(body: Body, base: int) -> int {
    lumps_at(body, base) + body.lumps@.len()
}

/// The number of records that the document has in the end.
pub open spec fn end_at(body: Body, base: int) -> int {
    body_at(body, base) + 1
}

/// `before`, and behind it the records of the first `n` vertices: for each one
/// its point and itself.
pub open spec fn with_vertices(body: Body, before: Seq<RecordView>, n: int) -> Seq<RecordView>
    decreases n,
{
    if n <= 0 {
        before
    } else {
        let sofar = with_vertices(body, before, n - 1);
        let point = seq![TokenView::Position(body.vertices@[n - 1].point)];
        sofar.push(entity(sofar.len() as int, "point"@, point)).push(
            entity((sofar.len() + 1) as int, "vertex"@, Seq::empty()),
        )
    }
}

/// All vertices, and behind them the records of the first `n` curves.
pub open spec fn with_curves(body: Body, before: Seq<RecordView>, n: int) -> Seq<RecordView>
    decreases n,
{
    if n <= 0 {
        with_vertices(body, before, body.vertices@.len() as int)
    } else {
        let sofar = with_curves(body, before, n - 1);
        sofar.push(curve_entry(body.curves@[n - 1], sofar.len() as int).unwrap())
    }
}

/// All curves, and behind them the records of the first `n` surfaces.
pub open spec fn with_surfaces(body: Body, before: Seq<RecordView>, n: int) -> Seq<RecordView>
    decreases n,
{
    if n <= 0 {
        with_curves(body, before, body.curves@.len() as int)
    } else {
        let sofar = with_surfaces(body, before, n - 1);
        sofar.push(surface_entry(body.surfaces@[n - 1], sofar.len() as int).unwrap())
    }
}

/// The records given, and behind them `n` of one kind with nothing in them.
pub open spec fn with_blanks(sofar: Seq<RecordView>, kind: Seq<char>, n: int) -> Seq<RecordView>
    decreases n,
{
    if n <= 0 {
        sofar
    } else {
        let shorter = with_blanks(sofar, kind, n - 1);
        shorter.push(entity(shorter.len() as int, kind, Seq::empty()))
    }
}

/// All surfaces, and behind them all edges.
pub open spec fn with_edges(body: Body, before: Seq<RecordView>) -> Seq<RecordView> {
    with_blanks(
        with_surfaces(body, before, body.surfaces@.len() as int),
        "edge"@,
        body.edges@.len() as int,
    )
}

/// The key of the face that a coedge runs around, where there is one.
pub open spec fn face_of(body: Body, c: int) -> Option<int> {
    let ring = body.coedges@[c].owner;
    if ring < body.loops@.len() && body.loops@[ring as int].owner < body.faces@.len() {
        Some(body.loops@[ring as int].owner as int)
    } else {
        None
    }
}

/// The records given, and behind them those of one coedge: its curve, where
/// that has a spline form, and itself.
pub open spec fn with_coedge(body: Body, sofar: Seq<RecordView>, base: int, c: int) -> Seq<
    RecordView,
> {
    let curved = match pcurve_of(body, c) {
        Some(form) => sofar.push(
            pcurve_entry(
                form,
                sofar,
                surface_ref(body, base, body.faces@[face_of(body, c).unwrap()].surface),
            ),
        ),
        None => sofar,
    };
    curved.push(entity(curved.len() as int, "coedge"@, Seq::empty()))
}

/// All edges, and behind them the records of the first `n` coedges.
pub open spec fn with_coedges(body: Body, before: Seq<RecordView>, n: int) -> Seq<RecordView>
    decreases n,
{
    if n <= 0 {
        with_edges(body, before)
    } else {
        with_coedge(body, with_coedges(body, before, n - 1), before.len() as int, n - 1)
    }
}

/// Every record of the body, with its geometry but without its pointers.
pub open spec fn unlinked(body: Body, before: Seq<RecordView>) -> Seq<RecordView> {
    let coedges = with_coedges(body, before, body.coedges@.len() as int);
    let loops = with_blanks(coedges, "loop"@, body.loops@.len() as int);
    let faces = with_blanks(loops, "face"@, body.faces@.len() as int);
    let shells = with_blanks(faces, "shell"@, body.shells@.len() as int);
    let lumps = with_blanks(shells, "lump"@, body.lumps@.len() as int);
    with_blanks(lumps, "body"@, 1)
}

// What they point at.

/// The index of the entity with a key, in a list of `count` whose first one has
/// the index `first`. Null for a key that refers to nothing.
pub open spec fn place(count: nat, first: int, key: usize) -> int {
    if key < count {
        first + key
    } else {
        -1
    }
}

/// The indices of a list of `count` entities whose first one has the index
/// `first`.
pub open spec fn places(count: nat, first: int) -> Map<usize, i32> {
    Map::new(|key: usize| key < count, |key: usize| (first + key) as i32)
}

/// The index of a vertex, or null.
pub open spec fn vertex_ref(body: Body, base: int, key: usize) -> int {
    if key < body.vertices@.len() {
        vertex_id(base, key as int)
    } else {
        -1
    }
}

/// The index of a curve, or null.
pub open spec fn curve_ref(body: Body, base: int, key: usize) -> int {
    place(body.curves@.len(), curves_at(body, base), key)
}

/// The index of a surface, or null.
pub open spec fn surface_ref(body: Body, base: int, key: usize) -> int {
    place(body.surfaces@.len(), surfaces_at(body, base), key)
}

/// The index of an edge, or null.
pub open spec fn edge_ref(body: Body, base: int, key: usize) -> int {
    place(body.edges@.len(), edges_at(body, base), key)
}

/// The index of a coedge, or null.
pub open spec fn coedge_ref(body: Body, base: int, key: usize) -> int {
    if key < body.coedges@.len() {
        coedge_id(body, base, key as int)
    } else {
        -1
    }
}

/// The index of the curve of a coedge, or null.
pub open spec fn pcurve_ref(body: Body, base: int, key: usize) -> int {
    if key < body.coedges@.len() && pcurve_of(body, key as int) is Some {
        coedge_id(body, base, key as int) - 1
    } else {
        -1
    }
}

/// The index of a loop, or null.
pub open spec fn loop_ref(body: Body, base: int, key: usize) -> int {
    place(body.loops@.len(), loops_at(body, base), key)
}

/// The index of a face, or null.
pub open spec fn face_ref(body: Body, base: int, key: usize) -> int {
    place(body.faces@.len(), faces_at(body, base), key)
}

/// The index of a shell, or null.
pub open spec fn shell_ref(body: Body, base: int, key: usize) -> int {
    place(body.shells@.len(), shells_at(body, base), key)
}

/// The index of a lump, or null.
pub open spec fn lump_ref(body: Body, base: int, key: usize) -> int {
    place(body.lumps@.len(), lumps_at(body, base), key)
}

/// Whether an edge starts or ends at a vertex.
pub open spec fn touches(body: Body, e: int, v: int) -> bool {
    body.edges@[e].start == v || body.edges@[e].end == v
}

/// The key of the first edge at a vertex; past the last edge where there is
/// none.
pub open spec fn first_edge(body: Body, v: int) -> nat {
    leading(body.edges@.len(), |e: int| !touches(body, e, v))
}

/// New tokens for the record with an index.
#[verifier::ext_equal]
pub struct Link {
    pub id: int,
    pub tokens: Seq<TokenView>,
}

/// A vertex points at the first edge there is at it, and at its point.
pub open spec fn vertex_link(body: Body, base: int, v: int) -> Link {
    let edge = first_edge(body, v);
    Link {
        id: vertex_id(base, v),
        tokens: seq![
            null_view(),
            TokenView::Pointer(
                if edge < body.edges@.len() {
                    edges_at(body, base) + edge
                } else {
                    -1
                },
            ),
            TokenView::Pointer(point_id(base, v)),
        ],
    }
}

/// An edge points at its vertices, with the parameter at each, at its first
/// coedge and at its curve, whose way it runs. A counted string ends it: strict
/// readers expect that after the sense.
pub open spec fn edge_link(body: Body, base: int, e: int) -> Link {
    let edge = body.edges@[e];
    Link {
        id: edges_at(body, base) + e,
        tokens: seq![
            null_view(),
            TokenView::Pointer(vertex_ref(body, base, edge.start)),
            TokenView::Float(edge.start_parameter),
            TokenView::Pointer(vertex_ref(body, base, edge.end)),
            TokenView::Float(edge.end_parameter),
            TokenView::Pointer(
                if edge.coedges@.len() > 0 {
                    coedge_ref(body, base, edge.coedges@[0])
                } else {
                    -1
                },
            ),
            TokenView::Pointer(curve_ref(body, base, edge.curve)),
            sense_view(true),
            TokenView::Text("unknown"@),
        ],
    }
}

/// The coedge at one place of a loop points at those after and before it in the
/// ring, at its partner, its edge, the loop and its curve.
pub open spec fn coedge_link(body: Body, base: int, l: int, order: int) -> Link {
    let ring = body.loops@[l].coedges@;
    let count = ring.len() as int;
    let key = ring[order];
    let coedge = body.coedges@[key as int];
    Link {
        id: coedge_ref(body, base, key),
        tokens: seq![
            null_view(),
            TokenView::Pointer(coedge_ref(body, base, ring[(order + 1) % count])),
            TokenView::Pointer(coedge_ref(body, base, ring[(order + count - 1) % count])),
            TokenView::Pointer(
                match coedge.partner {
                    Some(partner) => coedge_ref(body, base, partner),
                    None => -1,
                },
            ),
            TokenView::Pointer(edge_ref(body, base, coedge.edge)),
            sense_view(coedge.forward),
            TokenView::Pointer(loops_at(body, base) + l),
            TokenView::Pointer(pcurve_ref(body, base, key)),
        ],
    }
}

/// A loop points at the next one of its face, at its first coedge and at the
/// face.
pub open spec fn loop_link(body: Body, base: int, l: int) -> Link {
    let ring = body.loops@[l];
    let siblings = body.faces@[ring.owner as int].loops@;
    let ids = places(body.loops@.len(), loops_at(body, base));
    Link {
        id: loops_at(body, base) + l,
        tokens: seq![
            null_view(),
            TokenView::Pointer(next_record(siblings, l as usize, ids)),
            TokenView::Pointer(
                if ring.coedges@.len() > 0 {
                    coedge_ref(body, base, ring.coedges@[0])
                } else {
                    -1
                },
            ),
            TokenView::Pointer(face_ref(body, base, ring.owner)),
        ],
    }
}

/// A face points at the next one of its shell, at its first loop, at the shell
/// and at its surface.
pub open spec fn face_link(body: Body, base: int, f: int) -> Link {
    let face = body.faces@[f];
    let siblings = body.shells@[face.owner as int].faces@;
    let ids = places(body.faces@.len(), faces_at(body, base));
    Link {
        id: faces_at(body, base) + f,
        tokens: seq![
            null_view(),
            TokenView::Pointer(next_record(siblings, f as usize, ids)),
            TokenView::Pointer(
                if face.loops@.len() > 0 {
                    loop_ref(body, base, face.loops@[0])
                } else {
                    -1
                },
            ),
            TokenView::Pointer(shell_ref(body, base, face.owner)),
            null_view(),
            TokenView::Pointer(surface_ref(body, base, face.surface)),
            sense_view(face.forward),
            TokenView::Ident("single"@),
        ],
    }
}

/// A shell points at the next one of its lump, at its first face and at the
/// lump.
pub open spec fn shell_link(body: Body, base: int, s: int) -> Link {
    let shell = body.shells@[s];
    let siblings = body.lumps@[shell.owner as int].shells@;
    let ids = places(body.shells@.len(), shells_at(body, base));
    Link {
        id: shells_at(body, base) + s,
        tokens: seq![
            null_view(),
            TokenView::Pointer(next_record(siblings, s as usize, ids)),
            null_view(),
            TokenView::Pointer(
                if shell.faces@.len() > 0 {
                    face_ref(body, base, shell.faces@[0])
                } else {
                    -1
                },
            ),
            null_view(),
            TokenView::Pointer(lump_ref(body, base, shell.owner)),
        ],
    }
}

/// A lump points at the next one of the body, at its first shell and at the
/// body.
pub open spec fn lump_link(body: Body, base: int, l: int) -> Link {
    let lump = body.lumps@[l];
    let ids = places(body.lumps@.len(), lumps_at(body, base));
    Link {
        id: lumps_at(body, base) + l,
        tokens: seq![
            null_view(),
            TokenView::Pointer(next_record(body.roots@, l as usize, ids)),
            TokenView::Pointer(
                if lump.shells@.len() > 0 {
                    shell_ref(body, base, lump.shells@[0])
                } else {
                    -1
                },
            ),
            TokenView::Pointer(body_at(body, base)),
        ],
    }
}

/// The body points at its first lump.
pub open spec fn body_link(body: Body, base: int) -> Link {
    Link {
        id: body_at(body, base),
        tokens: seq![
            null_view(),
            TokenView::Pointer(
                if body.roots@.len() > 0 {
                    lump_ref(body, base, body.roots@[0])
                } else {
                    -1
                },
            ),
            null_view(),
            null_view(),
        ],
    }
}

/// The links of the first `n` vertices.
pub open spec fn vertex_links(body: Body, base: int, n: nat) -> Seq<Link> {
    Seq::new(n, |v: int| vertex_link(body, base, v))
}

/// The links of the first `n` edges.
pub open spec fn edge_links(body: Body, base: int, n: nat) -> Seq<Link> {
    Seq::new(n, |e: int| edge_link(body, base, e))
}

/// The links of all vertices, then those of all edges.
pub open spec fn links_to_edges(body: Body, base: int) -> Seq<Link> {
    vertex_links(body, base, body.vertices@.len()) + edge_links(body, base, body.edges@.len())
}

/// The links of the first `n` coedges around a loop.
pub open spec fn ring_links(body: Body, base: int, l: int, n: nat) -> Seq<Link> {
    Seq::new(n, |order: int| coedge_link(body, base, l, order))
}

/// The links of the first `n` loops, each behind those of its coedges.
pub open spec fn loop_links(body: Body, base: int, n: int) -> Seq<Link>
    decreases n,
{
    if n <= 0 {
        Seq::empty()
    } else {
        (loop_links(body, base, n - 1) + ring_links(
            body,
            base,
            n - 1,
            body.loops@[n - 1].coedges@.len(),
        )).push(loop_link(body, base, n - 1))
    }
}

/// The links of the first `n` faces.
pub open spec fn face_links(body: Body, base: int, n: nat) -> Seq<Link> {
    Seq::new(n, |f: int| face_link(body, base, f))
}

/// The links of the first `n` shells.
pub open spec fn shell_links(body: Body, base: int, n: nat) -> Seq<Link> {
    Seq::new(n, |s: int| shell_link(body, base, s))
}

/// The links of the first `n` lumps.
pub open spec fn lump_links(body: Body, base: int, n: nat) -> Seq<Link> {
    Seq::new(n, |l: int| lump_link(body, base, l))
}

/// The links of the vertices, the edges and all loops.
pub open spec fn links_to_loops(body: Body, base: int) -> Seq<Link> {
    links_to_edges(body, base) + loop_links(body, base, body.loops@.len() as int)
}

/// Those, and behind them the links of all faces.
pub open spec fn links_to_faces(body: Body, base: int) -> Seq<Link> {
    links_to_loops(body, base) + face_links(body, base, body.faces@.len())
}

/// Those, and behind them the links of all shells.
pub open spec fn links_to_shells(body: Body, base: int) -> Seq<Link> {
    links_to_faces(body, base) + shell_links(body, base, body.shells@.len())
}

/// Every link of the body, in the order in which they are made.
pub open spec fn all_links(body: Body, base: int) -> Seq<Link> {
    (links_to_shells(body, base) + lump_links(body, base, body.lumps@.len())).push(
        body_link(body, base),
    )
}

/// The records with one link made.
pub open spec fn with_link(records: Seq<RecordView>, link: Link) -> Seq<RecordView> {
    records.update(link.id, RecordView { tokens: link.tokens, ..records[link.id] })
}

/// The records with the links made, one after the other.
pub open spec fn linked(records: Seq<RecordView>, links: Seq<Link>) -> Seq<RecordView>
    decreases links.len(),
{
    if links.len() == 0 {
        records
    } else {
        with_link(linked(records, links.drop_last()), links.last())
    }
}

// What appending does.

/// How many curves there are before the first one that has no record.
pub open spec fn curves_written(body: Body) -> nat {
    leading(body.curves@.len(), |k: int| curve_entry(body.curves@[k], 0) is Some)
}

/// How many surfaces there are before the first one that has no record.
pub open spec fn surfaces_written(body: Body) -> nat {
    leading(body.surfaces@.len(), |k: int| surface_entry(body.surfaces@[k], 0) is Some)
}

/// Whether a key refers to a spline surface.
pub open spec fn on_spline(body: Body, key: usize) -> bool {
    key < body.surfaces@.len() && body.surfaces@[key as int] is Nurbs
}

/// What is wrong with a coedge that has a curve: there is no face for the curve
/// to lie on, or the face is one of a spline surface, which needs the curve,
/// and the curve has no spline form.
pub open spec fn coedge_fault(body: Body, c: int) -> Option<Unappendable> {
    match body.coedges@[c].pcurve {
        None => None,
        Some(curve) => match face_of(body, c) {
            None => Some(Unappendable::Inconsistent),
            Some(f) => if pcurve_form(curve) is None && on_spline(body, body.faces@[f].surface) {
                Some(Unappendable::Curve)
            } else {
                None
            },
        },
    }
}

/// How many coedges there are before the first one with something wrong.
pub open spec fn coedges_written(body: Body) -> nat {
    leading(body.coedges@.len(), |c: int| coedge_fault(body, c) is None)
}

/// How many coedges of a loop there are before the first key that refers to
/// nothing.
pub open spec fn coedges_known(body: Body, l: int) -> nat {
    let ring = body.loops@[l].coedges@;
    leading(ring.len(), |order: int| ring[order] < body.coedges@.len())
}

/// Whether a loop hangs together: all its coedges are there, and so is its face.
pub open spec fn loop_holds(body: Body, l: int) -> bool {
    &&& coedges_known(body, l) == body.loops@[l].coedges@.len()
    &&& body.loops@[l].owner < body.faces@.len()
}

/// How many loops there are before the first one that does not hang together.
pub open spec fn loops_known(body: Body) -> nat {
    leading(body.loops@.len(), |l: int| loop_holds(body, l))
}

/// How many faces there are before the first one whose shell is missing.
pub open spec fn faces_known(body: Body) -> nat {
    leading(body.faces@.len(), |f: int| body.faces@[f].owner < body.shells@.len())
}

/// How many shells there are before the first one whose lump is missing.
pub open spec fn shells_known(body: Body) -> nat {
    leading(body.shells@.len(), |s: int| body.shells@[s].owner < body.lumps@.len())
}

/// What comes of appending: what is returned, and the records afterwards.
pub struct Outcome {
    pub result: Result<Written, Unappendable>,
    pub records: Seq<RecordView>,
}

/// What comes of the first pass, where that stops early.
pub open spec fn stopped_while_allocating(body: Body, before: Seq<RecordView>) -> Option<Outcome> {
    if body.faults@.len() > 0 {
        Some(Outcome { result: Err(Unappendable::Inconsistent), records: before })
    } else if curves_written(body) < body.curves@.len() {
        Some(
            Outcome {
                result: Err(Unappendable::Curve),
                records: with_curves(body, before, curves_written(body) as int),
            },
        )
    } else if surfaces_written(body) < body.surfaces@.len() {
        Some(
            Outcome {
                result: Err(Unappendable::Surface),
                records: with_surfaces(body, before, surfaces_written(body) as int),
            },
        )
    } else if coedges_written(body) < body.coedges@.len() {
        Some(
            Outcome {
                result: Err(coedge_fault(body, coedges_written(body) as int).unwrap()),
                records: with_coedges(body, before, coedges_written(body) as int),
            },
        )
    } else {
        None
    }
}

/// The links that are made before the second pass stops, where it stops early.
pub open spec fn stopped_while_linking(body: Body, base: int) -> Option<Seq<Link>> {
    let l = loops_known(body) as int;
    if l < body.loops@.len() {
        Some(
            links_to_edges(body, base) + loop_links(body, base, l) + ring_links(
                body,
                base,
                l,
                coedges_known(body, l),
            ),
        )
    } else if faces_known(body) < body.faces@.len() {
        Some(links_to_loops(body, base) + face_links(body, base, faces_known(body)))
    } else if shells_known(body) < body.shells@.len() {
        Some(links_to_faces(body, base) + shell_links(body, base, shells_known(body)))
    } else {
        None
    }
}

/// What comes of appending a body to a document with the given records. Records
/// that were added before something was found wrong stay.
pub open spec fn outcome(body: Body, before: Seq<RecordView>) -> Outcome {
    let base = before.len() as int;
    match stopped_while_allocating(body, before) {
        Some(outcome) => outcome,
        None => match stopped_while_linking(body, base) {
            Some(links) => Outcome {
                result: Err(Unappendable::Inconsistent),
                records: linked(unlinked(body, before), links),
            },
            None => Outcome {
                result: Ok(
                    Written {
                        body: body_at(body, base) as i32,
                        records: (end_at(body, base) - base) as usize,
                    },
                ),
                records: linked(unlinked(body, before), all_links(body, base)),
            },
        },
    }
}

/// What appending does to the header: it announces the new number of records,
/// where there are new ones, and one body more, where one was written.
pub open spec fn header_outcome(
    header: HeaderView,
    before: nat,
    after: nat,
    written: bool,
) -> HeaderView {
    HeaderView {
        num_records: if after > before {
            after
        } else {
            header.num_records
        },
        num_bodies: if written {
            header.num_bodies + 1
        } else {
            header.num_bodies
        },
        ..header
    }
}

} // verus!
