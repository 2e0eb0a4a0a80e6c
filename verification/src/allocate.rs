//! The first pass: every record, with its geometry but no pointers.

use std::collections::HashMap;
use vstd::prelude::*;
use acadrust::entities::acis::types::SatDocument;
use crate::append::Unappendable;
use crate::body::Body;
use crate::document::{can_support, header, points_nowhere, records};
use crate::entities::{add_entity, entity};
use crate::geometry::Surface;
use crate::ids::lookup;
use crate::layout::{
    body_at, coedge_fault, coedge_id, coedges_at, coedges_written, curves_at, curves_written,
    edges_at, end_at, face_of, faces_at, header_outcome, leading_is_unique,
    leading_stops_at_the_first, loops_at, lumps_at, pcurve_of, pcurves_before, places, point_id,
    shells_at, stopped_while_allocating, surface_ref, surfaces_at, surfaces_written, unlinked,
    vertex_id, with_blanks, with_coedge, with_coedges, with_curves, with_edges, with_surfaces,
    with_vertices, Outcome,
};
use crate::legible::{legible, legible_until, plain, readable};
use crate::limits::{
    coedge_reads, coedge_ready, coedges_ready, curves_ready, no_more_than_there_is, reads, ready,
    surfaces_ready, written_until,
};
use crate::records::position;
use crate::shape::{
    blanks_stand, coedges_stand, curves_stand, grows, pcurves_increase, records_stand,
    surfaces_stand, vertices_stand,
};
use crate::splines::{add_curve, add_pcurve, add_surface, curve_entry, pcurve_form, surface_entry};
use crate::token::{token_views, RecordView, Token, TokenView};

verus! {

/// Which record each entity became.
pub(crate) struct Ids {
    pub points: HashMap<usize, i32>,
    pub vertices: HashMap<usize, i32>,
    pub curves: HashMap<usize, i32>,
    pub surfaces: HashMap<usize, i32>,
    pub edges: HashMap<usize, i32>,
    pub coedges: HashMap<usize, i32>,
    pub pcurves: HashMap<usize, i32>,
    pub loops: HashMap<usize, i32>,
    pub faces: HashMap<usize, i32>,
    pub shells: HashMap<usize, i32>,
    pub lumps: HashMap<usize, i32>,
}

/// Whether no record from `base` on points at another one or holds a binary
/// token.
pub open spec fn quiet(all: Seq<RecordView>, base: int) -> bool {
    &&& forall|i: int| base <= i < all.len() ==> points_nowhere((#[trigger] all[i]).tokens)
    &&& forall|i: int| base <= i < all.len() ==> plain((#[trigger] all[i]).tokens)
}

/// The indices of the points of `n` vertices.
pub open spec fn point_places(n: nat, base: int) -> Map<usize, i32> {
    Map::new(|key: usize| key < n, |key: usize| point_id(base, key as int) as i32)
}

/// The indices of `n` vertices.
pub open spec fn vertex_places(n: nat, base: int) -> Map<usize, i32> {
    Map::new(|key: usize| key < n, |key: usize| vertex_id(base, key as int) as i32)
}

/// Adds records of one kind with nothing in them.
fn add_blanks(document: &mut SatDocument, kind: &str, count: usize) -> (ids: HashMap<usize, i32>)
    requires
        records(*old(document)).len() + count <= i32::MAX,
    ensures
        records(*final(document)) == with_blanks(records(*old(document)), kind@, count as int),
        ids@ == places(count as nat, records(*old(document)).len() as int),
        quiet(records(*final(document)), records(*old(document)).len() as int),
        header(*final(document)) == header_outcome(
            header(*old(document)),
            records(*old(document)).len(),
            records(*final(document)).len(),
            false,
        ),
{
    let ghost sofar = records(*document);
    let ghost announced = header(*document);
    let mut ids: HashMap<usize, i32> = HashMap::new();
    let mut i: usize = 0;
    proof {
        assert(ids@ =~= places(0, sofar.len() as int));
    }
    while i < count
        invariant
            i <= count,
            sofar.len() + count <= i32::MAX,
            records(*document) == with_blanks(sofar, kind@, i as int),
            records(*document).len() == sofar.len() + i,
            ids@ == places(i as nat, sofar.len() as int),
            quiet(records(*document), sofar.len() as int),
            header(*document) == header_outcome(
                announced,
                sofar.len(),
                records(*document).len(),
                false,
            ),
        decreases count - i,
    {
        let id: i32 = add_entity(document, kind, Vec::new());
        proof {
            assert(token_views(Seq::<Token>::empty()) =~= Seq::<TokenView>::empty());
        }
        ids.insert(i, id);
        proof {
            assert(ids@ =~= places((i + 1) as nat, sofar.len() as int));
        }
        i = i + 1;
    }
    ids
}

/// Adds the point and the record of every vertex.
fn add_vertices(body: &Body, document: &mut SatDocument) -> (ids: (
    HashMap<usize, i32>,
    HashMap<usize, i32>,
))
    requires
        records(*old(document)).len() + 2 * body.vertices@.len() <= i32::MAX,
    ensures
        records(*final(document)) == with_vertices(
            *body,
            records(*old(document)),
            body.vertices@.len() as int,
        ),
        ids.0@ == point_places(body.vertices@.len(), records(*old(document)).len() as int),
        ids.1@ == vertex_places(body.vertices@.len(), records(*old(document)).len() as int),
        quiet(records(*final(document)), records(*old(document)).len() as int),
        header(*final(document)) == header_outcome(
            header(*old(document)),
            records(*old(document)).len(),
            records(*final(document)).len(),
            false,
        ),
{
    let ghost before = records(*document);
    let ghost announced = header(*document);
    let mut points: HashMap<usize, i32> = HashMap::new();
    let mut vertices: HashMap<usize, i32> = HashMap::new();
    let mut v: usize = 0;
    proof {
        assert(points@ =~= point_places(0, before.len() as int));
        assert(vertices@ =~= vertex_places(0, before.len() as int));
    }
    while v < body.vertices.len()
        invariant
            v <= body.vertices@.len(),
            before.len() + 2 * body.vertices@.len() <= i32::MAX,
            records(*document) == with_vertices(*body, before, v as int),
            records(*document).len() == before.len() + 2 * v,
            points@ == point_places(v as nat, before.len() as int),
            vertices@ == vertex_places(v as nat, before.len() as int),
            quiet(records(*document), before.len() as int),
            header(*document) == header_outcome(
                announced,
                before.len(),
                records(*document).len(),
                false,
            ),
        decreases body.vertices@.len() - v,
    {
        let tokens: Vec<Token> = vec![position(body.vertices[v].point)];
        proof {
            assert(token_views(tokens@) =~= seq![
                TokenView::Position(body.vertices@[v as int].point),
            ]);
            assert(token_views(Seq::<Token>::empty()) =~= Seq::<TokenView>::empty());
        }
        let point: i32 = add_entity(document, "point", tokens);
        points.insert(v, point);
        let vertex: i32 = add_entity(document, "vertex", Vec::new());
        vertices.insert(v, vertex);
        proof {
            assert(points@ =~= point_places((v + 1) as nat, before.len() as int));
            assert(vertices@ =~= vertex_places((v + 1) as nat, before.len() as int));
        }
        v = v + 1;
    }
    (points, vertices)
}

/// Adds the record of every curve, up to the first one that has none.
fn add_curves(
    body: &Body,
    document: &mut SatDocument,
    Ghost(before): Ghost<Seq<RecordView>>,
) -> (ids: Result<HashMap<usize, i32>, Unappendable>)
    requires
        curves_ready(*body),
        curves_at(*body, before.len() as int) + curves_written(*body) <= i32::MAX,
        records(*old(document)) == with_vertices(*body, before, body.vertices@.len() as int),
        grows(before, records(*old(document))),
        quiet(records(*old(document)), before.len() as int),
    ensures
        match ids {
            Ok(ids) => {
                &&& curves_written(*body) == body.curves@.len()
                &&& ids@ == places(body.curves@.len(), curves_at(*body, before.len() as int))
            },
            Err(reason) => {
                &&& curves_written(*body) < body.curves@.len()
                &&& reason == Unappendable::Curve
            },
        },
        records(*final(document)) == with_curves(*body, before, curves_written(*body) as int),
        records(*old(document)).len() <= records(*final(document)).len(),
        grows(before, records(*final(document))),
        quiet(records(*final(document)), before.len() as int),
        header(*final(document)) == header_outcome(
            header(*old(document)),
            records(*old(document)).len(),
            records(*final(document)).len(),
            false,
        ),
{
    let ghost start = records(*document).len();
    let ghost announced = header(*document);
    let ghost right = |k: int| curve_entry(body.curves@[k], 0) is Some;
    let mut ids: HashMap<usize, i32> = HashMap::new();
    let mut k: usize = 0;
    proof {
        vertices_stand(*body, before, body.vertices@.len() as int);
        assert(ids@ =~= places(0, curves_at(*body, before.len() as int)));
    }
    while k < body.curves.len()
        invariant
            k <= body.curves@.len(),
            curves_ready(*body),
            curves_at(*body, before.len() as int) + curves_written(*body) <= i32::MAX,
            start == curves_at(*body, before.len() as int),
            start == records(*old(document)).len(),
            announced == header(*old(document)),
            right == (|k: int| curve_entry(body.curves@[k], 0) is Some),
            forall|i: int| 0 <= i < k ==> #[trigger] right(i),
            records(*document) == with_curves(*body, before, k as int),
            records(*document).len() == start + k,
            grows(before, records(*document)),
            ids@ == places(k as nat, curves_at(*body, before.len() as int)),
            quiet(records(*document), before.len() as int),
            header(*document) == header_outcome(
                announced,
                start,
                records(*document).len(),
                false,
            ),
        decreases body.curves@.len() - k,
    {
        proof {
            leading_stops_at_the_first(body.curves@.len(), right);
        }
        match add_curve(document, &body.curves[k]) {
            Some(id) => {
                ids.insert(k, id);
                proof {
                    assert(right(k as int));
                    assert(ids@ =~= places(
                        (k + 1) as nat,
                        curves_at(*body, before.len() as int),
                    ));
                }
            },
            None => {
                proof {
                    assert(!right(k as int));
                    leading_is_unique(body.curves@.len(), right, k as nat);
                }
                return Err(Unappendable::Curve);
            },
        }
        k = k + 1;
    }
    proof {
        leading_is_unique(body.curves@.len(), right, k as nat);
    }
    Ok(ids)
}

/// Whether a curve can lie on the record of every surface, and only spline
/// surfaces have the record of one.
pub open spec fn surfaces_support(body: Body, all: Seq<RecordView>, base: int) -> bool {
    forall|k: int|
        0 <= k < body.surfaces@.len() ==> supports(
            #[trigger] body.surfaces@[k],
            all[surfaces_at(body, base) + k],
        )
}

/// What [`surfaces_support`] says of one surface.
pub open spec fn supports(surface: Surface, record: RecordView) -> bool {
    can_support(record) && (record.kind == "spline-surface"@ ==> surface is Nurbs)
}

/// Adds the record of every surface, up to the first one that has none.
fn add_surfaces(
    body: &Body,
    document: &mut SatDocument,
    Ghost(before): Ghost<Seq<RecordView>>,
) -> (ids: Result<HashMap<usize, i32>, Unappendable>)
    requires
        surfaces_ready(*body),
        surfaces_at(*body, before.len() as int) + surfaces_written(*body) <= i32::MAX,
        curves_written(*body) == body.curves@.len(),
        records(*old(document)) == with_curves(*body, before, body.curves@.len() as int),
        grows(before, records(*old(document))),
        quiet(records(*old(document)), before.len() as int),
    ensures
        match ids {
            Ok(ids) => {
                &&& surfaces_written(*body) == body.surfaces@.len()
                &&& ids@ == places(body.surfaces@.len(), surfaces_at(*body, before.len() as int))
                &&& surfaces_support(*body, records(*final(document)), before.len() as int)
            },
            Err(reason) => {
                &&& surfaces_written(*body) < body.surfaces@.len()
                &&& reason == Unappendable::Surface
            },
        },
        records(*final(document)) == with_surfaces(*body, before, surfaces_written(*body) as int),
        records(*old(document)).len() <= records(*final(document)).len(),
        grows(before, records(*final(document))),
        quiet(records(*final(document)), before.len() as int),
        header(*final(document)) == header_outcome(
            header(*old(document)),
            records(*old(document)).len(),
            records(*final(document)).len(),
            false,
        ),
{
    let ghost start = records(*document).len();
    let ghost announced = header(*document);
    let ghost first = surfaces_at(*body, before.len() as int);
    let ghost right = |k: int| surface_entry(body.surfaces@[k], 0) is Some;
    let mut ids: HashMap<usize, i32> = HashMap::new();
    let mut k: usize = 0;
    proof {
        every_curve_has_a_record(*body);
        curves_stand(*body, before, body.curves@.len() as int);
        assert(ids@ =~= places(0, first));
    }
    while k < body.surfaces.len()
        invariant
            k <= body.surfaces@.len(),
            surfaces_ready(*body),
            curves_written(*body) == body.curves@.len(),
            first == surfaces_at(*body, before.len() as int),
            surfaces_at(*body, before.len() as int) + surfaces_written(*body) <= i32::MAX,
            start == first,
            start == records(*old(document)).len(),
            announced == header(*old(document)),
            right == (|k: int| surface_entry(body.surfaces@[k], 0) is Some),
            forall|i: int| 0 <= i < k ==> #[trigger] right(i),
            records(*document) == with_surfaces(*body, before, k as int),
            records(*document).len() == start + k,
            grows(before, records(*document)),
            ids@ == places(k as nat, first),
            quiet(records(*document), before.len() as int),
            forall|i: int|
                0 <= i < k ==> supports(
                    #[trigger] body.surfaces@[i],
                    records(*document)[first + i],
                ),
            header(*document) == header_outcome(
                announced,
                start,
                records(*document).len(),
                false,
            ),
        decreases body.surfaces@.len() - k,
    {
        proof {
            leading_stops_at_the_first(body.surfaces@.len(), right);
        }
        match add_surface(document, &body.surfaces[k]) {
            Some(id) => {
                ids.insert(k, id);
                proof {
                    assert(right(k as int));
                    assert(ids@ =~= places((k + 1) as nat, first));
                }
            },
            None => {
                proof {
                    assert(!right(k as int));
                    leading_is_unique(body.surfaces@.len(), right, k as nat);
                }
                return Err(Unappendable::Surface);
            },
        }
        k = k + 1;
    }
    proof {
        leading_is_unique(body.surfaces@.len(), right, k as nat);
    }
    Ok(ids)
}

/// Where no curve stops the first pass, every curve has a record.
pub proof fn every_curve_has_a_record(body: Body)
    requires
        curves_written(body) == body.curves@.len(),
    ensures
        forall|k: int|
            0 <= k < body.curves@.len() ==> curve_entry(#[trigger] body.curves@[k], 0) is Some,
{
    let right = |k: int| curve_entry(body.curves@[k], 0) is Some;
    leading_stops_at_the_first(body.curves@.len(), right);
    assert forall|k: int| 0 <= k < body.curves@.len() implies curve_entry(
        #[trigger] body.curves@[k],
        0,
    ) is Some by {
        assert(right(k));
    }
}

/// Where no surface stops the first pass, every surface has a record.
pub proof fn every_surface_has_a_record(body: Body)
    requires
        surfaces_written(body) == body.surfaces@.len(),
    ensures
        forall|k: int|
            0 <= k < body.surfaces@.len() ==> surface_entry(#[trigger] body.surfaces@[k], 0)
                is Some,
{
    let right = |k: int| surface_entry(body.surfaces@[k], 0) is Some;
    leading_stops_at_the_first(body.surfaces@.len(), right);
    assert forall|k: int| 0 <= k < body.surfaces@.len() implies surface_entry(
        #[trigger] body.surfaces@[k],
        0,
    ) is Some by {
        assert(right(k));
    }
}

/// The indices of the first `n` coedges.
pub open spec fn coedge_places(body: Body, base: int, n: nat) -> Map<usize, i32> {
    Map::new(|key: usize| key < n, |key: usize| coedge_id(body, base, key as int) as i32)
}

/// The indices of the curves of the first `n` coedges.
pub open spec fn pcurve_places(body: Body, base: int, n: nat) -> Map<usize, i32> {
    Map::new(
        |key: usize| key < n && pcurve_of(body, key as int) is Some,
        |key: usize| (coedge_id(body, base, key as int) - 1) as i32,
    )
}

/// The face that a coedge runs around.
fn face_around(body: &Body, c: usize) -> (face: Option<usize>)
    requires
        c < body.coedges@.len(),
    ensures
        match face_of(*body, c as int) {
            Some(f) => face == Some(f as usize) && 0 <= f < body.faces@.len(),
            None => face is None,
        },
{
    let ring: usize = body.coedges[c].owner;
    if ring < body.loops.len() {
        let face: usize = body.loops[ring].owner;
        if face < body.faces.len() {
            return Some(face);
        }
    }
    None
}

/// Adds the curve of a coedge, where it has one that has a record.
fn add_coedge_curve(
    body: &Body,
    document: &mut SatDocument,
    surfaces: &HashMap<usize, i32>,
    c: usize,
    Ghost(base): Ghost<int>,
) -> (id: Result<Option<i32>, Unappendable>)
    requires
        c < body.coedges@.len(),
        coedge_ready(*body, c as int),
        0 <= base,
        coedges_at(*body, base) <= records(*old(document)).len() <= i32::MAX,
        surfaces@ == places(body.surfaces@.len(), surfaces_at(*body, base)),
        surfaces_support(*body, records(*old(document)), base),
        quiet(records(*old(document)), base),
        coedge_reads(*body, c as int) ==> legible_until(
            records(*old(document)),
            edges_at(*body, base),
        ),
        forall|i: int|
            base <= i < records(*old(document)).len() ==> (#[trigger] records(
                *old(document),
            )[i]).index == i,
    ensures
        match id {
            Err(reason) => coedge_fault(*body, c as int) == Some(reason) && *final(document)
                == *old(document),
            Ok(id) => {
                &&& coedge_fault(*body, c as int) is None
                &&& match id {
                    Some(id) => {
                        &&& pcurve_of(*body, c as int) is Some
                        &&& id == records(*old(document)).len()
                    },
                    None => pcurve_of(*body, c as int) is None,
                }
                &&& records(*final(document)).push(
                    entity(records(*final(document)).len() as int, "coedge"@, Seq::empty()),
                ) == with_coedge(*body, records(*old(document)), base, c as int)
                &&& records(*final(document)).len() == records(*old(document)).len() + if pcurve_of(
                    *body,
                    c as int,
                ) is Some {
                    1int
                } else {
                    0int
                }
                &&& quiet(records(*final(document)), base)
                &&& header(*final(document)) == header_outcome(
                    header(*old(document)),
                    records(*old(document)).len(),
                    records(*final(document)).len(),
                    false,
                )
            },
        },
{
    match &body.coedges[c].pcurve {
        None => Ok(None),
        Some(curve) => {
            let face: usize = match face_around(body, c) {
                Some(face) => face,
                None => return Err(Unappendable::Inconsistent),
            };
            let key: usize = body.faces[face].surface;
            let needs_curve: bool = key < body.surfaces.len() && match &body.surfaces[key] {
                Surface::Nurbs(_) => true,
                _ => false,
            };
            let support: i32 = lookup(surfaces, key);
            proof {
                assert(pcurve_of(*body, c as int) == pcurve_form(*curve));
                assert(support == surface_ref(*body, base, key));
                if pcurve_form(*curve) is Some {
                    assert(key < body.surfaces@.len());
                    assert(supports(
                        body.surfaces@[key as int],
                        records(*document)[surfaces_at(*body, base) + key],
                    ));
                    assert(points_nowhere(records(*document)[support as int].tokens));
                }
            }
            match add_pcurve(document, curve, support) {
                Some(id) => {
                    proof {
                        let all = records(*document);
                        assert(points_nowhere(all.last().tokens)) by {
                            assert forall|i: int| 0 <= i < all.last().tokens.len() implies ((
                            #[trigger] all.last().tokens[i]) matches TokenView::Pointer(id) ==> id
                                == -1) by {
                                let token = all.last().tokens[i];
                                let others = records(*old(document))[support as int].tokens;
                                if token is Pointer && others.contains(token) {
                                    let j = choose|j: int|
                                        0 <= j < others.len() && others[j] == token;
                                    assert(others[j] == token);
                                }
                            }
                        }
                    }
                    Ok(Some(id))
                },
                None => if needs_curve {
                    Err(Unappendable::Curve)
                } else {
                    Ok(None)
                },
            }
        },
    }
}

/// Adds the records of every coedge, up to the first one with something wrong.
fn add_coedges(
    body: &Body,
    document: &mut SatDocument,
    surfaces: &HashMap<usize, i32>,
    Ghost(before): Ghost<Seq<RecordView>>,
) -> (ids: Result<(HashMap<usize, i32>, HashMap<usize, i32>), Unappendable>)
    requires
        coedges_ready(*body),
        reads(*body) ==> readable(before),
        body.faults@.len() == 0,
        curves_written(*body) == body.curves@.len(),
        surfaces_written(*body) == body.surfaces@.len(),
        coedges_at(*body, before.len() as int) + coedges_written(*body) + pcurves_before(
            *body,
            coedges_written(*body) as int,
        ) <= i32::MAX,
        surfaces@ == places(body.surfaces@.len(), surfaces_at(*body, before.len() as int)),
        records(*old(document)) == with_edges(*body, before),
        grows(before, records(*old(document))),
        surfaces_support(*body, records(*old(document)), before.len() as int),
        quiet(records(*old(document)), before.len() as int),
    ensures
        match ids {
            Ok((coedges, pcurves)) => {
                &&& coedges_written(*body) == body.coedges@.len()
                &&& coedges@ == coedge_places(*body, before.len() as int, body.coedges@.len())
                &&& pcurves@ == pcurve_places(*body, before.len() as int, body.coedges@.len())
            },
            Err(reason) => {
                &&& coedges_written(*body) < body.coedges@.len()
                &&& coedge_fault(*body, coedges_written(*body) as int) == Some(reason)
            },
        },
        records(*final(document)) == with_coedges(*body, before, coedges_written(*body) as int),
        records(*old(document)).len() <= records(*final(document)).len(),
        grows(before, records(*final(document))),
        quiet(records(*final(document)), before.len() as int),
        header(*final(document)) == header_outcome(
            header(*old(document)),
            records(*old(document)).len(),
            records(*final(document)).len(),
            false,
        ),
{
    let ghost base = before.len() as int;
    let ghost start = records(*document);
    let ghost announced = header(*document);
    let ghost right = |c: int| coedge_fault(*body, c) is None;
    let mut coedges: HashMap<usize, i32> = HashMap::new();
    let mut pcurves: HashMap<usize, i32> = HashMap::new();
    let mut c: usize = 0;
    proof {
        every_curve_has_a_record(*body);
        every_surface_has_a_record(*body);
        coedges_stand(*body, before, 0);
        assert(coedges@ =~= coedge_places(*body, base, 0));
        assert(pcurves@ =~= pcurve_places(*body, base, 0));
    }
    while c < body.coedges.len()
        invariant
            c <= body.coedges@.len(),
            coedges_ready(*body),
            reads(*body) ==> readable(before),
            body.faults@.len() == 0,
            curves_written(*body) == body.curves@.len(),
            surfaces_written(*body) == body.surfaces@.len(),
            base == before.len(),
            coedges_at(*body, base) + coedges_written(*body) + pcurves_before(
                *body,
                coedges_written(*body) as int,
            ) <= i32::MAX,
            surfaces@ == places(body.surfaces@.len(), surfaces_at(*body, base)),
            start == with_edges(*body, before),
            start.len() == coedges_at(*body, base),
            start == records(*old(document)),
            surfaces_support(*body, start, base),
            announced == header(*old(document)),
            right == (|c: int| coedge_fault(*body, c) is None),
            forall|i: int| 0 <= i < c ==> #[trigger] right(i),
            records(*document) == with_coedges(*body, before, c as int),
            start.len() <= records(*document).len(),
            grows(before, records(*document)),
            quiet(records(*document), base),
            coedges@ == coedge_places(*body, base, c as nat),
            pcurves@ == pcurve_places(*body, base, c as nat),
            header(*document) == header_outcome(
                announced,
                start.len(),
                records(*document).len(),
                false,
            ),
        decreases body.coedges@.len() - c,
    {
        let ghost sofar = records(*document);
        proof {
            every_curve_has_a_record(*body);
            every_surface_has_a_record(*body);
            coedges_stand(*body, before, c as int);
            assert forall|k: int| 0 <= k < body.surfaces@.len() implies supports(
                #[trigger] body.surfaces@[k],
                sofar[surfaces_at(*body, base) + k],
            ) by {
                assert(sofar[surfaces_at(*body, base) + k] == start[surfaces_at(*body, base) + k]);
            }
            leading_stops_at_the_first(body.coedges@.len(), right);
            pcurves_increase(*body, c as int, coedges_written(*body) as int);
            if c < coedges_written(*body) {
                pcurves_increase(*body, c as int + 1, coedges_written(*body) as int);
            }
            assert(coedge_ready(*body, c as int));
            if coedge_reads(*body, c as int) {
                assert(right(c as int));
                assert(c < coedges_written(*body));
                assert(reads(*body));
                assert(readable(before));
                assert forall|r: int| 0 <= r < sofar.len() && r < edges_at(
                    *body,
                    base,
                ) implies legible((#[trigger] sofar[r]).tokens) by {
                    if r < base {
                        assert(sofar[r] == before[r]);
                    } else {
                        assert(plain(sofar[r].tokens));
                    }
                }
            }
        }
        match add_coedge_curve(body, document, surfaces, c, Ghost(base)) {
            Ok(Some(id)) => {
                pcurves.insert(c, id);
            },
            Ok(None) => {},
            Err(reason) => {
                proof {
                    assert(!right(c as int));
                    leading_is_unique(body.coedges@.len(), right, c as nat);
                }
                return Err(reason);
            },
        }
        proof {
            assert(token_views(Seq::<Token>::empty()) =~= Seq::<TokenView>::empty());
        }
        let id: i32 = add_entity(document, "coedge", Vec::new());
        coedges.insert(c, id);
        proof {
            assert(right(c as int));
            assert(coedges@ =~= coedge_places(*body, base, (c + 1) as nat));
            assert(pcurves@ =~= pcurve_places(*body, base, (c + 1) as nat));
        }
        c = c + 1;
    }
    proof {
        leading_is_unique(body.coedges@.len(), right, c as nat);
    }
    Ok((coedges, pcurves))
}

/// Whether every entity of a body is known by the index of its record.
pub(crate) open spec fn ids_match(ids: Ids, body: Body, base: int) -> bool {
    &&& ids.points@ == point_places(body.vertices@.len(), base)
    &&& ids.vertices@ == vertex_places(body.vertices@.len(), base)
    &&& ids.curves@ == places(body.curves@.len(), curves_at(body, base))
    &&& ids.surfaces@ == places(body.surfaces@.len(), surfaces_at(body, base))
    &&& ids.edges@ == places(body.edges@.len(), edges_at(body, base))
    &&& ids.coedges@ == coedge_places(body, base, body.coedges@.len())
    &&& ids.pcurves@ == pcurve_places(body, base, body.coedges@.len())
    &&& ids.loops@ == places(body.loops@.len(), loops_at(body, base))
    &&& ids.faces@ == places(body.faces@.len(), faces_at(body, base))
    &&& ids.shells@ == places(body.shells@.len(), shells_at(body, base))
    &&& ids.lumps@ == places(body.lumps@.len(), lumps_at(body, base))
}

/// The records of what owns coedges.
struct Owners {
    loops: HashMap<usize, i32>,
    faces: HashMap<usize, i32>,
    shells: HashMap<usize, i32>,
    lumps: HashMap<usize, i32>,
}

/// Adds the records of all loops, faces, shells and lumps, and of the body.
fn add_owners(
    body: &Body,
    document: &mut SatDocument,
    Ghost(before): Ghost<Seq<RecordView>>,
) -> (ids: (Owners, i32))
    requires
        end_at(*body, before.len() as int) <= i32::MAX,
        records(*old(document)) == with_coedges(*body, before, body.coedges@.len() as int),
        records(*old(document)).len() == loops_at(*body, before.len() as int),
        before.len() <= records(*old(document)).len(),
        quiet(records(*old(document)), before.len() as int),
    ensures
        records(*final(document)) == unlinked(*body, before),
        records(*final(document)).len() == end_at(*body, before.len() as int),
        ids.0.loops@ == places(body.loops@.len(), loops_at(*body, before.len() as int)),
        ids.0.faces@ == places(body.faces@.len(), faces_at(*body, before.len() as int)),
        ids.0.shells@ == places(body.shells@.len(), shells_at(*body, before.len() as int)),
        ids.0.lumps@ == places(body.lumps@.len(), lumps_at(*body, before.len() as int)),
        ids.1 == body_at(*body, before.len() as int),
        quiet(records(*final(document)), before.len() as int),
        header(*final(document)) == header_outcome(
            header(*old(document)),
            records(*old(document)).len(),
            records(*final(document)).len(),
            false,
        ),
{
    let ghost base = before.len() as int;
    let ghost with_all_coedges = records(*document);
    let loops: HashMap<usize, i32> = add_blanks(document, "loop", body.loops.len());
    let ghost with_all_loops = records(*document);
    proof {
        blanks_stand(with_all_coedges, "loop"@, body.loops@.len() as int);
        quiet_grows(with_all_coedges, with_all_loops, base);
    }
    let faces: HashMap<usize, i32> = add_blanks(document, "face", body.faces.len());
    let ghost with_all_faces = records(*document);
    proof {
        blanks_stand(with_all_loops, "face"@, body.faces@.len() as int);
        quiet_grows(with_all_loops, with_all_faces, base);
    }
    let shells: HashMap<usize, i32> = add_blanks(document, "shell", body.shells.len());
    let ghost with_all_shells = records(*document);
    proof {
        blanks_stand(with_all_faces, "shell"@, body.shells@.len() as int);
        quiet_grows(with_all_faces, with_all_shells, base);
    }
    let lumps: HashMap<usize, i32> = add_blanks(document, "lump", body.lumps.len());
    let ghost with_all_lumps = records(*document);
    proof {
        blanks_stand(with_all_shells, "lump"@, body.lumps@.len() as int);
        quiet_grows(with_all_shells, with_all_lumps, base);
        assert(token_views(Seq::<Token>::empty()) =~= Seq::<TokenView>::empty());
    }
    let body_id: i32 = add_entity(document, "body", Vec::new());
    proof {
        reveal_with_fuel(with_blanks, 2);
        quiet_grows(with_all_lumps, records(*document), base);
    }
    (Owners { loops, faces, shells, lumps }, body_id)
}

/// Adds every record of a body, without its pointers.
pub(crate) fn allocate(body: &Body, document: &mut SatDocument) -> (ids: Result<
    (Ids, i32),
    Unappendable,
>)
    requires
        ready(*body),
        reads(*body) ==> readable(records(*old(document))),
        body.faults@.len() == 0,
        written_until(*body, records(*old(document)).len() as int) <= i32::MAX,
    ensures
        match ids {
            Ok((ids, body_id)) => {
                &&& stopped_while_allocating(*body, records(*old(document))) is None
                &&& records(*final(document)) == unlinked(*body, records(*old(document)))
                &&& records(*final(document)).len() == end_at(
                    *body,
                    records(*old(document)).len() as int,
                )
                &&& ids_match(ids, *body, records(*old(document)).len() as int)
                &&& body_id == body_at(*body, records(*old(document)).len() as int)
            },
            Err(reason) => stopped_while_allocating(*body, records(*old(document))) == Some(
                Outcome { result: Err(reason), records: records(*final(document)) },
            ),
        },
        grows(records(*old(document)), records(*final(document))),
        quiet(records(*final(document)), records(*old(document)).len() as int),
        header(*final(document)) == header_outcome(
            header(*old(document)),
            records(*old(document)).len(),
            records(*final(document)).len(),
            false,
        ),
{
    let ghost before = records(*document);
    let ghost base = before.len() as int;
    proof {
        no_more_than_there_is(*body);
        pcurves_increase(*body, 0, body.coedges@.len() as int);
        vertices_stand(*body, before, body.vertices@.len() as int);
    }
    let (points, vertices) = add_vertices(body, document);
    let curves: HashMap<usize, i32> = match add_curves(body, document, Ghost(before)) {
        Ok(ids) => ids,
        Err(reason) => return Err(reason),
    };
    proof {
        every_curve_has_a_record(*body);
        curves_stand(*body, before, body.curves@.len() as int);
    }
    let surfaces: HashMap<usize, i32> = match add_surfaces(body, document, Ghost(before)) {
        Ok(ids) => ids,
        Err(reason) => return Err(reason),
    };
    let ghost with_all_surfaces = records(*document);
    proof {
        every_surface_has_a_record(*body);
        surfaces_stand(*body, before, body.surfaces@.len() as int);
        coedges_stand(*body, before, body.coedges@.len() as int);
    }
    let edges: HashMap<usize, i32> = add_blanks(document, "edge", body.edges.len());
    proof {
        assert forall|k: int| 0 <= k < body.surfaces@.len() implies supports(
            #[trigger] body.surfaces@[k],
            records(*document)[surfaces_at(*body, base) + k],
        ) by {
            let at = surfaces_at(*body, base) + k;
            assert(records(*document)[at] == with_all_surfaces[at]);
        }
        quiet_grows(with_all_surfaces, records(*document), base);
    }
    let (coedges, pcurves) = match add_coedges(body, document, &surfaces, Ghost(before)) {
        Ok(ids) => ids,
        Err(reason) => return Err(reason),
    };
    let (owners, body_id) = add_owners(body, document, Ghost(before));
    proof {
        records_stand(*body, before);
    }
    let Owners { loops, faces, shells, lumps } = owners;
    let ids = Ids {
        points,
        vertices,
        curves,
        surfaces,
        edges,
        coedges,
        pcurves,
        loops,
        faces,
        shells,
        lumps,
    };
    Ok((ids, body_id))
}

/// Records that point nowhere stay so while others that point nowhere join
/// them.
proof fn quiet_grows(sofar: Seq<RecordView>, all: Seq<RecordView>, base: int)
    requires
        0 <= base,
        grows(sofar, all),
        quiet(sofar, base),
        quiet(all, sofar.len() as int),
    ensures
        quiet(all, base),
{
    assert forall|i: int| base <= i < all.len() implies points_nowhere((#[trigger] all[i]).tokens)
        && plain(all[i].tokens) by {
        if i < sofar.len() {
            assert(all[i] == sofar[i]);
        }
    }
}

} // verus!
