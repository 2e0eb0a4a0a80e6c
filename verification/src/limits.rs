//! Which bodies a document can hold.

use vstd::prelude::*;
use acadrust::entities::acis::types::SatDocument;
use crate::body::{Body, Coedge};
use crate::document::{body_count, header, record_count, records};
use crate::geometry::{covers, Curve2, Curve3, NurbsSurface3, Surface};
use crate::layout::{
    coedge_fault, coedges_at, coedges_written, curves_at, curves_written, end_at, face_of,
    faces_known, leading_is_unique, leading_stops_at_the_first, loop_holds, loops_known, on_spline,
    pcurve_of, pcurves_before, shells_known, surfaces_at, surfaces_written,
};
use crate::legible::{is_readable, readable};
use crate::scalar::is_positive_and_finite;
use crate::shape::pcurves_increase;
use crate::splines::{curve_entry, surface_entry};
use crate::token::RecordView;

verus! {

/// Whether every curve is well formed, up to the first one that has no record.
pub open spec fn curves_ready(body: Body) -> bool {
    forall|k: int|
        0 <= k < body.curves@.len() && k <= curves_written(body)
            ==> (#[trigger] body.curves@[k]).well_formed()
}

/// Whether every surface is well formed, up to the first one that has no
/// record, where there is one for every curve.
pub open spec fn surfaces_ready(body: Body) -> bool {
    curves_written(body) == body.curves@.len() ==> forall|k: int|
        0 <= k < body.surfaces@.len() && k <= surfaces_written(body)
            ==> (#[trigger] body.surfaces@[k]).well_formed()
}

/// Whether the curve of a coedge, where it has one, is well formed, and has a
/// surface to lie on, where it has a spline form and the coedge a face.
pub open spec fn coedge_ready(body: Body, c: int) -> bool {
    &&& body.coedges@[c].pcurve matches Some(curve) ==> curve.well_formed()
    &&& pcurve_of(body, c) is Some && face_of(body, c) is Some
        ==> body.faces@[face_of(body, c).unwrap()].surface < body.surfaces@.len()
}

/// Whether every coedge is ready, up to the first one with something wrong,
/// where there is a record for every curve and every surface.
pub open spec fn coedges_ready(body: Body) -> bool {
    curves_written(body) == body.curves@.len() && surfaces_written(body) == body.surfaces@.len()
        ==> forall|c: int|
        0 <= c < body.coedges@.len() && c <= coedges_written(body) ==> #[trigger] coedge_ready(
            body,
            c,
        )
}

/// Whether a body can be written as far as the first thing that is found wrong
/// with it.
pub open spec fn ready(body: Body) -> bool {
    curves_ready(body) && surfaces_ready(body) && coedges_ready(body)
}

/// The number of records that there are in the end, where there were `base`
/// before: those of the whole body, or those up to the first thing that is found
/// wrong in the first pass.
pub open spec fn written_until(body: Body, base: int) -> int {
    if curves_written(body) < body.curves@.len() {
        curves_at(body, base) + curves_written(body)
    } else if surfaces_written(body) < body.surfaces@.len() {
        surfaces_at(body, base) + surfaces_written(body)
    } else if coedges_written(body) < body.coedges@.len() {
        coedges_at(body, base) + coedges_written(body) + pcurves_before(
            body,
            coedges_written(body) as int,
        )
    } else {
        end_at(body, base)
    }
}

/// Whether nothing is found wrong with a body in either pass.
pub open spec fn completes(body: Body) -> bool {
    &&& curves_written(body) == body.curves@.len()
    &&& surfaces_written(body) == body.surfaces@.len()
    &&& coedges_written(body) == body.coedges@.len()
    &&& loops_known(body) == body.loops@.len()
    &&& faces_known(body) == body.faces@.len()
    &&& shells_known(body) == body.shells@.len()
}

/// No more is written, and no more is known, than there is.
pub proof fn no_more_than_there_is(body: Body)
    ensures
        curves_written(body) <= body.curves@.len(),
        surfaces_written(body) <= body.surfaces@.len(),
        coedges_written(body) <= body.coedges@.len(),
        loops_known(body) <= body.loops@.len(),
        faces_known(body) <= body.faces@.len(),
        shells_known(body) <= body.shells@.len(),
{
    leading_stops_at_the_first(
        body.curves@.len(),
        |k: int| curve_entry(body.curves@[k], 0) is Some,
    );
    leading_stops_at_the_first(
        body.surfaces@.len(),
        |k: int| surface_entry(body.surfaces@[k], 0) is Some,
    );
    leading_stops_at_the_first(body.coedges@.len(), |c: int| coedge_fault(body, c) is None);
    leading_stops_at_the_first(body.loops@.len(), |l: int| loop_holds(body, l));
    leading_stops_at_the_first(
        body.faces@.len(),
        |f: int| body.faces@[f].owner < body.shells@.len(),
    );
    leading_stops_at_the_first(
        body.shells@.len(),
        |s: int| body.shells@[s].owner < body.lumps@.len(),
    );
}

/// Whether a body can be appended to a document with so many records and
/// bodies: it can be written, as far as it gets written, and neither number
/// grows too large. A body that was found inconsistent is not written, so it
/// always can.
pub open spec fn fits(body: Body, num_records: nat, num_bodies: nat) -> bool {
    body.faults@.len() == 0 ==> {
        &&& ready(body)
        &&& written_until(body, num_records as int) <= i32::MAX
        &&& completes(body) ==> num_bodies < usize::MAX
    }
}

/// Whether the curve of a coedge gets a record on a spline surface.
pub open spec fn coedge_reads(body: Body, c: int) -> bool {
    &&& pcurve_of(body, c) is Some
    &&& face_of(body, c) is Some
    &&& on_spline(body, body.faces@[face_of(body, c).unwrap()].surface)
}

/// Whether writing a body takes a search through the records of the document,
/// which is where a curve gets written that lies on a spline surface.
pub open spec fn reads(body: Body) -> bool {
    &&& body.faults@.len() == 0
    &&& curves_written(body) == body.curves@.len()
    &&& surfaces_written(body) == body.surfaces@.len()
    &&& exists|c: int| 0 <= c < coedges_written(body) && #[trigger] coedge_reads(body, c)
}

/// Whether a document with the given records, and so many bodies, can take a
/// body: the body fits, and the records are legible where they are searched.
pub open spec fn takes(before: Seq<RecordView>, num_bodies: nat, body: Body) -> bool {
    &&& fits(body, before.len(), num_bodies)
    &&& reads(body) ==> readable(before)
}

/// The largest number of knots or records.
const LIMIT: usize = 0x7fff_ffff;

/// Whether a curve is well formed.
fn curve_is_well_formed(curve: &Curve3) -> (right: bool)
    ensures
        right == curve.well_formed(),
{
    match curve {
        Curve3::PlanarSpline { lifted: Some(spline), .. } => spline.knots.len() <= LIMIT,
        Curve3::Nurbs(spline) => spline.knots.len() <= LIMIT,
        _ => true,
    }
}

/// Whether a grid has an entry at each of `rows` by `columns` places.
fn is_covering<T>(grid: &Vec<Vec<T>>, rows: usize, columns: usize) -> (right: bool)
    ensures
        right == covers(grid@, rows as nat, columns as nat),
{
    if columns == 0 {
        return true;
    }
    if rows > grid.len() {
        return false;
    }
    let mut u: usize = 0;
    while u < rows
        invariant
            columns > 0,
            u <= rows <= grid@.len(),
            forall|i: int| 0 <= i < u ==> columns <= (#[trigger] grid@[i])@.len(),
        decreases rows - u,
    {
        if columns > grid[u].len() {
            return false;
        }
        u = u + 1;
    }
    true
}

/// Whether a spline surface is well formed.
fn net_is_well_formed(surface: &NurbsSurface3) -> (right: bool)
    ensures
        right == surface.well_formed(),
{
    if surface.control_points.len() == 0 {
        return false;
    }
    let rows: usize = surface.control_points.len();
    let columns: usize = surface.control_points[0].len();
    is_covering(&surface.control_points, rows, columns) && is_covering(
        &surface.weights,
        rows,
        columns,
    ) && surface.u_knots.len() <= LIMIT && surface.v_knots.len() <= LIMIT
}

/// Whether a surface is well formed.
fn surface_is_well_formed(surface: &Surface) -> (right: bool)
    ensures
        right == surface.well_formed(),
{
    match surface {
        Surface::Nurbs(surface) => net_is_well_formed(surface),
        _ => true,
    }
}

/// Whether a curve has a record.
fn curve_has_a_record(curve: &Curve3) -> (has: bool)
    ensures
        has == (curve_entry(*curve, 0) is Some),
{
    match curve {
        Curve3::Line { .. } => true,
        Curve3::Circle { plane, .. } => plane.normal.is_some(),
        Curve3::Ellipse { plane, .. } => plane.normal.is_some(),
        Curve3::PlanarSpline { width, lifted, .. } => is_positive_and_finite(*width)
            && lifted.is_some(),
        Curve3::Nurbs(_) => true,
    }
}

/// Whether a surface has a record.
fn surface_has_a_record(surface: &Surface) -> (has: bool)
    ensures
        has == (surface_entry(*surface, 0) is Some),
{
    match surface.frame() {
        Some(frame) => frame.normal.is_some(),
        None => true,
    }
}

/// How many curves of a body are written. `None` where they are not ready.
fn check_curves(body: &Body) -> (checked: Option<usize>)
    ensures
        match checked {
            Some(count) => curves_ready(*body) && count == curves_written(*body),
            None => !curves_ready(*body),
        },
{
    let ghost right = |k: int| curve_entry(body.curves@[k], 0) is Some;
    let mut k: usize = 0;
    while k < body.curves.len()
        invariant
            k <= body.curves@.len(),
            right == (|k: int| curve_entry(body.curves@[k], 0) is Some),
            forall|i: int| 0 <= i < k ==> #[trigger] right(i),
            forall|i: int| 0 <= i < k ==> (#[trigger] body.curves@[i]).well_formed(),
        decreases body.curves@.len() - k,
    {
        proof {
            leading_stops_at_the_first(body.curves@.len(), right);
        }
        if !curve_is_well_formed(&body.curves[k]) {
            return None;
        }
        if !curve_has_a_record(&body.curves[k]) {
            proof {
                assert(!right(k as int));
                leading_is_unique(body.curves@.len(), right, k as nat);
            }
            return Some(k);
        }
        proof {
            assert(right(k as int));
        }
        k = k + 1;
    }
    proof {
        leading_is_unique(body.curves@.len(), right, k as nat);
    }
    Some(k)
}

/// How many surfaces of a body are written, where each curve is. `None` where
/// they are not ready.
fn check_surfaces(body: &Body) -> (checked: Option<usize>)
    requires
        curves_written(*body) == body.curves@.len(),
    ensures
        match checked {
            Some(count) => surfaces_ready(*body) && count == surfaces_written(*body),
            None => !surfaces_ready(*body),
        },
{
    let ghost right = |k: int| surface_entry(body.surfaces@[k], 0) is Some;
    let mut k: usize = 0;
    while k < body.surfaces.len()
        invariant
            k <= body.surfaces@.len(),
            curves_written(*body) == body.curves@.len(),
            right == (|k: int| surface_entry(body.surfaces@[k], 0) is Some),
            forall|i: int| 0 <= i < k ==> #[trigger] right(i),
            forall|i: int| 0 <= i < k ==> (#[trigger] body.surfaces@[i]).well_formed(),
        decreases body.surfaces@.len() - k,
    {
        proof {
            leading_stops_at_the_first(body.surfaces@.len(), right);
        }
        if !surface_is_well_formed(&body.surfaces[k]) {
            return None;
        }
        if !surface_has_a_record(&body.surfaces[k]) {
            proof {
                assert(!right(k as int));
                leading_is_unique(body.surfaces@.len(), right, k as nat);
            }
            return Some(k);
        }
        proof {
            assert(right(k as int));
        }
        k = k + 1;
    }
    proof {
        leading_is_unique(body.surfaces@.len(), right, k as nat);
    }
    Some(k)
}

/// Whether a coedge has a curve with a spline form.
fn has_pcurve(body: &Body, c: usize) -> (right: bool)
    requires
        c < body.coedges@.len(),
    ensures
        right == (pcurve_of(*body, c as int) is Some),
{
    match &body.coedges[c].pcurve {
        Some(Curve2::Line { .. }) => true,
        Some(Curve2::Nurbs(_)) => true,
        Some(Curve2::Other) => false,
        None => false,
    }
}

/// Whether a coedge is ready, and whether something is wrong with it.
fn check_coedge(body: &Body, c: usize) -> (checked: (bool, bool))
    requires
        c < body.coedges@.len(),
    ensures
        checked.0 == coedge_ready(*body, c as int),
        checked.1 == (coedge_fault(*body, c as int) is Some),
{
    let coedge: &Coedge = &body.coedges[c];
    let curve: &Curve2 = match &coedge.pcurve {
        Some(curve) => curve,
        None => return (true, false),
    };
    let (counted, formed) = match curve {
        Curve2::Line { .. } => (true, true),
        Curve2::Nurbs(spline) => (spline.knots.len() <= LIMIT, true),
        Curve2::Other => (true, false),
    };
    if coedge.owner >= body.loops.len() {
        return (counted, true);
    }
    let owner: usize = body.loops[coedge.owner].owner;
    if owner >= body.faces.len() {
        return (counted, true);
    }
    let key: usize = body.faces[owner].surface;
    let there: bool = key < body.surfaces.len();
    let on_a_spline: bool = there && match &body.surfaces[key] {
        Surface::Nurbs(_) => true,
        _ => false,
    };
    (counted && (there || !formed), on_a_spline && !formed)
}

/// How many coedges of a body are written, and how many of their curves, where
/// each curve and each surface of the body is. `None` where they are not ready.
fn check_coedges(body: &Body) -> (checked: Option<(usize, usize)>)
    requires
        curves_written(*body) == body.curves@.len(),
        surfaces_written(*body) == body.surfaces@.len(),
    ensures
        match checked {
            Some((count, pcurves)) => {
                &&& coedges_ready(*body)
                &&& count == coedges_written(*body)
                &&& pcurves == pcurves_before(*body, count as int)
            },
            None => !coedges_ready(*body),
        },
{
    let ghost right = |c: int| coedge_fault(*body, c) is None;
    let mut pcurves: usize = 0;
    let mut c: usize = 0;
    while c < body.coedges.len()
        invariant
            pcurves <= c <= body.coedges@.len(),
            pcurves == pcurves_before(*body, c as int),
            curves_written(*body) == body.curves@.len(),
            surfaces_written(*body) == body.surfaces@.len(),
            right == (|c: int| coedge_fault(*body, c) is None),
            forall|i: int| 0 <= i < c ==> #[trigger] right(i),
            forall|i: int| 0 <= i < c ==> #[trigger] coedge_ready(*body, i),
        decreases body.coedges@.len() - c,
    {
        proof {
            leading_stops_at_the_first(body.coedges@.len(), right);
        }
        let (ready, wrong) = check_coedge(body, c);
        if !ready {
            return None;
        }
        if wrong {
            proof {
                assert(!right(c as int));
                leading_is_unique(body.coedges@.len(), right, c as nat);
            }
            return Some((c, pcurves));
        }
        proof {
            assert(right(c as int));
        }
        if has_pcurve(body, c) {
            pcurves = pcurves + 1;
        }
        c = c + 1;
    }
    proof {
        leading_is_unique(body.coedges@.len(), right, c as nat);
    }
    Some((c, pcurves))
}

/// How many records there are in the end, and whether the first pass finds
/// nothing wrong. `None` where the body is not ready.
fn measure(body: &Body, num_records: usize) -> (measured: Option<(u128, bool)>)
    ensures
        match measured {
            Some((until, whole)) => {
                &&& ready(*body)
                &&& until == written_until(*body, num_records as int)
                &&& whole == {
                    &&& curves_written(*body) == body.curves@.len()
                    &&& surfaces_written(*body) == body.surfaces@.len()
                    &&& coedges_written(*body) == body.coedges@.len()
                }
            },
            None => !ready(*body),
        },
{
    proof {
        no_more_than_there_is(*body);
    }
    let vertices: u128 = num_records as u128 + 2 * (body.vertices.len() as u128);
    let curves: usize = match check_curves(body) {
        Some(count) => count,
        None => return None,
    };
    if curves < body.curves.len() {
        return Some((vertices + curves as u128, false));
    }
    let surfaces: usize = match check_surfaces(body) {
        Some(count) => count,
        None => return None,
    };
    let geometry: u128 = vertices + curves as u128 + surfaces as u128;
    if surfaces < body.surfaces.len() {
        return Some((geometry, false));
    }
    let (coedges, pcurves) = match check_coedges(body) {
        Some(counts) => counts,
        None => return None,
    };
    let uses: u128 = geometry + body.edges.len() as u128 + coedges as u128 + pcurves as u128;
    if coedges < body.coedges.len() {
        return Some((uses, false));
    }
    let owners: u128 = body.loops.len() as u128 + body.faces.len() as u128
        + body.shells.len() as u128 + body.lumps.len() as u128 + 1;
    Some((uses + owners, true))
}

/// Whether a loop hangs together.
fn is_holding(body: &Body, l: usize) -> (right: bool)
    requires
        l < body.loops@.len(),
    ensures
        right == loop_holds(*body, l as int),
{
    let ring: &Vec<usize> = &body.loops[l].coedges;
    let ghost known = |order: int| body.loops@[l as int].coedges@[order] < body.coedges@.len();
    let mut order: usize = 0;
    while order < ring.len()
        invariant
            order <= ring@.len(),
            l < body.loops@.len(),
            *ring == body.loops@[l as int].coedges,
            known == (|order: int|
                body.loops@[l as int].coedges@[order] < body.coedges@.len()),
            forall|i: int| 0 <= i < order ==> #[trigger] known(i),
        decreases ring@.len() - order,
    {
        if ring[order] >= body.coedges.len() {
            proof {
                assert(!known(order as int));
                leading_is_unique(ring@.len(), known, order as nat);
            }
            return false;
        }
        proof {
            assert(known(order as int));
        }
        order = order + 1;
    }
    proof {
        leading_is_unique(ring@.len(), known, order as nat);
    }
    body.loops[l].owner < body.faces.len()
}

/// Whether the second pass finds nothing wrong.
fn links_hold(body: &Body) -> (right: bool)
    ensures
        right == {
            &&& loops_known(*body) == body.loops@.len()
            &&& faces_known(*body) == body.faces@.len()
            &&& shells_known(*body) == body.shells@.len()
        },
{
    let ghost ring = |l: int| loop_holds(*body, l);
    let ghost face = |f: int| body.faces@[f].owner < body.shells@.len();
    let ghost shell = |s: int| body.shells@[s].owner < body.lumps@.len();
    let mut l: usize = 0;
    while l < body.loops.len()
        invariant
            l <= body.loops@.len(),
            ring == (|l: int| loop_holds(*body, l)),
            forall|i: int| 0 <= i < l ==> #[trigger] ring(i),
        decreases body.loops@.len() - l,
    {
        if !is_holding(body, l) {
            proof {
                assert(!ring(l as int));
                leading_is_unique(body.loops@.len(), ring, l as nat);
            }
            return false;
        }
        proof {
            assert(ring(l as int));
        }
        l = l + 1;
    }
    let mut f: usize = 0;
    while f < body.faces.len()
        invariant
            f <= body.faces@.len(),
            face == (|f: int| body.faces@[f].owner < body.shells@.len()),
            forall|i: int| 0 <= i < f ==> #[trigger] face(i),
        decreases body.faces@.len() - f,
    {
        if body.faces[f].owner >= body.shells.len() {
            proof {
                assert(!face(f as int));
                leading_is_unique(body.faces@.len(), face, f as nat);
            }
            return false;
        }
        proof {
            assert(face(f as int));
        }
        f = f + 1;
    }
    let mut s: usize = 0;
    while s < body.shells.len()
        invariant
            s <= body.shells@.len(),
            shell == (|s: int| body.shells@[s].owner < body.lumps@.len()),
            forall|i: int| 0 <= i < s ==> #[trigger] shell(i),
        decreases body.shells@.len() - s,
    {
        if body.shells[s].owner >= body.lumps.len() {
            proof {
                assert(!shell(s as int));
                leading_is_unique(body.shells@.len(), shell, s as nat);
            }
            return false;
        }
        proof {
            assert(shell(s as int));
        }
        s = s + 1;
    }
    proof {
        leading_is_unique(body.loops@.len(), ring, l as nat);
        leading_is_unique(body.faces@.len(), face, f as nat);
        leading_is_unique(body.shells@.len(), shell, s as nat);
    }
    true
}

/// Whether a body can be appended to a document with so many records and
/// bodies.
pub fn is_fitting(body: &Body, num_records: usize, num_bodies: usize) -> (right: bool)
    ensures
        right == fits(*body, num_records as nat, num_bodies as nat),
{
    if body.faults.len() > 0 {
        return true;
    }
    match measure(body, num_records) {
        Some((until, whole)) => until <= LIMIT as u128 && (num_bodies < usize::MAX || !whole
            || !links_hold(body)),
        None => false,
    }
}

/// Whether the curve of a coedge gets a record on a spline surface.
fn coedge_is_reading(body: &Body, c: usize) -> (right: bool)
    requires
        c < body.coedges@.len(),
    ensures
        right == coedge_reads(*body, c as int),
{
    let ring: usize = body.coedges[c].owner;
    if !has_pcurve(body, c) || ring >= body.loops.len() {
        return false;
    }
    let face: usize = body.loops[ring].owner;
    if face >= body.faces.len() {
        return false;
    }
    let key: usize = body.faces[face].surface;
    key < body.surfaces.len() && match &body.surfaces[key] {
        Surface::Nurbs(_) => true,
        _ => false,
    }
}

/// Whether writing a body takes a search through the records of the document.
fn is_reading(body: &Body) -> (right: bool)
    requires
        body.faults@.len() == 0 ==> ready(*body),
    ensures
        right == reads(*body),
{
    if body.faults.len() > 0 {
        return false;
    }
    proof {
        no_more_than_there_is(*body);
    }
    match check_curves(body) {
        Some(count) => if count < body.curves.len() {
            return false;
        },
        None => return false,
    }
    match check_surfaces(body) {
        Some(count) => if count < body.surfaces.len() {
            return false;
        },
        None => return false,
    }
    let written: usize = match check_coedges(body) {
        Some((count, _)) => count,
        None => return false,
    };
    let mut c: usize = 0;
    while c < written
        invariant
            c <= written == coedges_written(*body),
            written <= body.coedges@.len(),
            body.faults@.len() == 0,
            curves_written(*body) == body.curves@.len(),
            surfaces_written(*body) == body.surfaces@.len(),
            forall|i: int| 0 <= i < c ==> !#[trigger] coedge_reads(*body, i),
        decreases written - c,
    {
        if coedge_is_reading(body, c) {
            return true;
        }
        c = c + 1;
    }
    false
}

/// Whether a document can take a body.
pub fn is_taking(document: &SatDocument, body: &Body) -> (right: bool)
    ensures
        right == takes(records(*document), header(*document).num_bodies, *body),
{
    is_fitting(body, record_count(document), body_count(document)) && (!is_reading(body)
        || is_readable(document))
}

/// Whether the knots of a curve can be counted.
pub open spec fn is_countable(curve: Curve3) -> bool {
    match curve {
        Curve3::PlanarSpline { lifted, .. } => lifted matches Some(spline) ==> spline.knots@.len()
            <= 0x7fff_ffff,
        Curve3::Nurbs(spline) => spline.knots@.len() <= 0x7fff_ffff,
        _ => true,
    }
}

/// Whether a spline surface has a control net without holes, a weight for each of
/// its points, and knots that can be counted. Any other surface has none to have
/// holes.
pub open spec fn is_whole(surface: Surface) -> bool {
    surface matches Surface::Nurbs(net) ==> {
        let rows = net.control_points@.len();
        let columns = net.control_points@[0]@.len();
        &&& rows > 0
        &&& rows <= net.weights@.len()
        &&& forall|u: int| 0 <= u < rows ==> columns <= (#[trigger] net.control_points@[u])@.len()
        &&& forall|u: int| 0 <= u < rows ==> columns <= (#[trigger] net.weights@[u])@.len()
        &&& net.u_knots@.len() <= 0x7fff_ffff
        &&& net.v_knots@.len() <= 0x7fff_ffff
    }
}

/// Whether the curve of a coedge can be counted and has a surface to lie on.
pub open spec fn has_ground(body: Body, c: int) -> bool {
    let coedge = body.coedges@[c];
    &&& coedge.pcurve matches Some(Curve2::Nurbs(spline)) ==> spline.knots@.len() <= 0x7fff_ffff
    &&& coedge.pcurve is Some && coedge.owner < body.loops@.len()
        && body.loops@[coedge.owner as int].owner < body.faces@.len()
        ==> body.faces@[body.loops@[coedge.owner as int].owner as int].surface
        < body.surfaces@.len()
}

/// Whether no curve of a body lies on a spline surface, for there is no spline
/// surface or no coedge has a curve.
pub open spec fn needs_no_search(body: Body) -> bool {
    ||| forall|k: int| 0 <= k < body.surfaces@.len() ==> !((#[trigger] body.surfaces@[k]) is Nurbs)
    ||| forall|c: int| 0 <= c < body.coedges@.len() ==> (#[trigger] body.coedges@[c]).pcurve is None
}

/// Whether the splines of a body are whole and can be counted, and its
/// parameter-space curves have surfaces to lie on.
pub open spec fn is_ordinary(body: Body) -> bool {
    &&& forall|k: int| 0 <= k < body.curves@.len() ==> is_countable(#[trigger] body.curves@[k])
    &&& forall|k: int| 0 <= k < body.surfaces@.len() ==> is_whole(#[trigger] body.surfaces@[k])
    &&& forall|c: int| 0 <= c < body.coedges@.len() ==> #[trigger] has_ground(body, c)
}

/// A document takes every ordinary body, as long as its records stay within what
/// an index can count and its bodies within what the header can, and as long as
/// it is legible or need not be. It takes every body that was found inconsistent,
/// whatever else.
pub proof fn ordinary_bodies_are_taken(before: Seq<RecordView>, num_bodies: nat, body: Body)
    requires
        body.faults@.len() > 0 || {
            &&& is_ordinary(body)
            &&& readable(before) || needs_no_search(body)
            &&& before.len() + 2 * body.vertices@.len() + body.curves@.len() + body.surfaces@.len()
                + body.edges@.len() + 2 * body.coedges@.len() + body.loops@.len()
                + body.faces@.len() + body.shells@.len() + body.lumps@.len() + 1 <= 0x7fff_ffff
            &&& num_bodies < usize::MAX
        },
    ensures
        takes(before, num_bodies, body),
{
    no_more_than_there_is(body);
    pcurves_increase(body, 0, body.coedges@.len() as int);
    pcurves_increase(body, 0, coedges_written(body) as int);
    assert forall|c: int| has_ground(body, c) implies #[trigger] coedge_ready(body, c) by {}
    if body.faults@.len() == 0 && reads(body) {
        let c = choose|c: int| 0 <= c < coedges_written(body) && #[trigger] coedge_reads(body, c);
        let key = body.faces@[face_of(body, c).unwrap()].surface;
        assert(body.surfaces@[key as int] is Nurbs);
        assert(body.coedges@[c].pcurve is Some);
    }
}

} // verus!
