//! Writing the records of curves and surfaces, splines included.

use vstd::prelude::*;
use acadrust::entities::acis::types::SatDocument;
use crate::document::{
    add_spline_curve, add_spline_surface, can_support, header, pcurve_tokens, points_nowhere,
    points_only_within, records, spline_curve_tokens, spline_surface_tokens,
};
use crate::entities::{add_entity, entity};
use crate::geometry::{
    covers, is_same_position, same_position, Curve2, Curve3, NurbsCurve3, NurbsSurface3, Point2,
    Point3, Surface,
};
use crate::knots::{distinct_knots, multiplicities_are_positive, runs};
use crate::legible::{legible_until, plain};
use crate::records::{curve_record, curve_view, surface_record, surface_view};
use crate::scalar::{is_positive_and_finite, Bits, ONE, ZERO};
use crate::token::{announcing, fresh_record, slot_of, RecordView, TokenView};

verus! {

/// The weights to write: none where they do not matter.
pub open spec fn written_weights(rational: bool, weights: Seq<Bits>) -> Option<Seq<Bits>> {
    if rational {
        Some(weights)
    } else {
        None
    }
}

/// The record of a curve at the given index, where the curve has one.
pub open spec fn curve_entry(curve: Curve3, index: int) -> Option<RecordView> {
    match curve.spline() {
        Some(spline) => Some(
            fresh_record(
                index,
                "intcurve-curve"@,
                spline_curve_tokens(
                    spline.rational,
                    spline.degree as i32,
                    spline.periodic,
                    runs(spline.knots),
                    spline.control_points,
                    written_weights(spline.rational, spline.weights),
                    ZERO,
                ),
            ),
        ),
        None => match curve_view(curve) {
            Some((kind, tokens)) => Some(entity(index, kind, tokens)),
            None => None,
        },
    }
}

/// A grid in the order of its columns: all of the first column, then all of
/// the next one.
pub open spec fn v_major<T>(grid: Seq<Vec<T>>, rows: nat, columns: nat) -> Seq<T>
    decreases columns,
{
    if columns == 0 {
        Seq::empty()
    } else {
        v_major(grid, rows, (columns - 1) as nat) + column(grid, rows, columns - 1)
    }
}

/// One column of a grid.
pub open spec fn column<T>(grid: Seq<Vec<T>>, rows: nat, v: int) -> Seq<T> {
    Seq::new(rows, |u: int| grid[u]@[v])
}

/// Lays a grid out column by column.
pub fn flatten<T: Copy>(grid: &Vec<Vec<T>>, rows: usize, columns: usize) -> (flat: Vec<T>)
    requires
        covers(grid@, rows as nat, columns as nat),
    ensures
        flat@ == v_major(grid@, rows as nat, columns as nat),
{
    let mut flat: Vec<T> = Vec::new();
    let mut v: usize = 0;
    while v < columns
        invariant
            covers(grid@, rows as nat, columns as nat),
            v <= columns,
            flat@ == v_major(grid@, rows as nat, v as nat),
        decreases columns - v,
    {
        let mut u: usize = 0;
        while u < rows
            invariant
                covers(grid@, rows as nat, columns as nat),
                v < columns,
                u <= rows,
                flat@ == v_major(grid@, rows as nat, v as nat) + column(
                    grid@,
                    rows as nat,
                    v as int,
                ).take(u as int),
            decreases rows - u,
        {
            let row: &Vec<T> = &grid[u];
            flat.push(row[v]);
            proof {
                assert(flat@ =~= v_major(grid@, rows as nat, v as nat) + column(
                    grid@,
                    rows as nat,
                    v as int,
                ).take(u + 1));
            }
            u = u + 1;
        }
        proof {
            assert(column(grid@, rows as nat, v as int).take(u as int) =~= column(
                grid@,
                rows as nat,
                v as int,
            ));
        }
        v = v + 1;
    }
    flat
}

/// The place of a grid entry in the flat list: column `v` begins at `v` times
/// the number of rows, and row `u` stands `u` places into it.
pub proof fn flat_place<T>(grid: Seq<Vec<T>>, rows: nat, columns: nat, u: int, v: int)
    requires
        0 <= u < rows,
        0 <= v < columns,
    ensures
        v_major(grid, rows, columns).len() == columns * rows,
        0 <= v * rows + u < columns * rows,
        v_major(grid, rows, columns)[v * rows + u] == grid[u]@[v],
    decreases columns,
{
    flat_length(grid, rows, columns);
    flat_length(grid, rows, (columns - 1) as nat);
    assert(columns * rows == (columns - 1) * rows + rows) by (nonlinear_arith);
    if v < columns - 1 {
        flat_place(grid, rows, (columns - 1) as nat, u, v);
    }
}

/// The flat list is as long as the grid has entries.
pub proof fn flat_length<T>(grid: Seq<Vec<T>>, rows: nat, columns: nat)
    ensures
        v_major(grid, rows, columns).len() == columns * rows,
    decreases columns,
{
    if columns > 0 {
        flat_length(grid, rows, (columns - 1) as nat);
        assert(columns * rows == (columns - 1) * rows + rows) by (nonlinear_arith);
    } else {
        assert(columns * rows == 0) by (nonlinear_arith)
            requires
                columns == 0,
        ;
    }
}

/// The tokens of a spline surface.
pub open spec fn nurbs_surface_tokens(surface: NurbsSurface3) -> Seq<TokenView> {
    spline_surface_tokens(
        surface.v_reversed,
        surface.rational,
        surface.u_degree as i32,
        surface.v_degree as i32,
        surface.u_periodic,
        surface.v_periodic,
        runs(surface.u_knots@),
        runs(surface.v_knots@),
        v_major(surface.control_points@, surface.rows(), surface.columns()),
        written_weights(
            surface.rational,
            v_major(surface.weights@, surface.rows(), surface.columns()),
        ),
        ZERO,
    )
}

/// The record of a surface at the given index, where the surface has one.
pub open spec fn surface_entry(surface: Surface, index: int) -> Option<RecordView> {
    match surface {
        Surface::Nurbs(surface) => Some(
            fresh_record(index, "spline-surface"@, nurbs_surface_tokens(surface)),
        ),
        _ => match surface_view(surface) {
            Some((kind, tokens)) => Some(entity(index, kind, tokens)),
            None => None,
        },
    }
}

/// Adds the record of a spline surface.
pub(crate) fn add_nurbs_surface(document: &mut SatDocument, surface: &NurbsSurface3) -> (id: i32)
    requires
        surface.well_formed(),
        records(*old(document)).len() <= i32::MAX,
    ensures
        id == records(*old(document)).len(),
        Some(records(*final(document)).last()) == surface_entry(
            Surface::Nurbs(*surface),
            id as int,
        ),
        records(*final(document)) == records(*old(document)).push(records(*final(document)).last()),
        can_support(records(*final(document)).last()),
        points_nowhere(records(*final(document)).last().tokens),
        plain(records(*final(document)).last().tokens),
        header(*final(document)) == announcing(
            header(*old(document)),
            records(*final(document)).len(),
        ),
{
    proof {
        multiplicities_are_positive(surface.u_knots@);
        multiplicities_are_positive(surface.v_knots@);
    }
    let rows: usize = surface.control_points.len();
    let columns: usize = surface.control_points[0].len();
    let points: Vec<Point3> = flatten(&surface.control_points, rows, columns);
    let flat_weights: Vec<Bits> = flatten(&surface.weights, rows, columns);
    let weights: Option<&Vec<Bits>> = if surface.rational { Some(&flat_weights) } else { None };
    add_spline_surface(
        document,
        surface.v_reversed,
        surface.rational,
        surface.u_degree as i32,
        surface.v_degree as i32,
        surface.u_periodic,
        surface.v_periodic,
        &distinct_knots(&surface.u_knots),
        &distinct_knots(&surface.v_knots),
        &points,
        weights,
        ZERO,
    )
}

/// Adds the record of a surface. `None`, and nothing added, where the surface
/// has no record.
pub(crate) fn add_surface(document: &mut SatDocument, surface: &Surface) -> (id: Option<i32>)
    requires
        surface.well_formed(),
        records(*old(document)).len() <= i32::MAX,
    ensures
        match surface_entry(*surface, records(*old(document)).len() as int) {
            Some(record) => {
                &&& id == Some(records(*old(document)).len() as i32)
                &&& records(*final(document)) == records(*old(document)).push(record)
                &&& can_support(record)
                &&& points_nowhere(record.tokens)
                &&& plain(record.tokens)
                &&& record.kind == "spline-surface"@ ==> surface is Nurbs
                &&& header(*final(document)) == announcing(
                    header(*old(document)),
                    records(*final(document)).len(),
                )
            },
            None => id is None && *final(document) == *old(document),
        },
{
    match surface {
        Surface::Nurbs(surface) => Some(add_nurbs_surface(document, surface)),
        _ => match surface_record(surface) {
            Some((kind, tokens)) => {
                let id: i32 = add_entity(document, kind, tokens);
                proof {
                    let record = records(*document).last();
                    assert(points_nowhere(record.tokens));
                    reveal_strlit("spline-surface");
                    reveal_strlit("plane-surface");
                    reveal_strlit("cone-surface");
                    reveal_strlit("sphere-surface");
                    reveal_strlit("torus-surface");
                    assert("spline-surface"@[2] != "sphere-surface"@[2]);
                }
                Some(id)
            },
            None => None,
        },
    }
}

/// Adds the record of a spline curve, periodic as told.
fn add_nurbs_curve(document: &mut SatDocument, spline: &NurbsCurve3, periodic: bool) -> (id: i32)
    requires
        spline.well_formed(),
        records(*old(document)).len() <= i32::MAX,
    ensures
        id == records(*old(document)).len(),
        records(*final(document)) == records(*old(document)).push(
            fresh_record(
                id as int,
                "intcurve-curve"@,
                spline_curve_tokens(
                    spline.rational,
                    spline.degree as i32,
                    periodic,
                    runs(spline.knots@),
                    spline.control_points@,
                    written_weights(spline.rational, spline.weights@),
                    ZERO,
                ),
            ),
        ),
        points_nowhere(records(*final(document)).last().tokens),
        plain(records(*final(document)).last().tokens),
        header(*final(document)) == announcing(
            header(*old(document)),
            records(*final(document)).len(),
        ),
{
    proof {
        multiplicities_are_positive(spline.knots@);
    }
    let weights: Option<&Vec<Bits>> = if spline.rational { Some(&spline.weights) } else { None };
    add_spline_curve(
        document,
        spline.rational,
        spline.degree as i32,
        periodic,
        &distinct_knots(&spline.knots),
        &spline.control_points,
        weights,
        ZERO,
    )
}

/// Adds the record of a curve. `None`, and nothing added, where the curve has
/// no record.
pub(crate) fn add_curve(document: &mut SatDocument, curve: &Curve3) -> (id: Option<i32>)
    requires
        curve.well_formed(),
        records(*old(document)).len() <= i32::MAX,
    ensures
        match curve_entry(*curve, records(*old(document)).len() as int) {
            Some(record) => {
                &&& id == Some(records(*old(document)).len() as i32)
                &&& records(*final(document)) == records(*old(document)).push(record)
                &&& points_nowhere(record.tokens)
                &&& plain(record.tokens)
                &&& header(*final(document)) == announcing(
                    header(*old(document)),
                    records(*final(document)).len(),
                )
            },
            None => id is None && *final(document) == *old(document),
        },
{
    match curve {
        Curve3::PlanarSpline { width, lifted, closed } => {
            if !is_positive_and_finite(*width) {
                return None;
            }
            match lifted {
                Some(spline) => Some(add_nurbs_curve(document, spline, *closed)),
                None => None,
            }
        },
        Curve3::Nurbs(spline) => Some(add_nurbs_curve(document, spline, spline.periodic)),
        _ => match curve_record(curve) {
            Some((kind, tokens)) => Some(add_entity(document, kind, tokens)),
            None => None,
        },
    }
}

/// A parameter-space curve in the form of a spline.
#[verifier::ext_equal]
pub struct PcurveForm {
    pub degree: i32,
    pub knots: Seq<Bits>,
    pub control_points: Seq<Point2>,
    pub weights: Seq<Bits>,
    pub rational: bool,
    pub closed: bool,
}

/// The spline form of a parameter-space curve, where it has one. A line is a
/// spline of degree one over the unit interval.
pub open spec fn pcurve_form(curve: Curve2) -> Option<PcurveForm> {
    match curve {
        Curve2::Line { start, end } => Some(
            PcurveForm {
                degree: 1,
                knots: seq![ZERO, ZERO, ONE, ONE],
                control_points: seq![start, end],
                weights: seq![ONE, ONE],
                rational: false,
                closed: false,
            },
        ),
        Curve2::Nurbs(spline) => Some(
            PcurveForm {
                degree: spline.degree as i32,
                knots: spline.knots@,
                control_points: spline.control_points@,
                weights: spline.weights@,
                rational: spline.rational,
                closed: same_position(spline.start, spline.end),
            },
        ),
        Curve2::Other => None,
    }
}

/// The record of a parameter-space curve that goes behind the given records
/// and lies on the surface with the index `support`.
pub open spec fn pcurve_entry(
    form: PcurveForm,
    before: Seq<RecordView>,
    support: int,
) -> RecordView {
    fresh_record(
        before.len() as int,
        "pcurve"@,
        pcurve_tokens(
            before,
            form.rational,
            form.degree,
            form.closed,
            runs(form.knots),
            form.control_points,
            written_weights(form.rational, form.weights),
            ZERO,
            support as i32,
            // The knots carry the parameter interval. These are translations
            // on the supporting surface, not ends of the edge's domain.
            (ZERO, ZERO),
        ),
    )
}

/// Adds the record of a parameter-space curve on a surface. `None`, and
/// nothing added, where the curve has no spline form.
pub(crate) fn add_pcurve(document: &mut SatDocument, curve: &Curve2, support: i32) -> (id: Option<
    i32,
>)
    requires
        curve.well_formed(),
        records(*old(document)).len() <= i32::MAX,
        pcurve_form(*curve) is Some ==> {
            &&& 0 <= support < records(*old(document)).len()
            &&& records(*old(document))[support as int].index == support
            &&& can_support(records(*old(document))[support as int])
            &&& records(*old(document))[support as int].kind == "spline-surface"@
                ==> legible_until(records(*old(document)), support as int)
        },
    ensures
        match pcurve_form(*curve) {
            Some(form) => {
                let record = pcurve_entry(form, records(*old(document)), support as int);
                &&& id == Some(records(*old(document)).len() as i32)
                &&& records(*final(document)) == records(*old(document)).push(record)
                &&& points_only_within(
                    record.tokens,
                    records(*old(document))[support as int].tokens,
                )
                &&& plain(records(*old(document))[support as int].tokens) ==> plain(record.tokens)
                &&& header(*final(document)) == announcing(
                    header(*old(document)),
                    records(*final(document)).len(),
                )
            },
            None => id is None && *final(document) == *old(document),
        },
{
    match curve {
        Curve2::Line { start, end } => {
            let knots: Vec<Bits> = vec![ZERO, ZERO, ONE, ONE];
            let control: Vec<Point2> = vec![*start, *end];
            proof {
                let form = pcurve_form(*curve).unwrap();
                assert(knots@ =~= form.knots);
                assert(control@ =~= form.control_points);
                multiplicities_are_positive(knots@);
                assert(slot_of(records(*document), support as usize) == Some(support as int));
            }
            Some(
                crate::document::add_pcurve(
                    document,
                    false,
                    1,
                    false,
                    &distinct_knots(&knots),
                    &control,
                    None,
                    ZERO,
                    support,
                    (ZERO, ZERO),
                ),
            )
        },
        Curve2::Nurbs(spline) => {
            proof {
                multiplicities_are_positive(spline.knots@);
                assert(slot_of(records(*document), support as usize) == Some(support as int));
            }
            let closed: bool = is_same_position(spline.start, spline.end);
            let weights: Option<&Vec<Bits>> = if spline.rational {
                Some(&spline.weights)
            } else {
                None
            };
            Some(
                crate::document::add_pcurve(
                    document,
                    spline.rational,
                    spline.degree as i32,
                    closed,
                    &distinct_knots(&spline.knots),
                    &spline.control_points,
                    weights,
                    ZERO,
                    support,
                    (ZERO, ZERO),
                ),
            )
        },
        Curve2::Other => None,
    }
}

} // verus!
