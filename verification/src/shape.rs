//! Facts on where records stand.

use vstd::prelude::*;
use crate::body::Body;
use crate::entities::entity;
use crate::layout::{
    body_at, coedge_id, coedge_ref, coedges_at, curve_ref, curves_at, edge_ref, edges_at, end_at,
    face_of, face_ref, faces_at, loop_ref, loops_at, lump_ref, lumps_at, pcurve_of, pcurve_ref,
    pcurves_before, point_id, shell_ref, shells_at, surface_ref, surfaces_at, unlinked, vertex_id,
    vertex_ref, with_blanks, with_coedges, with_curves, with_edges, with_surfaces, with_vertices,
};
use crate::legible::plain;
use crate::splines::{curve_entry, pcurve_entry, surface_entry};
use crate::token::{RecordView, TokenView};

verus! {

/// Whether `after` is `before` with records behind it whose indices are their
/// positions and that have no attributes.
pub open spec fn grows(before: Seq<RecordView>, after: Seq<RecordView>) -> bool {
    &&& before.len() <= after.len()
    &&& forall|i: int| 0 <= i < before.len() ==> #[trigger] after[i] == before[i]
    &&& forall|i: int| before.len() <= i < after.len() ==> (#[trigger] after[i]).index == i
    &&& forall|i: int| before.len() <= i < after.len() ==> (#[trigger] after[i]).attribute == -1
}

/// Whether every pointer in a list of tokens is null or refers to one of `end`
/// records.
pub open spec fn resolves(tokens: Seq<TokenView>, end: int) -> bool {
    forall|i: int|
        0 <= i < tokens.len() ==> ((#[trigger] tokens[i]) matches TokenView::Pointer(id) ==> -1
            <= id < end)
}

/// Whether the records are `before` with others behind it, `end` in all, whose
/// indices are their positions, that have no attributes and no binary tokens, and
/// whose pointers refer to records.
pub open spec fn intact(before: Seq<RecordView>, all: Seq<RecordView>, end: int) -> bool {
    &&& before.len() <= all.len() == end
    &&& forall|i: int| 0 <= i < before.len() ==> #[trigger] all[i] == before[i]
    &&& forall|i: int| before.len() <= i < end ==> (#[trigger] all[i]).index == i
    &&& forall|i: int| before.len() <= i < end ==> (#[trigger] all[i]).attribute == -1
    &&& forall|i: int| before.len() <= i < end ==> resolves((#[trigger] all[i]).tokens, end)
    &&& forall|i: int| before.len() <= i < end ==> plain((#[trigger] all[i]).tokens)
}

/// How many curves of coedges there are is never less for more coedges.
pub proof fn pcurves_increase(body: Body, less: int, more: int)
    requires
        0 <= less <= more,
    ensures
        pcurves_before(body, less) <= pcurves_before(body, more) <= pcurves_before(body, less)
            + more - less,
    decreases more - less,
{
    if less < more {
        pcurves_increase(body, less, more - 1);
    }
}

/// The coedges stand between the edges and the loops, and so do their curves.
pub proof fn coedges_in_range(body: Body, base: int)
    requires
        0 <= base,
    ensures
        forall|c: int|
            0 <= c < body.coedges@.len() ==> coedges_at(body, base) <= (#[trigger] coedge_id(
                body,
                base,
                c,
            )) < loops_at(body, base),
        forall|c: int|
            0 <= c < body.coedges@.len() && pcurve_of(body, c) is Some ==> coedges_at(body, base)
                < (#[trigger] coedge_id(body, base, c)),
        coedges_at(body, base) <= loops_at(body, base),
{
    assert forall|c: int| 0 <= c < body.coedges@.len() implies coedges_at(body, base)
        <= #[trigger] coedge_id(body, base, c) < loops_at(body, base) by {
        pcurves_increase(body, 0, c);
        pcurves_increase(body, c + 1, body.coedges@.len() as int);
    }
}

/// Every index is null or that of a record, whatever the key.
pub proof fn refs_resolve(body: Body, base: int)
    requires
        0 <= base,
    ensures
        forall|key: usize|
            -1 <= #[trigger] vertex_ref(body, base, key) < end_at(body, base),
        forall|key: usize| -1 <= #[trigger] curve_ref(body, base, key) < end_at(body, base),
        forall|key: usize| -1 <= #[trigger] surface_ref(body, base, key) < end_at(body, base),
        forall|key: usize| -1 <= #[trigger] edge_ref(body, base, key) < end_at(body, base),
        forall|key: usize| -1 <= #[trigger] coedge_ref(body, base, key) < end_at(body, base),
        forall|key: usize| -1 <= #[trigger] pcurve_ref(body, base, key) < end_at(body, base),
        forall|key: usize| -1 <= #[trigger] loop_ref(body, base, key) < end_at(body, base),
        forall|key: usize| -1 <= #[trigger] face_ref(body, base, key) < end_at(body, base),
        forall|key: usize| -1 <= #[trigger] shell_ref(body, base, key) < end_at(body, base),
        forall|key: usize| -1 <= #[trigger] lump_ref(body, base, key) < end_at(body, base),
{
    coedges_in_range(body, base);
    assert forall|key: usize| -1 <= #[trigger] coedge_ref(body, base, key) < end_at(
        body,
        base,
    ) by {
        if key < body.coedges@.len() {
            assert(coedge_id(body, base, key as int) < loops_at(body, base));
        }
    }
    assert forall|key: usize| -1 <= #[trigger] pcurve_ref(body, base, key) < end_at(
        body,
        base,
    ) by {
        if key < body.coedges@.len() {
            assert(coedge_id(body, base, key as int) < loops_at(body, base));
        }
    }
}

/// Where the first `n` vertices stand.
pub proof fn vertices_stand(body: Body, before: Seq<RecordView>, n: int)
    requires
        0 <= n <= body.vertices@.len(),
    ensures
        grows(before, with_vertices(body, before, n)),
        with_vertices(body, before, n).len() == before.len() + 2 * n,
        forall|v: int|
            #![trigger vertex_id(before.len() as int, v)]
            0 <= v < n ==> with_vertices(body, before, n)[vertex_id(before.len() as int, v)]
                == entity(vertex_id(before.len() as int, v), "vertex"@, Seq::empty()),
        forall|v: int|
            #![trigger point_id(before.len() as int, v)]
            0 <= v < n ==> with_vertices(body, before, n)[point_id(before.len() as int, v)]
                == entity(
                point_id(before.len() as int, v),
                "point"@,
                seq![TokenView::Position(body.vertices@[v].point)],
            ),
    decreases n,
{
    if n > 0 {
        vertices_stand(body, before, n - 1);
    }
}

/// Where the first `n` curves stand.
pub proof fn curves_stand(body: Body, before: Seq<RecordView>, n: int)
    requires
        0 <= n <= body.curves@.len(),
        forall|k: int| 0 <= k < n ==> curve_entry(#[trigger] body.curves@[k], 0) is Some,
    ensures
        grows(
            with_vertices(body, before, body.vertices@.len() as int),
            with_curves(body, before, n),
        ),
        grows(before, with_curves(body, before, n)),
        with_curves(body, before, n).len() == curves_at(body, before.len() as int) + n,
        forall|k: int|
            0 <= k < n ==> Some(
                with_curves(body, before, n)[curves_at(body, before.len() as int) + k],
            ) == curve_entry(
                #[trigger] body.curves@[k],
                curves_at(body, before.len() as int) + k,
            ),
    decreases n,
{
    vertices_stand(body, before, body.vertices@.len() as int);
    if n > 0 {
        curves_stand(body, before, n - 1);
        assert(curve_entry(body.curves@[n - 1], 0) is Some);
    }
}

/// Where the first `n` surfaces stand.
pub proof fn surfaces_stand(body: Body, before: Seq<RecordView>, n: int)
    requires
        0 <= n <= body.surfaces@.len(),
        forall|k: int|
            0 <= k < body.curves@.len() ==> curve_entry(#[trigger] body.curves@[k], 0) is Some,
        forall|k: int| 0 <= k < n ==> surface_entry(#[trigger] body.surfaces@[k], 0) is Some,
    ensures
        grows(
            with_curves(body, before, body.curves@.len() as int),
            with_surfaces(body, before, n),
        ),
        grows(before, with_surfaces(body, before, n)),
        with_surfaces(body, before, n).len() == surfaces_at(body, before.len() as int) + n,
        forall|k: int|
            0 <= k < n ==> Some(
                with_surfaces(body, before, n)[surfaces_at(body, before.len() as int) + k],
            ) == surface_entry(
                #[trigger] body.surfaces@[k],
                surfaces_at(body, before.len() as int) + k,
            ),
    decreases n,
{
    curves_stand(body, before, body.curves@.len() as int);
    if n > 0 {
        surfaces_stand(body, before, n - 1);
        assert(surface_entry(body.surfaces@[n - 1], 0) is Some);
    }
}

/// Where `n` records with nothing in them stand.
pub proof fn blanks_stand(sofar: Seq<RecordView>, kind: Seq<char>, n: int)
    requires
        0 <= n,
    ensures
        grows(sofar, with_blanks(sofar, kind, n)),
        with_blanks(sofar, kind, n).len() == sofar.len() + n,
        forall|i: int|
            sofar.len() <= i < sofar.len() + n ==> #[trigger] with_blanks(sofar, kind, n)[i]
                == entity(i, kind, Seq::empty()),
    decreases n,
{
    if n > 0 {
        blanks_stand(sofar, kind, n - 1);
    }
}

/// What [`coedges_stand`] says of one coedge.
pub open spec fn coedge_stands(
    body: Body,
    before: Seq<RecordView>,
    all: Seq<RecordView>,
    c: int,
) -> bool {
    let base = before.len() as int;
    let id = coedge_id(body, base, c);
    &&& all[id] == entity(id, "coedge"@, Seq::empty())
    &&& match pcurve_of(body, c) {
        Some(form) => all[id - 1] == pcurve_entry(
            form,
            with_coedges(body, before, c),
            surface_ref(body, base, body.faces@[face_of(body, c).unwrap()].surface),
        ),
        None => true,
    }
}

/// Where the first `n` coedges stand.
pub proof fn coedges_stand(body: Body, before: Seq<RecordView>, n: int)
    requires
        0 <= n <= body.coedges@.len(),
        forall|k: int|
            0 <= k < body.curves@.len() ==> curve_entry(#[trigger] body.curves@[k], 0) is Some,
        forall|k: int|
            0 <= k < body.surfaces@.len() ==> surface_entry(#[trigger] body.surfaces@[k], 0)
                is Some,
    ensures
        grows(
            with_surfaces(body, before, body.surfaces@.len() as int),
            with_edges(body, before),
        ),
        with_edges(body, before).len() == coedges_at(body, before.len() as int),
        grows(with_edges(body, before), with_coedges(body, before, n)),
        grows(before, with_coedges(body, before, n)),
        with_coedges(body, before, n).len() == coedges_at(body, before.len() as int) + n
            + pcurves_before(body, n),
        forall|c: int|
            0 <= c < n ==> #[trigger] coedge_stands(
                body,
                before,
                with_coedges(body, before, n),
                c,
            ),
    decreases n,
{
    surfaces_stand(body, before, body.surfaces@.len() as int);
    blanks_stand(
        with_surfaces(body, before, body.surfaces@.len() as int),
        "edge"@,
        body.edges@.len() as int,
    );
    if n > 0 {
        coedges_stand(body, before, n - 1);
        let shorter = with_coedges(body, before, n - 1);
        let longer = with_coedges(body, before, n);
        assert forall|c: int| 0 <= c < n implies #[trigger] coedge_stands(
            body,
            before,
            longer,
            c,
        ) by {
            if c < n - 1 {
                assert(coedge_stands(body, before, shorter, c));
                pcurves_increase(body, c + 1, n - 1);
                pcurves_increase(body, 0, c);
            }
        }
    }
}

/// What [`records_stand`] says of where records stand.
pub open spec fn all_stand(body: Body, before: Seq<RecordView>, all: Seq<RecordView>) -> bool {
    let base = before.len() as int;
    &&& forall|v: int|
        #![trigger point_id(base, v)]
        0 <= v < body.vertices@.len() ==> all[point_id(base, v)] == entity(
            point_id(base, v),
            "point"@,
            seq![TokenView::Position(body.vertices@[v].point)],
        )
    &&& forall|v: int|
        #![trigger vertex_id(base, v)]
        0 <= v < body.vertices@.len() ==> all[vertex_id(base, v)] == entity(
            vertex_id(base, v),
            "vertex"@,
            Seq::empty(),
        )
    &&& forall|k: int|
        0 <= k < body.curves@.len() ==> Some(all[curves_at(body, base) + k]) == curve_entry(
            #[trigger] body.curves@[k],
            curves_at(body, base) + k,
        )
    &&& forall|k: int|
        0 <= k < body.surfaces@.len() ==> Some(all[surfaces_at(body, base) + k]) == surface_entry(
            #[trigger] body.surfaces@[k],
            surfaces_at(body, base) + k,
        )
    &&& forall|i: int|
        edges_at(body, base) <= i < coedges_at(body, base) ==> #[trigger] all[i] == entity(
            i,
            "edge"@,
            Seq::empty(),
        )
    &&& forall|c: int|
        0 <= c < body.coedges@.len() ==> #[trigger] coedge_stands(body, before, all, c)
    &&& forall|i: int|
        loops_at(body, base) <= i < faces_at(body, base) ==> #[trigger] all[i] == entity(
            i,
            "loop"@,
            Seq::empty(),
        )
    &&& forall|i: int|
        faces_at(body, base) <= i < shells_at(body, base) ==> #[trigger] all[i] == entity(
            i,
            "face"@,
            Seq::empty(),
        )
    &&& forall|i: int|
        shells_at(body, base) <= i < lumps_at(body, base) ==> #[trigger] all[i] == entity(
            i,
            "shell"@,
            Seq::empty(),
        )
    &&& forall|i: int|
        lumps_at(body, base) <= i < body_at(body, base) ==> #[trigger] all[i] == entity(
            i,
            "lump"@,
            Seq::empty(),
        )
    &&& all[body_at(body, base)] == entity(body_at(body, base), "body"@, Seq::empty())
}

/// Where all records of a body stand.
pub proof fn records_stand(body: Body, before: Seq<RecordView>)
    requires
        forall|k: int|
            0 <= k < body.curves@.len() ==> curve_entry(#[trigger] body.curves@[k], 0) is Some,
        forall|k: int|
            0 <= k < body.surfaces@.len() ==> surface_entry(#[trigger] body.surfaces@[k], 0)
                is Some,
    ensures
        grows(before, unlinked(body, before)),
        unlinked(body, before).len() == end_at(body, before.len() as int),
        all_stand(body, before, unlinked(body, before)),
{
    let base = before.len() as int;
    let vertices = with_vertices(body, before, body.vertices@.len() as int);
    let curves = with_curves(body, before, body.curves@.len() as int);
    let surfaces = with_surfaces(body, before, body.surfaces@.len() as int);
    let edges = with_edges(body, before);
    let coedges = with_coedges(body, before, body.coedges@.len() as int);
    let loops = with_blanks(coedges, "loop"@, body.loops@.len() as int);
    let faces = with_blanks(loops, "face"@, body.faces@.len() as int);
    let shells = with_blanks(faces, "shell"@, body.shells@.len() as int);
    let lumps = with_blanks(shells, "lump"@, body.lumps@.len() as int);
    let all = unlinked(body, before);
    vertices_stand(body, before, body.vertices@.len() as int);
    curves_stand(body, before, body.curves@.len() as int);
    surfaces_stand(body, before, body.surfaces@.len() as int);
    blanks_stand(surfaces, "edge"@, body.edges@.len() as int);
    coedges_stand(body, before, body.coedges@.len() as int);
    blanks_stand(coedges, "loop"@, body.loops@.len() as int);
    blanks_stand(loops, "face"@, body.faces@.len() as int);
    blanks_stand(faces, "shell"@, body.shells@.len() as int);
    blanks_stand(shells, "lump"@, body.lumps@.len() as int);
    blanks_stand(lumps, "body"@, 1);
    assert(grows(coedges, all));
    assert(grows(edges, all));
    assert(grows(surfaces, all));
    assert(grows(curves, all));
    assert(grows(vertices, all));
    assert forall|c: int| 0 <= c < body.coedges@.len() implies #[trigger] coedge_stands(
        body,
        before,
        all,
        c,
    ) by {
        assert(coedge_stands(body, before, coedges, c));
        pcurves_increase(body, c + 1, body.coedges@.len() as int);
        pcurves_increase(body, 0, c);
    }
}

} // verus!
