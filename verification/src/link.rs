//! The second pass: the pointers, now that every index exists.

use vstd::prelude::*;
use acadrust::entities::acis::types::SatDocument;
use crate::allocate::{ids_match, quiet, Ids};
use crate::append::Unappendable;
use crate::body::{Body, Coedge, Edge, Face, Loop, Lump, Shell};
use crate::document::{header, points_nowhere, records};
use crate::entities::{a_write_is_of_one_record, rewritten};
use crate::ids::{id_of, lookup, next_in, next_record};
use crate::layout::{
    all_links, body_at, body_link, coedge_id, coedge_link, coedge_ref, coedges_at, coedges_known,
    curve_ref, edge_link, edge_links, edge_ref, end_at, face_link, face_links, face_ref, faces_at,
    faces_known, first_edge, leading_is_unique, linked, links_to_edges, links_to_faces,
    links_to_loops, links_to_shells, loop_holds, loop_link, loop_links, loop_ref, loops_at,
    loops_known, lump_link, lump_links, lump_ref, lumps_at, pcurve_ref, places, point_id,
    ring_links, shell_link, shell_links, shell_ref, shells_at, shells_known, stopped_while_linking,
    surface_ref, touches, unlinked, vertex_id, vertex_link, vertex_links, vertex_ref, with_link,
    Link,
};
use crate::legible::plain;
use crate::records::{null, pointer, sense};
use crate::shape::{coedges_in_range, grows, intact, refs_resolve, resolves};
use crate::token::{token_views, NULL, RecordView, Token};

verus! {

/// Records that point nowhere are intact.
pub proof fn quiet_is_intact(before: Seq<RecordView>, all: Seq<RecordView>)
    requires
        grows(before, all),
        quiet(all, before.len() as int),
    ensures
        intact(before, all, all.len() as int),
{
    assert forall|i: int| before.len() <= i < all.len() implies resolves(
        (#[trigger] all[i]).tokens,
        all.len() as int,
    ) by {
        assert(points_nowhere(all[i].tokens));
    }
}

/// One more link is made behind the others.
pub proof fn one_more_link(blank: Seq<RecordView>, links: Seq<Link>, link: Link)
    ensures
        linked(blank, links.push(link)) == with_link(linked(blank, links), link),
{
    assert(links.push(link).drop_last() =~= links);
}

/// A sibling is null or a record.
pub proof fn next_resolves(order: Seq<usize>, key: usize, count: nat, first: int, end: int)
    requires
        0 <= first,
        first + count <= end <= i32::MAX,
    ensures
        -1 <= next_record(order, key, places(count, first)) < end,
{
}

/// What the first pass noted of each entity is its index.
proof fn noted(ids: Ids, body: Body, base: int)
    requires
        0 <= base,
        end_at(body, base) <= i32::MAX,
        ids_match(ids, body, base),
    ensures
        forall|key: usize|
            key < body.vertices@.len() ==> #[trigger] id_of(ids.points@, key) == point_id(
                base,
                key as int,
            ),
        forall|key: usize| #[trigger] id_of(ids.vertices@, key) == vertex_ref(body, base, key),
        forall|key: usize| #[trigger] id_of(ids.curves@, key) == curve_ref(body, base, key),
        forall|key: usize| #[trigger] id_of(ids.surfaces@, key) == surface_ref(body, base, key),
        forall|key: usize| #[trigger] id_of(ids.edges@, key) == edge_ref(body, base, key),
        forall|key: usize| #[trigger] id_of(ids.coedges@, key) == coedge_ref(body, base, key),
        forall|key: usize| #[trigger] id_of(ids.pcurves@, key) == pcurve_ref(body, base, key),
        forall|key: usize| #[trigger] id_of(ids.loops@, key) == loop_ref(body, base, key),
        forall|key: usize| #[trigger] id_of(ids.faces@, key) == face_ref(body, base, key),
        forall|key: usize| #[trigger] id_of(ids.shells@, key) == shell_ref(body, base, key),
        forall|key: usize| #[trigger] id_of(ids.lumps@, key) == lump_ref(body, base, key),
{
    coedges_in_range(body, base);
    assert forall|key: usize| #[trigger] id_of(ids.coedges@, key) == coedge_ref(
        body,
        base,
        key,
    ) by {
        if key < body.coedges@.len() {
            assert(coedge_id(body, base, key as int) < loops_at(body, base));
        }
    }
    assert forall|key: usize| #[trigger] id_of(ids.pcurves@, key) == pcurve_ref(
        body,
        base,
        key,
    ) by {
        if key < body.coedges@.len() {
            assert(coedge_id(body, base, key as int) < loops_at(body, base));
        }
    }
}

/// Giving a record that was added in the first pass its tokens is making its
/// link, and leaves the records intact.
proof fn a_link_is_made(before: Seq<RecordView>, all: Seq<RecordView>, link: Link)
    requires
        all.len() <= i32::MAX,
        intact(before, all, all.len() as int),
        before.len() <= link.id < all.len(),
        resolves(link.tokens, all.len() as int),
        plain(link.tokens),
    ensures
        rewritten(all, link.id as i32, link.tokens) == with_link(all, link),
        intact(before, with_link(all, link), all.len() as int),
{
    assert(all[link.id].index == link.id);
    a_write_is_of_one_record(all, link.id as i32, link.tokens);
}

/// Points every vertex at its first edge and its point.
fn link_vertices(
    body: &Body,
    document: &mut SatDocument,
    ids: &Ids,
    Ghost(before): Ghost<Seq<RecordView>>,
)
    requires
        end_at(*body, before.len() as int) <= i32::MAX,
        ids_match(*ids, *body, before.len() as int),
        records(*old(document)) == unlinked(*body, before),
        intact(before, records(*old(document)), end_at(*body, before.len() as int)),
    ensures
        records(*final(document)) == linked(
            unlinked(*body, before),
            vertex_links(*body, before.len() as int, body.vertices@.len()),
        ),
        intact(before, records(*final(document)), end_at(*body, before.len() as int)),
        header(*final(document)) == header(*old(document)),
{
    let ghost base = before.len() as int;
    let ghost end = end_at(*body, base);
    let ghost blank = unlinked(*body, before);
    let ghost announced = header(*document);
    let mut v: usize = 0;
    proof {
        assert(vertex_links(*body, base, 0) =~= Seq::<Link>::empty());
    }
    while v < body.vertices.len()
        invariant
            v <= body.vertices@.len(),
            base == before.len(),
            end == end_at(*body, base),
            end <= i32::MAX,
            blank == unlinked(*body, before),
            ids_match(*ids, *body, base),
            records(*document) == linked(blank, vertex_links(*body, base, v as nat)),
            intact(before, records(*document), end),
            header(*document) == announced,
        decreases body.vertices@.len() - v,
    {
        let ghost right = |e: int| !touches(*body, e, v as int);
        let mut e: usize = 0;
        while e < body.edges.len() && body.edges[e].start != v && body.edges[e].end != v
            invariant
                e <= body.edges@.len(),
                v < body.vertices@.len(),
                right == (|e: int| !touches(*body, e, v as int)),
                forall|i: int| 0 <= i < e ==> #[trigger] right(i),
            decreases body.edges@.len() - e,
        {
            proof {
                assert(right(e as int));
            }
            e = e + 1;
        }
        proof {
            assert(e < body.edges@.len() ==> !right(e as int));
            leading_is_unique(body.edges@.len(), right, e as nat);
            assert(first_edge(*body, v as int) == e);
            noted(*ids, *body, base);
            refs_resolve(*body, base);
        }
        let edge: i32 = if e < body.edges.len() { lookup(&ids.edges, e) } else { NULL };
        let tokens: Vec<Token> = vec![
            null(),
            pointer(edge),
            pointer(lookup(&ids.points, v)),
        ];
        let ghost link = vertex_link(*body, base, v as int);
        proof {
            assert(token_views(tokens@) =~= link.tokens);
            assert(vertex_ref(*body, base, v) == vertex_id(base, v as int));
            one_more_link(blank, vertex_links(*body, base, v as nat), link);
            assert(vertex_links(*body, base, v as nat).push(link) =~= vertex_links(
                *body,
                base,
                (v + 1) as nat,
            ));
            a_link_is_made(before, records(*document), link);
        }
        crate::entities::set(document, lookup(&ids.vertices, v), tokens);
        v = v + 1;
    }
}

/// Points every edge at its vertices, its first coedge and its curve.
fn link_edges(
    body: &Body,
    document: &mut SatDocument,
    ids: &Ids,
    Ghost(before): Ghost<Seq<RecordView>>,
    Ghost(done): Ghost<Seq<Link>>,
)
    requires
        end_at(*body, before.len() as int) <= i32::MAX,
        ids_match(*ids, *body, before.len() as int),
        records(*old(document)) == linked(unlinked(*body, before), done),
        intact(before, records(*old(document)), end_at(*body, before.len() as int)),
    ensures
        records(*final(document)) == linked(
            unlinked(*body, before),
            done + edge_links(*body, before.len() as int, body.edges@.len()),
        ),
        intact(before, records(*final(document)), end_at(*body, before.len() as int)),
        header(*final(document)) == header(*old(document)),
{
    let ghost base = before.len() as int;
    let ghost end = end_at(*body, base);
    let ghost blank = unlinked(*body, before);
    let mut e: usize = 0;
    proof {
        assert(done + edge_links(*body, base, 0) =~= done);
    }
    while e < body.edges.len()
        invariant
            e <= body.edges@.len(),
            base == before.len(),
            end == end_at(*body, base),
            end <= i32::MAX,
            blank == unlinked(*body, before),
            ids_match(*ids, *body, base),
            records(*document) == linked(blank, done + edge_links(*body, base, e as nat)),
            intact(before, records(*document), end),
            header(*document) == header(*old(document)),
        decreases body.edges@.len() - e,
    {
        proof {
            noted(*ids, *body, base);
            refs_resolve(*body, base);
        }
        let edge: &Edge = &body.edges[e];
        let coedge: i32 = if edge.coedges.len() > 0 {
            lookup(&ids.coedges, edge.coedges[0])
        } else {
            NULL
        };
        let tokens: Vec<Token> = vec![
            null(),
            pointer(lookup(&ids.vertices, edge.start)),
            Token::Float(edge.start_parameter),
            pointer(lookup(&ids.vertices, edge.end)),
            Token::Float(edge.end_parameter),
            pointer(coedge),
            pointer(lookup(&ids.curves, edge.curve)),
            sense(true),
            Token::Text("unknown".to_string()),
        ];
        let ghost link = edge_link(*body, base, e as int);
        proof {
            assert(token_views(tokens@) =~= link.tokens);
            assert(edge_ref(*body, base, e) == link.id);
            one_more_link(blank, done + edge_links(*body, base, e as nat), link);
            assert((done + edge_links(*body, base, e as nat)).push(link) =~= done + edge_links(
                *body,
                base,
                (e + 1) as nat,
            ));
            a_link_is_made(before, records(*document), link);
        }
        crate::entities::set(document, lookup(&ids.edges, e), tokens);
        e = e + 1;
    }
}

/// The places after and before one of `count` places in a ring.
fn around(order: usize, count: usize) -> (neighbours: (usize, usize))
    requires
        order < count,
    ensures
        neighbours.0 == (order + 1) % (count as int),
        neighbours.1 == (order + count - 1) % (count as int),
        neighbours.0 < count,
        neighbours.1 < count,
{
    let next: usize = if order + 1 == count { 0 } else { order + 1 };
    let previous: usize = if order == 0 { count - 1 } else { order - 1 };
    proof {
        vstd::arithmetic::div_mod::lemma_mod_self_0(count as int);
        vstd::arithmetic::div_mod::lemma_small_mod(next as nat, count as nat);
        vstd::arithmetic::div_mod::lemma_small_mod(previous as nat, count as nat);
        if order > 0 {
            vstd::arithmetic::div_mod::lemma_mod_add_multiples_vanish(
                previous as int,
                count as int,
            );
        }
    }
    (next, previous)
}

/// Points the coedges of a loop at each other, up to the first one that is
/// missing.
fn link_ring(
    body: &Body,
    document: &mut SatDocument,
    ids: &Ids,
    l: usize,
    Ghost(before): Ghost<Seq<RecordView>>,
    Ghost(done): Ghost<Seq<Link>>,
) -> (result: Result<(), Unappendable>)
    requires
        l < body.loops@.len(),
        end_at(*body, before.len() as int) <= i32::MAX,
        ids_match(*ids, *body, before.len() as int),
        records(*old(document)) == linked(unlinked(*body, before), done),
        intact(before, records(*old(document)), end_at(*body, before.len() as int)),
    ensures
        match result {
            Ok(()) => coedges_known(*body, l as int) == body.loops@[l as int].coedges@.len(),
            Err(reason) => {
                &&& coedges_known(*body, l as int) < body.loops@[l as int].coedges@.len()
                &&& reason == Unappendable::Inconsistent
            },
        },
        records(*final(document)) == linked(
            unlinked(*body, before),
            done + ring_links(
                *body,
                before.len() as int,
                l as int,
                coedges_known(*body, l as int),
            ),
        ),
        intact(before, records(*final(document)), end_at(*body, before.len() as int)),
        header(*final(document)) == header(*old(document)),
{
    let ghost base = before.len() as int;
    let ghost end = end_at(*body, base);
    let ghost blank = unlinked(*body, before);
    let ring: &Vec<usize> = &body.loops[l].coedges;
    let count: usize = ring.len();
    let ghost right = |order: int| body.loops@[l as int].coedges@[order] < body.coedges@.len();
    let mut order: usize = 0;
    proof {
        assert(done + ring_links(*body, base, l as int, 0) =~= done);
    }
    while order < count
        invariant
            order <= count,
            l < body.loops@.len(),
            *ring == body.loops@[l as int].coedges,
            count == ring@.len(),
            right == (|order: int|
                body.loops@[l as int].coedges@[order] < body.coedges@.len()),
            forall|i: int| 0 <= i < order ==> #[trigger] right(i),
            base == before.len(),
            end == end_at(*body, base),
            end <= i32::MAX,
            blank == unlinked(*body, before),
            ids_match(*ids, *body, base),
            records(*document) == linked(
                blank,
                done + ring_links(*body, base, l as int, order as nat),
            ),
            intact(before, records(*document), end),
            header(*document) == header(*old(document)),
        decreases count - order,
    {
        let key: usize = ring[order];
        if key >= body.coedges.len() {
            proof {
                assert(!right(order as int));
                leading_is_unique(count as nat, right, order as nat);
            }
            return Err(Unappendable::Inconsistent);
        }
        proof {
            assert(right(order as int));
            noted(*ids, *body, base);
            refs_resolve(*body, base);
            coedges_in_range(*body, base);
        }
        let node: &Coedge = &body.coedges[key];
        let (after, ahead) = around(order, count);
        let next: usize = ring[after];
        let previous: usize = ring[ahead];
        let partner: i32 = match node.partner {
            Some(partner) => lookup(&ids.coedges, partner),
            None => NULL,
        };
        let tokens: Vec<Token> = vec![
            null(),
            pointer(lookup(&ids.coedges, next)),
            pointer(lookup(&ids.coedges, previous)),
            pointer(partner),
            pointer(lookup(&ids.edges, node.edge)),
            sense(node.forward),
            pointer(lookup(&ids.loops, l)),
            pointer(lookup(&ids.pcurves, key)),
        ];
        let ghost link = coedge_link(*body, base, l as int, order as int);
        proof {
            assert(loop_ref(*body, base, l) == loops_at(*body, base) + l);
            assert(token_views(tokens@) =~= link.tokens);
            assert(coedge_id(*body, base, key as int) >= coedges_at(*body, base));
            one_more_link(blank, done + ring_links(*body, base, l as int, order as nat), link);
            assert((done + ring_links(*body, base, l as int, order as nat)).push(link) =~= done
                + ring_links(*body, base, l as int, (order + 1) as nat));
            a_link_is_made(before, records(*document), link);
        }
        crate::entities::set(document, lookup(&ids.coedges, key), tokens);
        order = order + 1;
    }
    proof {
        leading_is_unique(count as nat, right, order as nat);
    }
    Ok(())
}

/// Points a loop at the next one of its face, its first coedge and the face.
fn link_loop(
    body: &Body,
    document: &mut SatDocument,
    ids: &Ids,
    l: usize,
    Ghost(before): Ghost<Seq<RecordView>>,
    Ghost(done): Ghost<Seq<Link>>,
)
    requires
        l < body.loops@.len(),
        body.loops@[l as int].owner < body.faces@.len(),
        end_at(*body, before.len() as int) <= i32::MAX,
        ids_match(*ids, *body, before.len() as int),
        records(*old(document)) == linked(unlinked(*body, before), done),
        intact(before, records(*old(document)), end_at(*body, before.len() as int)),
    ensures
        records(*final(document)) == linked(
            unlinked(*body, before),
            done.push(loop_link(*body, before.len() as int, l as int)),
        ),
        intact(before, records(*final(document)), end_at(*body, before.len() as int)),
        header(*final(document)) == header(*old(document)),
{
    let ghost base = before.len() as int;
    let ghost end = end_at(*body, base);
    let ghost blank = unlinked(*body, before);
    let ring: &Loop = &body.loops[l];
    let face: &Face = &body.faces[ring.owner];
    proof {
        noted(*ids, *body, base);
        refs_resolve(*body, base);
        coedges_in_range(*body, base);
        next_resolves(face.loops@, l, body.loops@.len(), loops_at(*body, base), end);
    }
    let first: i32 = if ring.coedges.len() > 0 {
        lookup(&ids.coedges, ring.coedges[0])
    } else {
        NULL
    };
    let tokens: Vec<Token> = vec![
        null(),
        pointer(next_in(face.loops.as_slice(), l, &ids.loops)),
        pointer(first),
        pointer(lookup(&ids.faces, ring.owner)),
    ];
    let ghost link = loop_link(*body, base, l as int);
    proof {
        assert(token_views(tokens@) =~= link.tokens);
        assert(loop_ref(*body, base, l) == link.id);
        one_more_link(blank, done, link);
        a_link_is_made(before, records(*document), link);
    }
    crate::entities::set(document, lookup(&ids.loops, l), tokens);
}

/// Points the coedges of every loop at each other, and the loop at them, up to
/// the first loop that does not hang together.
fn link_loops(
    body: &Body,
    document: &mut SatDocument,
    ids: &Ids,
    Ghost(before): Ghost<Seq<RecordView>>,
    Ghost(done): Ghost<Seq<Link>>,
) -> (result: Result<(), Unappendable>)
    requires
        end_at(*body, before.len() as int) <= i32::MAX,
        ids_match(*ids, *body, before.len() as int),
        records(*old(document)) == linked(unlinked(*body, before), done),
        intact(before, records(*old(document)), end_at(*body, before.len() as int)),
    ensures
        match result {
            Ok(()) => {
                &&& loops_known(*body) == body.loops@.len()
                &&& records(*final(document)) == linked(
                    unlinked(*body, before),
                    done + loop_links(*body, before.len() as int, body.loops@.len() as int),
                )
            },
            Err(reason) => {
                let l = loops_known(*body) as int;
                &&& l < body.loops@.len()
                &&& reason == Unappendable::Inconsistent
                &&& records(*final(document)) == linked(
                    unlinked(*body, before),
                    done + loop_links(*body, before.len() as int, l) + ring_links(
                        *body,
                        before.len() as int,
                        l,
                        coedges_known(*body, l),
                    ),
                )
            },
        },
        intact(before, records(*final(document)), end_at(*body, before.len() as int)),
        header(*final(document)) == header(*old(document)),
{
    let ghost base = before.len() as int;
    let ghost end = end_at(*body, base);
    let ghost blank = unlinked(*body, before);
    let ghost right = |l: int| loop_holds(*body, l);
    let mut l: usize = 0;
    proof {
        assert(done + loop_links(*body, base, 0) =~= done);
    }
    while l < body.loops.len()
        invariant
            l <= body.loops@.len(),
            right == (|l: int| loop_holds(*body, l)),
            forall|i: int| 0 <= i < l ==> #[trigger] right(i),
            base == before.len(),
            end == end_at(*body, base),
            end <= i32::MAX,
            blank == unlinked(*body, before),
            ids_match(*ids, *body, base),
            records(*document) == linked(blank, done + loop_links(*body, base, l as int)),
            intact(before, records(*document), end),
            header(*document) == header(*old(document)),
        decreases body.loops@.len() - l,
    {
        let ghost sofar = done + loop_links(*body, base, l as int);
        match link_ring(body, document, ids, l, Ghost(before), Ghost(sofar)) {
            Ok(()) => {},
            Err(reason) => {
                proof {
                    assert(!right(l as int));
                    leading_is_unique(body.loops@.len(), right, l as nat);
                }
                return Err(reason);
            },
        }
        if body.loops[l].owner >= body.faces.len() {
            proof {
                assert(!right(l as int));
                leading_is_unique(body.loops@.len(), right, l as nat);
            }
            return Err(Unappendable::Inconsistent);
        }
        let ghost ringed = sofar + ring_links(
            *body,
            base,
            l as int,
            body.loops@[l as int].coedges@.len(),
        );
        link_loop(body, document, ids, l, Ghost(before), Ghost(ringed));
        proof {
            assert(right(l as int));
            assert(ringed.push(loop_link(*body, base, l as int)) =~= done + loop_links(
                *body,
                base,
                l + 1,
            ));
        }
        l = l + 1;
    }
    proof {
        leading_is_unique(body.loops@.len(), right, l as nat);
    }
    Ok(())
}

/// Points every face at the next one of its shell, its first loop, the shell
/// and its surface, up to the first face whose shell is missing.
fn link_faces(
    body: &Body,
    document: &mut SatDocument,
    ids: &Ids,
    Ghost(before): Ghost<Seq<RecordView>>,
    Ghost(done): Ghost<Seq<Link>>,
) -> (result: Result<(), Unappendable>)
    requires
        end_at(*body, before.len() as int) <= i32::MAX,
        ids_match(*ids, *body, before.len() as int),
        records(*old(document)) == linked(unlinked(*body, before), done),
        intact(before, records(*old(document)), end_at(*body, before.len() as int)),
    ensures
        match result {
            Ok(()) => faces_known(*body) == body.faces@.len(),
            Err(reason) => faces_known(*body) < body.faces@.len() && reason
                == Unappendable::Inconsistent,
        },
        records(*final(document)) == linked(
            unlinked(*body, before),
            done + face_links(*body, before.len() as int, faces_known(*body)),
        ),
        intact(before, records(*final(document)), end_at(*body, before.len() as int)),
        header(*final(document)) == header(*old(document)),
{
    let ghost base = before.len() as int;
    let ghost end = end_at(*body, base);
    let ghost blank = unlinked(*body, before);
    let ghost right = |f: int| body.faces@[f].owner < body.shells@.len();
    let mut f: usize = 0;
    proof {
        assert(done + face_links(*body, base, 0) =~= done);
    }
    while f < body.faces.len()
        invariant
            f <= body.faces@.len(),
            right == (|f: int| body.faces@[f].owner < body.shells@.len()),
            forall|i: int| 0 <= i < f ==> #[trigger] right(i),
            base == before.len(),
            end == end_at(*body, base),
            end <= i32::MAX,
            blank == unlinked(*body, before),
            ids_match(*ids, *body, base),
            records(*document) == linked(blank, done + face_links(*body, base, f as nat)),
            intact(before, records(*document), end),
            header(*document) == header(*old(document)),
        decreases body.faces@.len() - f,
    {
        let face: &Face = &body.faces[f];
        if face.owner >= body.shells.len() {
            proof {
                assert(!right(f as int));
                leading_is_unique(body.faces@.len(), right, f as nat);
            }
            return Err(Unappendable::Inconsistent);
        }
        let shell: &Shell = &body.shells[face.owner];
        proof {
            assert(right(f as int));
            noted(*ids, *body, base);
            refs_resolve(*body, base);
            coedges_in_range(*body, base);
            next_resolves(shell.faces@, f, body.faces@.len(), faces_at(*body, base), end);
        }
        let first: i32 = if face.loops.len() > 0 {
            lookup(&ids.loops, face.loops[0])
        } else {
            NULL
        };
        let tokens: Vec<Token> = vec![
            null(),
            pointer(next_in(shell.faces.as_slice(), f, &ids.faces)),
            pointer(first),
            pointer(lookup(&ids.shells, face.owner)),
            null(),
            pointer(lookup(&ids.surfaces, face.surface)),
            sense(face.forward),
            Token::Ident("single".to_string()),
        ];
        let ghost link = face_link(*body, base, f as int);
        proof {
            assert(token_views(tokens@) =~= link.tokens);
            assert(face_ref(*body, base, f) == link.id);
            one_more_link(blank, done + face_links(*body, base, f as nat), link);
            assert((done + face_links(*body, base, f as nat)).push(link) =~= done + face_links(
                *body,
                base,
                (f + 1) as nat,
            ));
            a_link_is_made(before, records(*document), link);
        }
        crate::entities::set(document, lookup(&ids.faces, f), tokens);
        f = f + 1;
    }
    proof {
        leading_is_unique(body.faces@.len(), right, f as nat);
    }
    Ok(())
}

/// Points every shell at the next one of its lump, its first face and the lump,
/// up to the first shell whose lump is missing.
fn link_shells(
    body: &Body,
    document: &mut SatDocument,
    ids: &Ids,
    Ghost(before): Ghost<Seq<RecordView>>,
    Ghost(done): Ghost<Seq<Link>>,
) -> (result: Result<(), Unappendable>)
    requires
        end_at(*body, before.len() as int) <= i32::MAX,
        ids_match(*ids, *body, before.len() as int),
        records(*old(document)) == linked(unlinked(*body, before), done),
        intact(before, records(*old(document)), end_at(*body, before.len() as int)),
    ensures
        match result {
            Ok(()) => shells_known(*body) == body.shells@.len(),
            Err(reason) => shells_known(*body) < body.shells@.len() && reason
                == Unappendable::Inconsistent,
        },
        records(*final(document)) == linked(
            unlinked(*body, before),
            done + shell_links(*body, before.len() as int, shells_known(*body)),
        ),
        intact(before, records(*final(document)), end_at(*body, before.len() as int)),
        header(*final(document)) == header(*old(document)),
{
    let ghost base = before.len() as int;
    let ghost end = end_at(*body, base);
    let ghost blank = unlinked(*body, before);
    let ghost right = |s: int| body.shells@[s].owner < body.lumps@.len();
    let mut s: usize = 0;
    proof {
        assert(done + shell_links(*body, base, 0) =~= done);
    }
    while s < body.shells.len()
        invariant
            s <= body.shells@.len(),
            right == (|s: int| body.shells@[s].owner < body.lumps@.len()),
            forall|i: int| 0 <= i < s ==> #[trigger] right(i),
            base == before.len(),
            end == end_at(*body, base),
            end <= i32::MAX,
            blank == unlinked(*body, before),
            ids_match(*ids, *body, base),
            records(*document) == linked(blank, done + shell_links(*body, base, s as nat)),
            intact(before, records(*document), end),
            header(*document) == header(*old(document)),
        decreases body.shells@.len() - s,
    {
        let shell: &Shell = &body.shells[s];
        if shell.owner >= body.lumps.len() {
            proof {
                assert(!right(s as int));
                leading_is_unique(body.shells@.len(), right, s as nat);
            }
            return Err(Unappendable::Inconsistent);
        }
        let lump: &Lump = &body.lumps[shell.owner];
        proof {
            assert(right(s as int));
            noted(*ids, *body, base);
            refs_resolve(*body, base);
            coedges_in_range(*body, base);
            next_resolves(lump.shells@, s, body.shells@.len(), shells_at(*body, base), end);
        }
        let first: i32 = if shell.faces.len() > 0 {
            lookup(&ids.faces, shell.faces[0])
        } else {
            NULL
        };
        let tokens: Vec<Token> = vec![
            null(),
            pointer(next_in(lump.shells.as_slice(), s, &ids.shells)),
            null(),
            pointer(first),
            null(),
            pointer(lookup(&ids.lumps, shell.owner)),
        ];
        let ghost link = shell_link(*body, base, s as int);
        proof {
            assert(token_views(tokens@) =~= link.tokens);
            assert(shell_ref(*body, base, s) == link.id);
            one_more_link(blank, done + shell_links(*body, base, s as nat), link);
            assert((done + shell_links(*body, base, s as nat)).push(link) =~= done + shell_links(
                *body,
                base,
                (s + 1) as nat,
            ));
            a_link_is_made(before, records(*document), link);
        }
        crate::entities::set(document, lookup(&ids.shells, s), tokens);
        s = s + 1;
    }
    proof {
        leading_is_unique(body.shells@.len(), right, s as nat);
    }
    Ok(())
}

/// Points every lump at the next one of the body, its first shell and the body.
fn link_lumps(
    body: &Body,
    document: &mut SatDocument,
    ids: &Ids,
    body_id: i32,
    Ghost(before): Ghost<Seq<RecordView>>,
    Ghost(done): Ghost<Seq<Link>>,
)
    requires
        body_id == body_at(*body, before.len() as int),
        end_at(*body, before.len() as int) <= i32::MAX,
        ids_match(*ids, *body, before.len() as int),
        records(*old(document)) == linked(unlinked(*body, before), done),
        intact(before, records(*old(document)), end_at(*body, before.len() as int)),
    ensures
        records(*final(document)) == linked(
            unlinked(*body, before),
            done + lump_links(*body, before.len() as int, body.lumps@.len()),
        ),
        intact(before, records(*final(document)), end_at(*body, before.len() as int)),
        header(*final(document)) == header(*old(document)),
{
    let ghost base = before.len() as int;
    let ghost end = end_at(*body, base);
    let ghost blank = unlinked(*body, before);
    let mut l: usize = 0;
    proof {
        assert(done + lump_links(*body, base, 0) =~= done);
    }
    while l < body.lumps.len()
        invariant
            l <= body.lumps@.len(),
            body_id == body_at(*body, base),
            base == before.len(),
            end == end_at(*body, base),
            end <= i32::MAX,
            blank == unlinked(*body, before),
            ids_match(*ids, *body, base),
            records(*document) == linked(blank, done + lump_links(*body, base, l as nat)),
            intact(before, records(*document), end),
            header(*document) == header(*old(document)),
        decreases body.lumps@.len() - l,
    {
        let lump: &Lump = &body.lumps[l];
        proof {
            noted(*ids, *body, base);
            refs_resolve(*body, base);
            coedges_in_range(*body, base);
            next_resolves(body.roots@, l, body.lumps@.len(), lumps_at(*body, base), end);
        }
        let first: i32 = if lump.shells.len() > 0 {
            lookup(&ids.shells, lump.shells[0])
        } else {
            NULL
        };
        let tokens: Vec<Token> = vec![
            null(),
            pointer(next_in(body.roots.as_slice(), l, &ids.lumps)),
            pointer(first),
            pointer(body_id),
        ];
        let ghost link = lump_link(*body, base, l as int);
        proof {
            assert(token_views(tokens@) =~= link.tokens);
            assert(lump_ref(*body, base, l) == link.id);
            one_more_link(blank, done + lump_links(*body, base, l as nat), link);
            assert((done + lump_links(*body, base, l as nat)).push(link) =~= done + lump_links(
                *body,
                base,
                (l + 1) as nat,
            ));
            a_link_is_made(before, records(*document), link);
        }
        crate::entities::set(document, lookup(&ids.lumps, l), tokens);
        l = l + 1;
    }
}

/// Fills in every pointer of a body whose records have all been added.
pub(crate) fn link(
    body: &Body,
    document: &mut SatDocument,
    ids: &Ids,
    body_id: i32,
    Ghost(before): Ghost<Seq<RecordView>>,
) -> (result: Result<(), Unappendable>)
    requires
        body_id == body_at(*body, before.len() as int),
        end_at(*body, before.len() as int) <= i32::MAX,
        ids_match(*ids, *body, before.len() as int),
        records(*old(document)) == unlinked(*body, before),
        intact(before, records(*old(document)), end_at(*body, before.len() as int)),
    ensures
        match result {
            Ok(()) => {
                &&& stopped_while_linking(*body, before.len() as int) is None
                &&& records(*final(document)) == linked(
                    unlinked(*body, before),
                    all_links(*body, before.len() as int),
                )
            },
            Err(reason) => {
                &&& stopped_while_linking(*body, before.len() as int) is Some
                &&& reason == Unappendable::Inconsistent
                &&& records(*final(document)) == linked(
                    unlinked(*body, before),
                    stopped_while_linking(*body, before.len() as int).unwrap(),
                )
            },
        },
        intact(before, records(*final(document)), end_at(*body, before.len() as int)),
        header(*final(document)) == header(*old(document)),
{
    let ghost base = before.len() as int;
    let ghost blank = unlinked(*body, before);
    link_vertices(body, document, ids, Ghost(before));
    link_edges(
        body,
        document,
        ids,
        Ghost(before),
        Ghost(vertex_links(*body, base, body.vertices@.len())),
    );
    match link_loops(body, document, ids, Ghost(before), Ghost(links_to_edges(*body, base))) {
        Ok(()) => {},
        Err(reason) => return Err(reason),
    }
    match link_faces(body, document, ids, Ghost(before), Ghost(links_to_loops(*body, base))) {
        Ok(()) => {},
        Err(reason) => return Err(reason),
    }
    match link_shells(body, document, ids, Ghost(before), Ghost(links_to_faces(*body, base))) {
        Ok(()) => {},
        Err(reason) => return Err(reason),
    }
    let ghost shelled = links_to_shells(*body, base);
    link_lumps(body, document, ids, body_id, Ghost(before), Ghost(shelled));
    proof {
        noted(*ids, *body, base);
        refs_resolve(*body, base);
        coedges_in_range(*body, base);
    }
    let first_lump: i32 = if body.roots.len() > 0 {
        lookup(&ids.lumps, body.roots[0])
    } else {
        NULL
    };
    let tokens: Vec<Token> = vec![null(), pointer(first_lump), null(), null()];
    let ghost last = body_link(*body, base);
    proof {
        assert(token_views(tokens@) =~= last.tokens);
        one_more_link(blank, shelled + lump_links(*body, base, body.lumps@.len()), last);
        a_link_is_made(before, records(*document), last);
    }
    crate::entities::set(document, body_id, tokens);
    Ok(())
}

} // verus!
