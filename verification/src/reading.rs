//! What a reader that follows the pointers finds.

use vstd::prelude::*;
use crate::body::{Body, Face, Loop, Shell};
use crate::ids::{next_record, siblings_follow_each_other};
use crate::laws::{sound_bodies_are_written, written_bodies_are_told_in_full};
use crate::layout::{
    body_at, body_link, coedge_id, coedge_link, coedge_ref, curves_at, edge_link, edges_at, end_at,
    face_link, faces_at, first_edge, leading, leading_stops_at_the_first, loop_link, loops_at,
    lump_link, lumps_at, outcome, pcurve_of, places, point_id, shell_link, shells_at, surfaces_at,
    touches, vertex_id, vertex_link,
};
use crate::linking::{is_last_place, rings_are_apart};
use crate::records::null_view;
use crate::shape::coedges_in_range;
use crate::splines::{curve_entry, surface_entry};
use crate::token::{RecordView, TokenView};

verus! {

/// Where a field of a record points; nowhere where the field is no pointer.
pub open spec fn target(records: Seq<RecordView>, at: int, field: int) -> int {
    match records[at].tokens[field] {
        TokenView::Pointer(id) => id,
        _ => -1,
    }
}

/// The records that a reader comes by who starts at a record and follows one
/// field, until it points nowhere or so many steps have been made.
pub open spec fn strung(records: Seq<RecordView>, at: int, field: int, steps: nat) -> Seq<int>
    decreases steps,
{
    if steps == 0 || at < 0 {
        Seq::empty()
    } else {
        seq![at] + strung(records, target(records, at, field), field, (steps - 1) as nat)
    }
}

/// Where a reader is who starts at a record and follows one field so often.
pub open spec fn walked(records: Seq<RecordView>, at: int, field: int, steps: nat) -> int
    decreases steps,
{
    if steps == 0 {
        at
    } else {
        target(records, walked(records, at, field, (steps - 1) as nat), field)
    }
}

/// The indices of the entities that a list names. `first` is the index of the
/// one with the key zero.
pub open spec fn listed(list: Seq<usize>, first: int) -> Seq<int> {
    Seq::new(list.len(), |i: int| first + list[i])
}

/// Records that point from one to the next are found in order, and no others.
pub proof fn what_is_strung_together(
    records: Seq<RecordView>,
    ids: Seq<int>,
    field: int,
    steps: nat,
)
    requires
        ids.len() <= steps,
        forall|i: int| 0 <= i < ids.len() ==> 0 <= #[trigger] ids[i],
        forall|i: int|
            #![trigger ids[i]]
            0 <= i < ids.len() ==> target(records, ids[i], field) == if i + 1 < ids.len() {
                ids[i + 1]
            } else {
                -1
            },
    ensures
        strung(
            records,
            if ids.len() > 0 {
                ids[0]
            } else {
                -1
            },
            field,
            steps,
        ) == ids,
    decreases ids.len(),
{
    if ids.len() > 0 {
        let rest = ids.drop_first();
        assert forall|i: int| #![trigger rest[i]] 0 <= i < rest.len() implies target(
            records,
            rest[i],
            field,
        ) == if i + 1 < rest.len() {
            rest[i + 1]
        } else {
            -1
        } by {
            assert(rest[i] == ids[i + 1]);
        }
        what_is_strung_together(records, rest, field, (steps - 1) as nat);
        assert(target(records, ids[0], field) == if 1 < ids.len() {
            ids[1]
        } else {
            -1
        });
        assert(seq![ids[0]] + rest =~= ids);
    } else {
        assert(strung(records, -1, field, steps) =~= ids);
    }
}

/// Whether an owner's list of what it owns is in order: it names nothing twice
/// and nothing that is not there, and what it names names the owner.
pub open spec fn owns(list: Seq<usize>, owners: Seq<usize>, owner: int) -> bool {
    &&& list.no_duplicates()
    &&& forall|i: int|
        0 <= i < list.len() ==> (#[trigger] list[i]) < owners.len() && owners[list[i] as int]
            == owner
}

/// Siblings whose records point at the next one are found in order.
proof fn siblings_are_found(
    records: Seq<RecordView>,
    list: Seq<usize>,
    count: nat,
    first: int,
    start: int,
    steps: nat,
)
    requires
        0 <= first,
        first + count <= i32::MAX,
        list.no_duplicates(),
        forall|i: int| 0 <= i < list.len() ==> (#[trigger] list[i]) < count,
        forall|i: int|
            #![trigger list[i]]
            0 <= i < list.len() ==> target(records, first + list[i], 1) == next_record(
                list,
                list[i],
                places(count, first),
            ),
        start == if list.len() > 0 {
            first + list[0]
        } else {
            -1
        },
        list.len() <= steps,
    ensures
        strung(records, start, 1, steps) == listed(list, first),
{
    let ids = listed(list, first);
    assert forall|i: int| #![trigger ids[i]] 0 <= i < ids.len() implies target(records, ids[i], 1)
        == if i + 1 < ids.len() {
        ids[i + 1]
    } else {
        -1
    } by {
        siblings_follow_each_other(list, places(count, first), i);
        if i + 1 < ids.len() {
            assert(list[i + 1] < count);
        }
    }
    what_is_strung_together(records, ids, 1, steps);
}

/// [`faces_of_a_shell_are_found`], of any records with such pointers.
proof fn faces_are_strung(body: Body, base: int, all: Seq<RecordView>, s: int, steps: nat)
    requires
        0 <= base,
        end_at(body, base) <= i32::MAX,
        0 <= s < body.shells@.len(),
        owns(body.shells@[s].faces@, body.faces@.map_values(|c: Face| c.owner), s),
        body.shells@[s].faces@.len() <= steps,
        all[shells_at(body, base) + s].tokens == shell_link(body, base, s).tokens,
        forall|c: int|
            0 <= c < body.faces@.len() ==> all[faces_at(body, base) + c].tokens == (
            #[trigger] face_link(body, base, c)).tokens,
    ensures
        strung(all, target(all, shells_at(body, base) + s, 3), 1, steps) == listed(
            body.shells@[s].faces@,
            faces_at(body, base),
        ),
{
    let list = body.shells@[s].faces@;
    let owners = body.faces@.map_values(|c: Face| c.owner);
    coedges_in_range(body, base);
    assert forall|i: int| #![trigger list[i]] 0 <= i < list.len() implies list[i]
        < body.faces@.len() && target(all, faces_at(body, base) + list[i], 1) == next_record(
        list,
        list[i],
        places(body.faces@.len(), faces_at(body, base)),
    ) by {
        let c = list[i] as int;
        assert(list[i] < owners.len() && owners[c] == s);
        assert(all[faces_at(body, base) + c].tokens == face_link(body, base, c).tokens);
    }
    siblings_are_found(
        all,
        list,
        body.faces@.len(),
        faces_at(body, base),
        target(all, shells_at(body, base) + s, 3),
        steps,
    );
}

/// A shell leads to its first face and every face to the next: a reader finds
/// all faces of the shell, in order.
pub proof fn faces_of_a_shell_are_found(body: Body, before: Seq<RecordView>, s: int, steps: nat)
    requires
        outcome(body, before).result is Ok,
        end_at(body, before.len() as int) <= i32::MAX,
        0 <= s < body.shells@.len(),
        owns(body.shells@[s].faces@, body.faces@.map_values(|c: Face| c.owner), s),
        body.shells@[s].faces@.len() <= steps,
    ensures
        ({
            let all = outcome(body, before).records;
            let base = before.len() as int;
            strung(all, target(all, shells_at(body, base) + s, 3), 1, steps) == listed(
                body.shells@[s].faces@,
                faces_at(body, base),
            )
        }),
{
    let all = outcome(body, before).records;
    let base = before.len() as int;
    assert(all[shells_at(body, base) + s].tokens == shell_link(body, base, s).tokens) by {
        written_bodies_are_told_in_full(body, before);
    }
    assert forall|c: int| 0 <= c < body.faces@.len() implies all[faces_at(body, base) + c].tokens
        == (#[trigger] face_link(body, base, c)).tokens by {
        written_bodies_are_told_in_full(body, before);
    }
    faces_are_strung(body, base, all, s, steps);
}

/// [`loops_of_a_face_are_found`], of any records with such pointers.
proof fn loops_are_strung(body: Body, base: int, all: Seq<RecordView>, f: int, steps: nat)
    requires
        0 <= base,
        end_at(body, base) <= i32::MAX,
        0 <= f < body.faces@.len(),
        owns(body.faces@[f].loops@, body.loops@.map_values(|c: Loop| c.owner), f),
        body.faces@[f].loops@.len() <= steps,
        all[faces_at(body, base) + f].tokens == face_link(body, base, f).tokens,
        forall|c: int|
            0 <= c < body.loops@.len() ==> all[loops_at(body, base) + c].tokens == (
            #[trigger] loop_link(body, base, c)).tokens,
    ensures
        strung(all, target(all, faces_at(body, base) + f, 2), 1, steps) == listed(
            body.faces@[f].loops@,
            loops_at(body, base),
        ),
{
    let list = body.faces@[f].loops@;
    let owners = body.loops@.map_values(|c: Loop| c.owner);
    coedges_in_range(body, base);
    assert forall|i: int| #![trigger list[i]] 0 <= i < list.len() implies list[i]
        < body.loops@.len() && target(all, loops_at(body, base) + list[i], 1) == next_record(
        list,
        list[i],
        places(body.loops@.len(), loops_at(body, base)),
    ) by {
        let c = list[i] as int;
        assert(list[i] < owners.len() && owners[c] == f);
        assert(all[loops_at(body, base) + c].tokens == loop_link(body, base, c).tokens);
    }
    siblings_are_found(
        all,
        list,
        body.loops@.len(),
        loops_at(body, base),
        target(all, faces_at(body, base) + f, 2),
        steps,
    );
}

/// A face leads to its first loop and every loop to the next: a reader finds
/// all loops of the face, in order.
pub proof fn loops_of_a_face_are_found(body: Body, before: Seq<RecordView>, f: int, steps: nat)
    requires
        outcome(body, before).result is Ok,
        end_at(body, before.len() as int) <= i32::MAX,
        0 <= f < body.faces@.len(),
        owns(body.faces@[f].loops@, body.loops@.map_values(|c: Loop| c.owner), f),
        body.faces@[f].loops@.len() <= steps,
    ensures
        ({
            let all = outcome(body, before).records;
            let base = before.len() as int;
            strung(all, target(all, faces_at(body, base) + f, 2), 1, steps) == listed(
                body.faces@[f].loops@,
                loops_at(body, base),
            )
        }),
{
    let all = outcome(body, before).records;
    let base = before.len() as int;
    assert(all[faces_at(body, base) + f].tokens == face_link(body, base, f).tokens) by {
        written_bodies_are_told_in_full(body, before);
    }
    assert forall|c: int| 0 <= c < body.loops@.len() implies all[loops_at(body, base) + c].tokens
        == (#[trigger] loop_link(body, base, c)).tokens by {
        written_bodies_are_told_in_full(body, before);
    }
    loops_are_strung(body, base, all, f, steps);
}

/// [`shells_of_a_lump_are_found`], of any records with such pointers.
proof fn shells_are_strung(body: Body, base: int, all: Seq<RecordView>, l: int, steps: nat)
    requires
        0 <= base,
        end_at(body, base) <= i32::MAX,
        0 <= l < body.lumps@.len(),
        owns(body.lumps@[l].shells@, body.shells@.map_values(|c: Shell| c.owner), l),
        body.lumps@[l].shells@.len() <= steps,
        all[lumps_at(body, base) + l].tokens == lump_link(body, base, l).tokens,
        forall|c: int|
            0 <= c < body.shells@.len() ==> all[shells_at(body, base) + c].tokens == (
            #[trigger] shell_link(body, base, c)).tokens,
    ensures
        strung(all, target(all, lumps_at(body, base) + l, 2), 1, steps) == listed(
            body.lumps@[l].shells@,
            shells_at(body, base),
        ),
{
    let list = body.lumps@[l].shells@;
    let owners = body.shells@.map_values(|c: Shell| c.owner);
    coedges_in_range(body, base);
    assert forall|i: int| #![trigger list[i]] 0 <= i < list.len() implies list[i]
        < body.shells@.len() && target(all, shells_at(body, base) + list[i], 1) == next_record(
        list,
        list[i],
        places(body.shells@.len(), shells_at(body, base)),
    ) by {
        let c = list[i] as int;
        assert(list[i] < owners.len() && owners[c] == l);
        assert(all[shells_at(body, base) + c].tokens == shell_link(body, base, c).tokens);
    }
    siblings_are_found(
        all,
        list,
        body.shells@.len(),
        shells_at(body, base),
        target(all, lumps_at(body, base) + l, 2),
        steps,
    );
}

/// A lump leads to its first shell and every shell to the next: a reader finds
/// all shells of the lump, in order.
pub proof fn shells_of_a_lump_are_found(body: Body, before: Seq<RecordView>, l: int, steps: nat)
    requires
        outcome(body, before).result is Ok,
        end_at(body, before.len() as int) <= i32::MAX,
        0 <= l < body.lumps@.len(),
        owns(body.lumps@[l].shells@, body.shells@.map_values(|c: Shell| c.owner), l),
        body.lumps@[l].shells@.len() <= steps,
    ensures
        ({
            let all = outcome(body, before).records;
            let base = before.len() as int;
            strung(all, target(all, lumps_at(body, base) + l, 2), 1, steps) == listed(
                body.lumps@[l].shells@,
                shells_at(body, base),
            )
        }),
{
    let all = outcome(body, before).records;
    let base = before.len() as int;
    assert(all[lumps_at(body, base) + l].tokens == lump_link(body, base, l).tokens) by {
        written_bodies_are_told_in_full(body, before);
    }
    assert forall|c: int| 0 <= c < body.shells@.len() implies all[shells_at(body, base) + c].tokens
        == (#[trigger] shell_link(body, base, c)).tokens by {
        written_bodies_are_told_in_full(body, before);
    }
    shells_are_strung(body, base, all, l, steps);
}

/// [`lumps_of_the_body_are_found`], of any records with such pointers.
proof fn lumps_are_strung(body: Body, base: int, all: Seq<RecordView>, steps: nat)
    requires
        0 <= base,
        end_at(body, base) <= i32::MAX,
        body.roots@.no_duplicates(),
        forall|i: int|
            0 <= i < body.roots@.len() ==> (#[trigger] body.roots@[i]) < body.lumps@.len(),
        body.roots@.len() <= steps,
        all[body_at(body, base)].tokens == body_link(body, base).tokens,
        forall|c: int|
            0 <= c < body.lumps@.len() ==> all[lumps_at(body, base) + c].tokens == (
            #[trigger] lump_link(body, base, c)).tokens,
    ensures
        strung(all, target(all, body_at(body, base), 1), 1, steps) == listed(
            body.roots@,
            lumps_at(body, base),
        ),
{
    let list = body.roots@;
    coedges_in_range(body, base);
    assert forall|i: int| #![trigger list[i]] 0 <= i < list.len() implies target(
        all,
        lumps_at(body, base) + list[i],
        1,
    ) == next_record(list, list[i], places(body.lumps@.len(), lumps_at(body, base))) by {
        let c = list[i] as int;
        assert(list[i] < body.lumps@.len());
        assert(all[lumps_at(body, base) + c].tokens == lump_link(body, base, c).tokens);
    }
    siblings_are_found(
        all,
        list,
        body.lumps@.len(),
        lumps_at(body, base),
        target(all, body_at(body, base), 1),
        steps,
    );
}

/// The body leads to its first lump and every lump to the next: a reader finds
/// all lumps of the body, in order.
pub proof fn lumps_of_the_body_are_found(body: Body, before: Seq<RecordView>, steps: nat)
    requires
        outcome(body, before).result is Ok,
        end_at(body, before.len() as int) <= i32::MAX,
        body.roots@.no_duplicates(),
        forall|i: int|
            0 <= i < body.roots@.len() ==> (#[trigger] body.roots@[i]) < body.lumps@.len(),
        body.roots@.len() <= steps,
    ensures
        ({
            let all = outcome(body, before).records;
            let base = before.len() as int;
            strung(all, target(all, body_at(body, base), 1), 1, steps) == listed(
                body.roots@,
                lumps_at(body, base),
            )
        }),
{
    let all = outcome(body, before).records;
    let base = before.len() as int;
    assert(all[body_at(body, base)].tokens == body_link(body, base).tokens) by {
        written_bodies_are_told_in_full(body, before);
    }
    assert forall|c: int| 0 <= c < body.lumps@.len() implies all[lumps_at(body, base) + c].tokens
        == (#[trigger] lump_link(body, base, c)).tokens by {
        written_bodies_are_told_in_full(body, before);
    }
    lumps_are_strung(body, base, all, steps);
}

/// What a reader finds at one place of a loop: the coedges before and behind
/// it, its edge and the loop itself.
proof fn a_place_in_a_ring(body: Body, before: Seq<RecordView>, l: int, o: int)
    requires
        outcome(body, before).result is Ok,
        rings_are_apart(body),
        0 <= l < body.loops@.len(),
        0 <= o < body.loops@[l].coedges@.len(),
    ensures
        ({
            let all = outcome(body, before).records;
            let base = before.len() as int;
            let ring = body.loops@[l].coedges@;
            let n = ring.len() as int;
            let id = coedge_ref(body, base, ring[o]);
            &&& 0 <= id
            &&& target(all, id, 1) == coedge_ref(body, base, ring[(o + 1) % n])
            &&& target(all, id, 2) == coedge_ref(body, base, ring[(o + n - 1) % n])
            &&& target(all, id, 6) == loops_at(body, base) + l
            &&& all[id].tokens == coedge_link(body, base, l, o).tokens
        }),
{
    let all = outcome(body, before).records;
    let base = before.len() as int;
    let key = body.loops@[l].coedges@[o];
    let id = coedge_id(body, base, key as int);
    assert(key < body.coedges@.len()) by {
        sound_bodies_are_written(body, before);
    }
    assert(0 <= id) by {
        coedges_in_range(body, base);
    }
    assert(is_last_place(body, l, o, body.loops@.len() as int));
    assert(all[id].tokens == coedge_link(body, base, l, o).tokens) by {
        written_bodies_are_told_in_full(body, before);
    }
    assert(coedge_ref(body, base, key) == id);
}

/// The coedges of a loop form a ring: a reader who follows the next coedge from
/// the first one on comes by all of them in order, over and over.
pub proof fn rings_close(body: Body, before: Seq<RecordView>, l: int, steps: nat)
    requires
        outcome(body, before).result is Ok,
        rings_are_apart(body),
        0 <= l < body.loops@.len(),
        body.loops@[l].coedges@.len() > 0,
    ensures
        ({
            let all = outcome(body, before).records;
            let base = before.len() as int;
            let ring = body.loops@[l].coedges@;
            walked(all, target(all, loops_at(body, base) + l, 2), 1, steps) == coedge_ref(
                body,
                base,
                ring[steps as int % ring.len() as int],
            )
        }),
    decreases steps,
{
    let all = outcome(body, before).records;
    let base = before.len() as int;
    let ring = body.loops@[l].coedges@;
    let n = ring.len() as int;
    if steps == 0 {
        assert(all[loops_at(body, base) + l].tokens == loop_link(body, base, l).tokens) by {
            written_bodies_are_told_in_full(body, before);
        }
        assert(target(all, loops_at(body, base) + l, 2) == coedge_ref(body, base, ring[0]));
    } else {
        rings_close(body, before, l, (steps - 1) as nat);
        let o = (steps - 1) % n;
        one_step_around(steps, n);
        a_place_in_a_ring(body, before, l, o);
    }
}

/// The place after the one that so many steps lead to.
proof fn one_step_around(steps: nat, n: int)
    requires
        0 < steps,
        0 < n,
    ensures
        0 <= (steps - 1) % n < n,
        ((steps - 1) % n + 1) % n == steps as int % n,
{
    vstd::arithmetic::div_mod::lemma_mod_bound(steps - 1, n);
    vstd::arithmetic::div_mod::lemma_add_mod_noop(steps - 1, 1, n);
    vstd::arithmetic::div_mod::lemma_add_mod_noop((steps - 1) % n, 1, n);
    vstd::arithmetic::div_mod::lemma_mod_twice(steps - 1, n);
}

/// Next and previous undo each other: the coedge behind the next one, and the
/// one after the previous one, is the coedge itself. Each leads to its loop.
pub proof fn neighbours_point_back(body: Body, before: Seq<RecordView>, l: int, o: int)
    requires
        outcome(body, before).result is Ok,
        rings_are_apart(body),
        0 <= l < body.loops@.len(),
        0 <= o < body.loops@[l].coedges@.len(),
    ensures
        ({
            let all = outcome(body, before).records;
            let base = before.len() as int;
            let id = coedge_ref(body, base, body.loops@[l].coedges@[o]);
            &&& target(all, target(all, id, 1), 2) == id
            &&& target(all, target(all, id, 2), 1) == id
            &&& target(all, id, 6) == loops_at(body, base) + l
        }),
{
    let n = body.loops@[l].coedges@.len() as int;
    a_place_in_a_ring(body, before, l, o);
    let next = (o + 1) % n;
    let previous = (o + n - 1) % n;
    vstd::arithmetic::div_mod::lemma_mod_bound(o + 1, n);
    vstd::arithmetic::div_mod::lemma_mod_bound(o + n - 1, n);
    a_place_in_a_ring(body, before, l, next);
    a_place_in_a_ring(body, before, l, previous);
    assert((next + n - 1) % n == o) by {
        vstd::arithmetic::div_mod::lemma_add_mod_noop(o + 1, n - 1, n);
        vstd::arithmetic::div_mod::lemma_add_mod_noop(next, n - 1, n);
        vstd::arithmetic::div_mod::lemma_mod_twice(o + 1, n);
        vstd::arithmetic::div_mod::lemma_mod_add_multiples_vanish(o, n);
        vstd::arithmetic::div_mod::lemma_small_mod(o as nat, n as nat);
    }
    assert((previous + 1) % n == o) by {
        vstd::arithmetic::div_mod::lemma_add_mod_noop(o + n - 1, 1, n);
        vstd::arithmetic::div_mod::lemma_add_mod_noop(previous, 1, n);
        vstd::arithmetic::div_mod::lemma_mod_twice(o + n - 1, n);
        vstd::arithmetic::div_mod::lemma_mod_add_multiples_vanish(o, n);
        vstd::arithmetic::div_mod::lemma_small_mod(o as nat, n as nat);
    }
}

/// Two coedges on either side of an edge lead to each other.
pub proof fn partners_point_back(
    body: Body,
    before: Seq<RecordView>,
    l: int,
    o: int,
    m: int,
    p: int,
)
    requires
        outcome(body, before).result is Ok,
        rings_are_apart(body),
        0 <= l < body.loops@.len(),
        0 <= o < body.loops@[l].coedges@.len(),
        0 <= m < body.loops@.len(),
        0 <= p < body.loops@[m].coedges@.len(),
        body.coedges@[body.loops@[l].coedges@[o] as int].partner == Some(
            body.loops@[m].coedges@[p],
        ),
        body.coedges@[body.loops@[m].coedges@[p] as int].partner == Some(
            body.loops@[l].coedges@[o],
        ),
    ensures
        ({
            let all = outcome(body, before).records;
            let base = before.len() as int;
            let one = coedge_ref(body, base, body.loops@[l].coedges@[o]);
            let other = coedge_ref(body, base, body.loops@[m].coedges@[p]);
            &&& target(all, one, 3) == other
            &&& target(all, other, 3) == one
        }),
{
    a_place_in_a_ring(body, before, l, o);
    a_place_in_a_ring(body, before, m, p);
}

/// A coedge of a loop leads to its edge and to its curve, where that has a
/// record, and it says which way it runs.
pub proof fn coedges_lead_to_their_edge(body: Body, before: Seq<RecordView>, l: int, o: int)
    requires
        outcome(body, before).result is Ok,
        rings_are_apart(body),
        0 <= l < body.loops@.len(),
        0 <= o < body.loops@[l].coedges@.len(),
        body.coedges@[body.loops@[l].coedges@[o] as int].edge < body.edges@.len(),
    ensures
        ({
            let all = outcome(body, before).records;
            let base = before.len() as int;
            let key = body.loops@[l].coedges@[o];
            let id = coedge_ref(body, base, key);
            let coedge = body.coedges@[key as int];
            &&& target(all, id, 4) == edges_at(body, base) + coedge.edge
            &&& all[id].tokens[5] == TokenView::Ident(
                if coedge.forward {
                    "forward"@
                } else {
                    "reversed"@
                },
            )
            &&& match pcurve_of(body, key as int) {
                Some(_) => target(all, id, 7) == id - 1 && all[id - 1].kind == "pcurve"@,
                None => target(all, id, 7) == -1,
            }
        }),
{
    let all = outcome(body, before).records;
    let base = before.len() as int;
    let key = body.loops@[l].coedges@[o];
    let id = coedge_ref(body, base, key);
    a_place_in_a_ring(body, before, l, o);
    assert(key < body.coedges@.len()) by {
        sound_bodies_are_written(body, before);
    }
    if pcurve_of(body, key as int) is Some {
        assert(all[coedge_id(body, base, key as int) - 1].kind == "pcurve"@) by {
            written_bodies_are_told_in_full(body, before);
        }
    }
}

/// An edge leads to the points it starts and ends at and to its curve, and it
/// says at which parameters it does.
pub proof fn edges_lead_to_their_ends(body: Body, before: Seq<RecordView>, e: int)
    requires
        outcome(body, before).result is Ok,
        0 <= e < body.edges@.len(),
        body.edges@[e].start < body.vertices@.len(),
        body.edges@[e].end < body.vertices@.len(),
        body.edges@[e].curve < body.curves@.len(),
    ensures
        ({
            let all = outcome(body, before).records;
            let edge = body.edges@[e];
            let id = edges_at(body, before.len() as int) + e;
            let start = target(all, target(all, id, 1), 2);
            let end = target(all, target(all, id, 3), 2);
            &&& all[start].tokens[1] == TokenView::Position(body.vertices@[edge.start as int].point)
            &&& all[end].tokens[1] == TokenView::Position(body.vertices@[edge.end as int].point)
            &&& all[id].tokens[2] == TokenView::Float(edge.start_parameter)
            &&& all[id].tokens[4] == TokenView::Float(edge.end_parameter)
            &&& Some(all[target(all, id, 6)]) == curve_entry(
                body.curves@[edge.curve as int],
                target(all, id, 6),
            )
        }),
{
    let all = outcome(body, before).records;
    let base = before.len() as int;
    let edge = body.edges@[e];
    let id = edges_at(body, base) + e;
    assert(all[id].tokens == edge_link(body, base, e).tokens) by {
        written_bodies_are_told_in_full(body, before);
    }
    an_end_is_found(body, before, edge.start as int);
    an_end_is_found(body, before, edge.end as int);
    assert(Some(all[curves_at(body, base) + edge.curve]) == curve_entry(
        body.curves@[edge.curve as int],
        curves_at(body, base) + edge.curve,
    )) by {
        written_bodies_are_told_in_full(body, before);
    }
}

/// Every edge ends in the counted string that strict readers expect.
pub proof fn edges_end_in_a_counted_string(body: Body, before: Seq<RecordView>, e: int)
    requires
        outcome(body, before).result is Ok,
        0 <= e < body.edges@.len(),
    ensures
        outcome(body, before).records[edges_at(body, before.len() as int) + e].tokens.last()
            == TokenView::Text("unknown"@),
{
    let all = outcome(body, before).records;
    let base = before.len() as int;
    assert(all[edges_at(body, base) + e].tokens == edge_link(body, base, e).tokens) by {
        written_bodies_are_told_in_full(body, before);
    }
}

/// A vertex leads to its point.
proof fn an_end_is_found(body: Body, before: Seq<RecordView>, v: int)
    requires
        outcome(body, before).result is Ok,
        0 <= v < body.vertices@.len(),
    ensures
        ({
            let all = outcome(body, before).records;
            let at = target(all, vertex_id(before.len() as int, v), 2);
            all[at].tokens[1] == TokenView::Position(body.vertices@[v].point)
        }),
{
    let all = outcome(body, before).records;
    let base = before.len() as int;
    assert(all[vertex_id(base, v)].tokens == vertex_link(body, base, v).tokens) by {
        written_bodies_are_told_in_full(body, before);
    }
    assert(all[point_id(base, v)].tokens == seq![null_view()] + seq![
        TokenView::Position(body.vertices@[v].point),
    ]) by {
        written_bodies_are_told_in_full(body, before);
    }
}

/// A vertex leads to the first edge that starts or ends at it, and nowhere
/// where there is none.
pub proof fn vertices_lead_to_an_edge(body: Body, before: Seq<RecordView>, v: int)
    requires
        outcome(body, before).result is Ok,
        0 <= v < body.vertices@.len(),
    ensures
        ({
            let all = outcome(body, before).records;
            let base = before.len() as int;
            let edge = target(all, vertex_id(base, v), 1) - edges_at(body, base);
            if exists|e: int|
                0 <= e < body.edges@.len() && ((#[trigger] body.edges@[e]).start == v
                    || body.edges@[e].end == v) {
                &&& 0 <= edge < body.edges@.len()
                &&& body.edges@[edge].start == v || body.edges@[edge].end == v
                &&& forall|e: int|
                    0 <= e < edge ==> (#[trigger] body.edges@[e]).start != v && body.edges@[e].end
                        != v
            } else {
                target(all, vertex_id(base, v), 1) == -1
            }
        }),
{
    let all = outcome(body, before).records;
    let base = before.len() as int;
    assert(all[vertex_id(base, v)].tokens == vertex_link(body, base, v).tokens) by {
        written_bodies_are_told_in_full(body, before);
    }
    let apart = |e: int| !touches(body, e, v);
    let found = first_edge(body, v) as int;
    leading_stops_at_the_first(body.edges@.len(), apart);
    assert(first_edge(body, v) == leading(body.edges@.len(), apart));
    assert forall|e: int| 0 <= e < found implies (#[trigger] body.edges@[e]).start != v
        && body.edges@[e].end != v by {
        assert(apart(e));
    }
    if found < body.edges@.len() {
        assert(!apart(found));
        assert(body.edges@[found].start == v || body.edges@[found].end == v);
    }
}

/// A face leads to its surface and says which side of it is out.
pub proof fn faces_lead_to_their_surface(body: Body, before: Seq<RecordView>, f: int)
    requires
        outcome(body, before).result is Ok,
        0 <= f < body.faces@.len(),
        body.faces@[f].surface < body.surfaces@.len(),
    ensures
        ({
            let all = outcome(body, before).records;
            let id = faces_at(body, before.len() as int) + f;
            &&& Some(all[target(all, id, 5)]) == surface_entry(
                body.surfaces@[body.faces@[f].surface as int],
                target(all, id, 5),
            )
            &&& all[id].tokens[6] == TokenView::Ident(
                if body.faces@[f].forward {
                    "forward"@
                } else {
                    "reversed"@
                },
            )
        }),
{
    let all = outcome(body, before).records;
    let base = before.len() as int;
    let key = body.faces@[f].surface;
    assert(all[faces_at(body, base) + f].tokens == face_link(body, base, f).tokens) by {
        written_bodies_are_told_in_full(body, before);
    }
    assert(Some(all[surfaces_at(body, base) + key]) == surface_entry(
        body.surfaces@[key as int],
        surfaces_at(body, base) + key,
    )) by {
        written_bodies_are_told_in_full(body, before);
    }
}

/// What is owned leads to its owner: a loop to its face, a face to its shell, a
/// shell to its lump.
pub proof fn owners_are_found(body: Body, before: Seq<RecordView>)
    requires
        outcome(body, before).result is Ok,
    ensures
        ({
            let all = outcome(body, before).records;
            let base = before.len() as int;
            &&& forall|l: int|
                0 <= l < body.loops@.len() ==> target(all, loops_at(body, base) + l, 3) == faces_at(
                    body,
                    base,
                ) + (#[trigger] body.loops@[l]).owner
            &&& forall|f: int|
                0 <= f < body.faces@.len() ==> target(all, faces_at(body, base) + f, 3)
                    == shells_at(body, base) + (#[trigger] body.faces@[f]).owner
            &&& forall|s: int|
                0 <= s < body.shells@.len() ==> target(all, shells_at(body, base) + s, 5)
                    == lumps_at(body, base) + (#[trigger] body.shells@[s]).owner
        }),
{
    let all = outcome(body, before).records;
    let base = before.len() as int;
    assert forall|l: int| 0 <= l < body.loops@.len() implies target(
        all,
        loops_at(body, base) + l,
        3,
    ) == faces_at(body, base) + (#[trigger] body.loops@[l]).owner by {
        assert(all[loops_at(body, base) + l].tokens == loop_link(body, base, l).tokens) by {
            written_bodies_are_told_in_full(body, before);
        }
        assert(body.loops@[l].owner < body.faces@.len()) by {
            sound_bodies_are_written(body, before);
        }
    }
    assert forall|f: int| 0 <= f < body.faces@.len() implies target(
        all,
        faces_at(body, base) + f,
        3,
    ) == shells_at(body, base) + (#[trigger] body.faces@[f]).owner by {
        assert(all[faces_at(body, base) + f].tokens == face_link(body, base, f).tokens) by {
            written_bodies_are_told_in_full(body, before);
        }
        assert(body.faces@[f].owner < body.shells@.len()) by {
            sound_bodies_are_written(body, before);
        }
    }
    assert forall|s: int| 0 <= s < body.shells@.len() implies target(
        all,
        shells_at(body, base) + s,
        5,
    ) == lumps_at(body, base) + (#[trigger] body.shells@[s]).owner by {
        assert(all[shells_at(body, base) + s].tokens == shell_link(body, base, s).tokens) by {
            written_bodies_are_told_in_full(body, before);
        }
        assert(body.shells@[s].owner < body.lumps@.len()) by {
            sound_bodies_are_written(body, before);
        }
    }
}

/// Every lump leads to the body.
pub proof fn lumps_lead_to_the_body(body: Body, before: Seq<RecordView>, l: int)
    requires
        outcome(body, before).result is Ok,
        0 <= l < body.lumps@.len(),
    ensures
        ({
            let base = before.len() as int;
            target(outcome(body, before).records, lumps_at(body, base) + l, 3) == body_at(
                body,
                base,
            )
        }),
{
    let all = outcome(body, before).records;
    let base = before.len() as int;
    assert(all[lumps_at(body, base) + l].tokens == lump_link(body, base, l).tokens) by {
        written_bodies_are_told_in_full(body, before);
    }
}

} // verus!
