//! Adding records and giving them their tokens.

use vstd::prelude::*;
use acadrust::entities::acis::types::SatDocument;
use crate::document::{add_record, header, records, set_tokens};
use crate::forms::is_made_of;
use crate::records::{null, null_view};
use crate::token::{
    announcing, first_indexed, fresh_record, is_first_indexed, slot_of, token_views, RecordView,
    Token, TokenView,
};

verus! {

/// A record that leads with its attribute pointer, as every one does.
pub open spec fn entity(index: int, kind: Seq<char>, tokens: Seq<TokenView>) -> RecordView {
    fresh_record(index, kind, seq![null_view()] + tokens)
}

/// Adds a record. Every record leads with its attribute pointer; the tokens
/// given follow it.
pub fn add_entity(document: &mut SatDocument, kind: &str, tokens: Vec<Token>) -> (id: i32)
    ensures
        id == records(*old(document)).len() as i32,
        records(*final(document)) == records(*old(document)).push(
            entity(id as int, kind@, token_views(tokens@)),
        ),
        header(*final(document)) == announcing(
            header(*old(document)),
            records(*final(document)).len(),
        ),
{
    let ghost given = token_views(tokens@);
    let mut all: Vec<Token> = vec![null()];
    let mut rest = tokens;
    all.append(&mut rest);
    proof {
        assert(token_views(all@) =~= seq![null_view()] + given);
    }
    add_record(document, kind, all)
}

/// The records with other tokens in the one that goes by an index, where there
/// is one.
pub open spec fn rewritten(records: Seq<RecordView>, id: i32, tokens: Seq<TokenView>) -> Seq<
    RecordView,
> {
    match slot_of(records, id as usize) {
        Some(at) => records.update(at, RecordView { tokens, ..records[at] }),
        None => records,
    }
}

/// Gives the record that goes by an index its tokens, all of them: nothing is
/// put in front. Where no record goes by the index, nothing changes.
///
/// Indices from [`add_entity`] are positions, so this is a direct access rather
/// than a search.
pub fn set(document: &mut SatDocument, id: i32, tokens: Vec<Token>)
    ensures
        records(*final(document)) == rewritten(records(*old(document)), id, token_views(tokens@)),
        header(*final(document)) == header(*old(document)),
        slot_of(records(*old(document)), id as usize) is None ==> *final(document) == *old(
            document,
        ),
{
    set_tokens(document, id as usize, tokens);
}

/// Which record is the first with an index does not depend on any tokens.
proof fn firsts_are_the_same(one: Seq<RecordView>, other: Seq<RecordView>, index: i32, i: int)
    requires
        one.len() == other.len(),
        forall|j: int|
            #![trigger one[j]]
            #![trigger other[j]]
            0 <= j < one.len() ==> one[j].index == other[j].index,
    ensures
        is_first_indexed(one, index, i) ==> is_first_indexed(other, index, i),
{
    if is_first_indexed(one, index, i) {
        assert forall|j: int| 0 <= j < i implies other[j].index != index by {
            assert(one[j].index != index);
        }
    }
}

/// What a record goes by does not depend on any tokens.
proof fn tokens_do_not_matter(one: Seq<RecordView>, other: Seq<RecordView>, index: usize)
    requires
        one.len() == other.len(),
        forall|j: int|
            #![trigger one[j]]
            #![trigger other[j]]
            0 <= j < one.len() ==> one[j].index == other[j].index,
    ensures
        slot_of(one, index) == slot_of(other, index),
{
    let wanted = index as i32;
    if exists|i: int| is_first_indexed(one, wanted, i) {
        let i = choose|i: int| is_first_indexed(one, wanted, i);
        firsts_are_the_same(one, other, wanted, i);
        let j = choose|j: int| is_first_indexed(other, wanted, j);
        firsts_are_the_same(other, one, wanted, j);
        assert(i == j);
    } else if exists|i: int| is_first_indexed(other, wanted, i) {
        let i = choose|i: int| is_first_indexed(other, wanted, i);
        firsts_are_the_same(other, one, wanted, i);
    }
}

/// The last write wins: after two writes to one index the records are the same
/// as after the second alone. So writing the same tokens twice is writing them
/// once.
pub proof fn the_last_write_wins(
    records: Seq<RecordView>,
    id: i32,
    first: Seq<TokenView>,
    second: Seq<TokenView>,
)
    ensures
        rewritten(rewritten(records, id, first), id, second) == rewritten(records, id, second),
{
    let once = rewritten(records, id, first);
    tokens_do_not_matter(once, records, id as usize);
    assert(rewritten(once, id, second) =~= rewritten(records, id, second));
}

/// A write changes the tokens of one record, the one that goes by the index,
/// and nothing else: a record at the position that is its index is that one,
/// and where no record has the index nothing is changed.
pub proof fn a_write_is_of_one_record(records: Seq<RecordView>, id: i32, tokens: Seq<TokenView>)
    requires
        records.len() <= i32::MAX,
    ensures
        rewritten(records, id, tokens).len() == records.len(),
        0 <= id < records.len() && records[id as int].index == id ==> rewritten(records, id, tokens)
            == records.update(id as int, RecordView { tokens, ..records[id as int] }),
        (forall|i: int| 0 <= i < records.len() ==> (#[trigger] records[i]).index != id) ==> slot_of(
            records,
            id as usize,
        ) is None && rewritten(records, id, tokens) == records,
{
    where_an_index_leads(records, id);
    if forall|i: int| 0 <= i < records.len() ==> (#[trigger] records[i]).index != id {
        assert forall|i: int| !is_first_indexed(records, id, i) by {}
    }
}

/// The place of the record that goes by an index, the index taken as it is: the
/// index itself where the record there has it, else the first record with it.
pub proof fn where_an_index_leads(records: Seq<RecordView>, id: i32)
    requires
        records.len() <= i32::MAX,
    ensures
        slot_of(records, id as usize) == if 0 <= id < records.len() && records[id as int].index
            == id {
            Some(id as int)
        } else {
            first_indexed(records, id)
        },
{
    assert((id as usize) as i32 == id) by (bit_vector);
    assert(id < 0 ==> (id as usize) > 0x7fff_ffff) by (bit_vector);
}

/// A record that was added has the index and the kind given, leads with a null
/// pointer, holds the tokens given behind it, and has nothing else.
pub proof fn records_lead_with_a_null_pointer(
    index: int,
    kind: Seq<char>,
    tokens: Seq<TokenView>,
)
    ensures
        is_made_of(entity(index, kind, tokens), index, kind, tokens),
{
}

/// A record that is out of its place is found by its index: of several with one
/// index, the first is written.
pub proof fn the_first_with_an_index_is_written(
    records: Seq<RecordView>,
    id: i32,
    at: int,
    tokens: Seq<TokenView>,
)
    requires
        records.len() <= i32::MAX,
        !(0 <= id < records.len() && records[id as int].index == id),
        0 <= at < records.len(),
        records[at].index == id,
        forall|j: int| 0 <= j < at ==> (#[trigger] records[j]).index != id,
    ensures
        rewritten(records, id, tokens) == records.update(
            at,
            RecordView { tokens, ..records[at] },
        ),
{
    where_an_index_leads(records, id);
    assert(is_first_indexed(records, id, at));
    let found = choose|i: int| is_first_indexed(records, id, i);
    assert(is_first_indexed(records, id, found));
    assert(found == at);
}

} // verus!
