//! Which documents can be searched for keywords.
//!
//! A document that was read from its binary form may hold tokens as their tags
//! and bytes. The bytes of a string begin with its length, and a search through
//! the tokens takes it that they do.

use vstd::prelude::*;
use acadrust::entities::acis::types::SatDocument;
use crate::document::{raw_token, record_count, records, token_count, word};
use crate::shape::intact;
use crate::token::{RecordView, TokenView};

verus! {

/// How many bytes a string of the binary form has in front, for its length. No
/// other token has any.
pub open spec fn leading_bytes(tag: u8) -> nat {
    if tag == 0x07 || tag == 0x0D || tag == 0x0E {
        1
    } else if tag == 0x08 {
        2
    } else if tag == 0x09 || tag == 0x12 {
        4
    } else {
        0
    }
}

/// Whether a token of the binary form is as long as its leading bytes.
pub open spec fn long_enough(token: TokenView) -> bool {
    token matches TokenView::Raw { tag, data } ==> leading_bytes(tag) <= data.len()
}

/// Whether a token is an opening brace, in whichever form.
pub open spec fn opens(token: TokenView) -> bool {
    match token {
        TokenView::Ident(name) => name == "{"@,
        TokenView::Keyword(name) => name == "{"@,
        TokenView::Raw { tag, data } => tag == 0x0F || {
            &&& leading_bytes(tag) > 0
            &&& data.len() == leading_bytes(tag) + 1
            &&& data.last() == 0x7b
        },
        _ => false,
    }
}

/// Whether a search for an opening brace and the token behind it can look at a
/// token: every token but the last one of its record is looked at, and the last
/// one where it stands behind an opening brace.
pub open spec fn looked_at(tokens: Seq<TokenView>, i: int) -> bool {
    i + 1 < tokens.len() || (i > 0 && opens(tokens[i - 1]))
}

/// Whether every token that such a search looks at is long enough.
pub open spec fn legible(tokens: Seq<TokenView>) -> bool {
    forall|i: int|
        0 <= i < tokens.len() && looked_at(tokens, i) ==> long_enough(#[trigger] tokens[i])
}

/// Whether the first `n` records are legible.
pub open spec fn legible_until(records: Seq<RecordView>, n: int) -> bool {
    forall|r: int| 0 <= r < records.len() && r < n ==> legible((#[trigger] records[r]).tokens)
}

/// Whether a whole document is legible.
pub open spec fn readable(records: Seq<RecordView>) -> bool {
    legible_until(records, records.len() as int)
}

/// Whether no token is of the binary form.
pub open spec fn plain(tokens: Seq<TokenView>) -> bool {
    forall|i: int| 0 <= i < tokens.len() ==> !((#[trigger] tokens[i]) is Raw)
}

/// How many bytes a string of the binary form has in front.
fn prefix(tag: u8) -> (count: usize)
    ensures
        count == leading_bytes(tag),
{
    if tag == 0x07 || tag == 0x0D || tag == 0x0E {
        1
    } else if tag == 0x08 {
        2
    } else if tag == 0x09 || tag == 0x12 {
        4
    } else {
        0
    }
}

/// Whether a token of a document is an opening brace.
fn is_opening(document: &SatDocument, at: usize, i: usize) -> (right: bool)
    requires
        at < records(*document).len(),
        i < records(*document)[at as int].tokens.len(),
    ensures
        right == opens(records(*document)[at as int].tokens[i as int]),
{
    match raw_token(document, at, i) {
        Some((tag, data)) => {
            let count: usize = prefix(tag);
            tag == 0x0F || (count > 0 && data.len() == count + 1 && data[count] == 0x7b)
        },
        None => match word(document, at, i) {
            Some(name) => name == "{".to_string(),
            None => false,
        },
    }
}

/// Whether a record of a document is legible.
fn is_legible(document: &SatDocument, at: usize) -> (right: bool)
    requires
        at < records(*document).len(),
    ensures
        right == legible(records(*document)[at as int].tokens),
{
    let ghost tokens = records(*document)[at as int].tokens;
    let count: usize = token_count(document, at);
    let mut i: usize = 0;
    while i < count
        invariant
            at < records(*document).len(),
            tokens == records(*document)[at as int].tokens,
            count == tokens.len(),
            i <= count,
            forall|j: int| 0 <= j < i && looked_at(tokens, j) ==> long_enough(#[trigger] tokens[j]),
        decreases count - i,
    {
        let short: bool = match raw_token(document, at, i) {
            Some((tag, data)) => data.len() < prefix(tag),
            None => false,
        };
        if short && (i + 1 < count || (i > 0 && is_opening(document, at, i - 1))) {
            proof {
                assert(!long_enough(tokens[i as int]));
            }
            return false;
        }
        i = i + 1;
    }
    true
}

/// Whether a whole document is legible.
pub fn is_readable(document: &SatDocument) -> (right: bool)
    ensures
        right == readable(records(*document)),
{
    let count: usize = record_count(document);
    let mut r: usize = 0;
    while r < count
        invariant
            count == records(*document).len(),
            r <= count,
            forall|j: int| 0 <= j < r ==> legible((#[trigger] records(*document)[j]).tokens),
        decreases count - r,
    {
        if !is_legible(document, r) {
            proof {
                assert(!legible(records(*document)[r as int].tokens));
            }
            return false;
        }
        r = r + 1;
    }
    true
}

/// A legible document stays legible when a body is appended to it, whatever
/// comes of that.
pub proof fn readable_documents_stay_readable(before: Seq<RecordView>, all: Seq<RecordView>)
    requires
        readable(before),
        intact(before, all, all.len() as int),
    ensures
        readable(all),
{
    assert forall|r: int| 0 <= r < all.len() implies legible((#[trigger] all[r]).tokens) by {
        if r < before.len() {
            assert(all[r] == before[r]);
        } else {
            assert(plain(all[r].tokens));
        }
    }
}

/// A document without binary tokens is legible, and so is one whose binary tokens
/// have four bytes or more: no string has more in front.
pub proof fn most_documents_are_legible(records: Seq<RecordView>)
    requires
        forall|r: int, i: int|
            #![trigger records[r].tokens[i]]
            0 <= r < records.len() && 0 <= i < records[r].tokens.len() ==> (
            records[r].tokens[i] matches TokenView::Raw { data, .. } ==> data.len() >= 4),
    ensures
        readable(records),
{
    assert forall|r: int| 0 <= r < records.len() implies legible((#[trigger] records[r]).tokens) by {
        assert forall|i: int| 0 <= i < records[r].tokens.len() && looked_at(
            records[r].tokens,
            i,
        ) implies long_enough(#[trigger] records[r].tokens[i]) by {}
    }
}

/// How many bytes each kind of binary string has in front: one, two or four.
pub proof fn strings_lead_with_their_length(tag: u8)
    ensures
        leading_bytes(0x07) == 1 && leading_bytes(0x0D) == 1 && leading_bytes(0x0E) == 1,
        leading_bytes(0x08) == 2,
        leading_bytes(0x09) == 4 && leading_bytes(0x12) == 4,
        tag != 0x07 && tag != 0x08 && tag != 0x09 && tag != 0x0D && tag != 0x0E && tag != 0x12
            ==> leading_bytes(tag) == 0,
{
}

} // verus!
