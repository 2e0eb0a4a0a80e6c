//! Writing a whole body into a document as new records.

use vstd::prelude::*;
use acadrust::entities::acis::types::SatDocument;
use crate::allocate::allocate;
use crate::body::Body;
use crate::document::{body_count, header, record_count, records, set_body_count};
use crate::layout::{header_outcome, outcome};
use crate::limits::{is_taking, no_more_than_there_is, takes};
use crate::link::{link, quiet_is_intact};
use crate::shape::intact;

verus! {

/// Why a body could not be written.
#[derive(Debug, Clone, PartialEq, Eq)]
pub enum Unappendable {
    /// A curve or pcurve has no supported SAT record form.
    Curve,
    /// A surface whose frame is degenerate, so there is no normal to write.
    Surface,
    /// The body's own topology does not hold together. Writing it would
    /// produce a document that parses into something else.
    Inconsistent,
}

/// Where the body ended up.
#[derive(Debug, Clone, PartialEq, Eq)]
pub struct Written {
    /// Record index of the `body` record.
    pub body: i32,
    /// How many records were added in total.
    pub records: usize,
}

/// Appends a body to a document as a fresh set of records.
///
/// The document keeps everything it already had; the body is added beside it.
/// A caller replacing an existing solid removes the old records itself: which
/// record refers to a body from outside the ACIS stream is the caller's
/// business, not this function's.
///
/// [`outcome`] says what is returned and which records there are afterwards.
/// Records that were added before something was found wrong stay. [`takes`] says
/// which bodies a document can take: [`try_append`] asks first.
pub fn append(body: &Body, document: &mut SatDocument) -> (result: Result<Written, Unappendable>)
    requires
        takes(records(*old(document)), header(*old(document)).num_bodies, *body),
    ensures
        result == outcome(*body, records(*old(document))).result,
        records(*final(document)) == outcome(*body, records(*old(document))).records,
        header(*final(document)) == header_outcome(
            header(*old(document)),
            records(*old(document)).len(),
            records(*final(document)).len(),
            result is Ok,
        ),
        body.faults@.len() > 0 ==> *final(document) == *old(document),
        // The records that were there are still there; each new one has its
        // position for its index, no attribute and no binary token, and points
        // at nothing or at a record.
        intact(
            records(*old(document)),
            records(*final(document)),
            records(*final(document)).len() as int,
        ),
{
    if body.faults.len() > 0 {
        return Err(Unappendable::Inconsistent);
    }
    let ghost before = records(*document);
    let count: usize = record_count(document);
    let (ids, body_id) = match allocate(body, document) {
        Ok(ids) => ids,
        Err(reason) => {
            proof {
                quiet_is_intact(before, records(*document));
            }
            return Err(reason);
        },
    };
    proof {
        no_more_than_there_is(*body);
        quiet_is_intact(before, records(*document));
    }
    match link(body, document, &ids, body_id, Ghost(before)) {
        Ok(()) => {},
        Err(reason) => return Err(reason),
    }
    // The header's body count must reflect every body in the document; a
    // strict reader rejects a stream whose header undercounts the records.
    let bodies: usize = body_count(document);
    set_body_count(document, bodies + 1);
    Ok(Written { body: body_id, records: record_count(document) - count })
}

/// Appends a body as [`append`] does, to whatever document. `None`, and nothing
/// changed, where the document cannot take the body.
pub fn try_append(body: &Body, document: &mut SatDocument) -> (result: Option<
    Result<Written, Unappendable>,
>)
    ensures
        match result {
            Some(result) => {
                &&& takes(records(*old(document)), header(*old(document)).num_bodies, *body)
                &&& result == outcome(*body, records(*old(document))).result
                &&& records(*final(document)) == outcome(*body, records(*old(document))).records
                &&& header(*final(document)) == header_outcome(
                    header(*old(document)),
                    records(*old(document)).len(),
                    records(*final(document)).len(),
                    result is Ok,
                )
                &&& body.faults@.len() > 0 ==> *final(document) == *old(document)
                &&& intact(
                    records(*old(document)),
                    records(*final(document)),
                    records(*final(document)).len() as int,
                )
            },
            None => {
                &&& !takes(records(*old(document)), header(*old(document)).num_bodies, *body)
                &&& *final(document) == *old(document)
            },
        },
{
    if is_taking(document, body) {
        Some(append(body, document))
    } else {
        None
    }
}

} // verus!
