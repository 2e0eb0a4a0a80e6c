//! SAT documents, as the `acadrust` crate holds them.
//!
//! Nothing in this module is proved. It states what `acadrust` does, and the
//! rest of the library is proved on top of that.

use vstd::prelude::*;
use acadrust::entities::acis::types::{SatDocument, SatPointer, SatRecord, SatToken};
use crate::geometry::{Point2, Point3};
use crate::legible::{legible_until, plain};
use crate::scalar::Bits;
use crate::token::{
    announcing, fresh_record, slot_of, token_views, HeaderView, RecordView, Token, TokenView,
};

verus! {

/// A SAT document: `acadrust`'s `SatDocument`.
#[verifier::external_type_specification]
#[verifier::external_body]
pub struct ExSatDocument(SatDocument);

/// The records of a document, in order.
pub uninterp spec fn records(document: SatDocument) -> Seq<RecordView>;

/// The header of a document.
pub uninterp spec fn header(document: SatDocument) -> HeaderView;

/// Wraps `SatDocument::record_count`: the number of records.
#[verifier::external_body]
pub(crate) fn record_count(document: &SatDocument) -> (count: usize)
    ensures
        count == records(*document).len(),
{
    document.record_count()
}

/// Wraps `SatDocument::add_record` on a record made by `SatRecord::new`: the
/// record goes to the end, its index is its position, which is returned, and
/// the header announces the new number of records. A number reaches its token
/// through `SatToken::as_float`, which reads a double out of eight bytes.
#[verifier::external_body]
pub(crate) fn add_record(document: &mut SatDocument, kind: &str, tokens: Vec<Token>) -> (id: i32)
    ensures
        id == records(*old(document)).len() as i32,
        records(*final(document)) == records(*old(document)).push(
            fresh_record(id as int, kind@, token_views(tokens@)),
        ),
        header(*final(document)) == announcing(
            header(*old(document)),
            records(*final(document)).len(),
        ),
{
    let double = |b: &u64| SatToken::Sab { tag: 6, data: b.to_le_bytes().to_vec() }.as_float().unwrap();
    let mut record = SatRecord::new(0, kind);
    record.tokens = tokens.into_iter().map(|token| match token {
        Token::Ident(name) => SatToken::Ident(name),
        Token::Pointer(id) => SatToken::Pointer(SatPointer::new(id)),
        Token::Float(value) => SatToken::Float(double(&value)),
        Token::Text(text) => SatToken::String(text),
        Token::Position(p) => SatToken::Position(double(&p.x), double(&p.y), double(&p.z)),
    }).collect();
    document.add_record(record)
}

/// Wraps `SatDocument::record_mut` and gives the record it finds new tokens:
/// the record is the one at the position `index` where that has this index,
/// else the first with it. Where there is none, nothing changes.
#[verifier::external_body]
pub(crate) fn set_tokens(document: &mut SatDocument, index: usize, tokens: Vec<Token>)
    ensures
        records(*final(document)) == match slot_of(records(*old(document)), index) {
            Some(at) => records(*old(document)).update(
                at,
                RecordView { tokens: token_views(tokens@), ..records(*old(document))[at] },
            ),
            None => records(*old(document)),
        },
        header(*final(document)) == header(*old(document)),
        slot_of(records(*old(document)), index) is None ==> *final(document) == *old(document),
{
    let double = |b: &u64| SatToken::Sab { tag: 6, data: b.to_le_bytes().to_vec() }.as_float().unwrap();
    if let Some(record) = document.record_mut(index) {
        record.tokens = tokens.into_iter().map(|token| match token {
            Token::Ident(name) => SatToken::Ident(name),
            Token::Pointer(id) => SatToken::Pointer(SatPointer::new(id)),
            Token::Float(value) => SatToken::Float(double(&value)),
            Token::Text(text) => SatToken::String(text),
            Token::Position(p) => SatToken::Position(double(&p.x), double(&p.y), double(&p.z)),
        }).collect();
    }
}

/// Reads the field `tokens` of a record, found by its position, of a
/// `SatDocument`: how many tokens the record has.
#[verifier::external_body]
pub(crate) fn token_count(document: &SatDocument, at: usize) -> (count: usize)
    requires
        at < records(*document).len(),
    ensures
        count == records(*document)[at as int].tokens.len(),
{
    document.records[at].tokens.len()
}

/// Reads one token of a record, found by its position, of a `SatDocument`: the
/// tag and the bytes of a `SatToken::Sab`, and nothing of any other token.
#[verifier::external_body]
pub(crate) fn raw_token(document: &SatDocument, at: usize, i: usize) -> (raw: Option<
    (u8, Vec<u8>),
>)
    requires
        at < records(*document).len(),
        i < records(*document)[at as int].tokens.len(),
    ensures
        match records(*document)[at as int].tokens[i as int] {
            TokenView::Raw { tag, data } => raw is Some && raw.unwrap().0 == tag && raw.unwrap().1@
                == data,
            _ => raw is None,
        },
{
    match &document.records[at].tokens[i] {
        SatToken::Sab { tag, data } => Some((*tag, data.clone())),
        _ => None,
    }
}

/// Reads one token of a record, found by its position, of a `SatDocument`: the
/// name in a `SatToken::Ident` or a `SatToken::Enum`, and nothing of any other
/// token.
#[verifier::external_body]
pub(crate) fn word(document: &SatDocument, at: usize, i: usize) -> (word: Option<String>)
    requires
        at < records(*document).len(),
        i < records(*document)[at as int].tokens.len(),
    ensures
        match records(*document)[at as int].tokens[i as int] {
            TokenView::Ident(name) => word is Some && word.unwrap()@ == name,
            TokenView::Keyword(name) => word is Some && word.unwrap()@ == name,
            _ => word is None,
        },
{
    match &document.records[at].tokens[i] {
        SatToken::Ident(name) => Some(name.clone()),
        SatToken::Enum(name) => Some(name.clone()),
        _ => None,
    }
}

/// Reads the field `num_bodies` of the header of a `SatDocument`.
#[verifier::external_body]
pub(crate) fn body_count(document: &SatDocument) -> (count: usize)
    ensures
        count == header(*document).num_bodies,
{
    document.header.num_bodies
}

/// Writes the field `num_bodies` of the header of a `SatDocument`, and nothing
/// else.
#[verifier::external_body]
pub(crate) fn set_body_count(document: &mut SatDocument, count: usize)
    ensures
        records(*final(document)) == records(*old(document)),
        header(*final(document)) == (HeaderView {
            num_bodies: count as nat,
            ..header(*old(document))
        }),
{
    document.header.num_bodies = count;
}

/// What a list of weights says, where there is one.
pub open spec fn weights_view(weights: Option<&Vec<Bits>>) -> Option<Seq<Bits>> {
    match weights {
        Some(weights) => Some(weights@),
        None => None,
    }
}

/// Whether every multiplicity in a list of knots is positive.
pub open spec fn counted(knots: Seq<(Bits, i32)>) -> bool {
    forall|i: int| 0 <= i < knots.len() ==> (#[trigger] knots[i]).1 >= 1
}

/// Whether no token points at a record: every pointer is null.
pub open spec fn points_nowhere(tokens: Seq<TokenView>) -> bool {
    forall|i: int|
        0 <= i < tokens.len() ==> ((#[trigger] tokens[i]) matches TokenView::Pointer(id) ==> id
            == -1)
}

/// The tokens that `SatDocument::add_spline_curve` writes.
pub uninterp spec fn spline_curve_tokens(
    rational: bool,
    degree: i32,
    closed: bool,
    knots: Seq<(Bits, i32)>,
    control: Seq<Point3>,
    weights: Option<Seq<Bits>>,
    fit_tolerance: Bits,
) -> Seq<TokenView>;

/// Wraps `SatDocument::add_spline_curve`: an `intcurve-curve` record goes to the
/// end, its tokens made of the arguments alone, and its index is returned. It
/// points at no other record and holds no binary token. The header announces the new number of records.
#[verifier::external_body]
pub(crate) fn add_spline_curve(
    document: &mut SatDocument,
    rational: bool,
    degree: i32,
    closed: bool,
    knots: &Vec<(Bits, i32)>,
    control: &Vec<Point3>,
    weights: Option<&Vec<Bits>>,
    fit_tolerance: Bits,
) -> (id: i32)
    requires
        counted(knots@),
    ensures
        id == records(*old(document)).len() as i32,
        records(*final(document)) == records(*old(document)).push(
            fresh_record(
                id as int,
                "intcurve-curve"@,
                spline_curve_tokens(
                    rational,
                    degree,
                    closed,
                    knots@,
                    control@,
                    weights_view(weights),
                    fit_tolerance,
                ),
            ),
        ),
        points_nowhere(records(*final(document)).last().tokens),
        plain(records(*final(document)).last().tokens),
        header(*final(document)) == announcing(
            header(*old(document)),
            records(*final(document)).len(),
        ),
{
    let double = |b: &u64| SatToken::Sab { tag: 6, data: b.to_le_bytes().to_vec() }.as_float().unwrap();
    let knots = Vec::from_iter(knots.iter().map(|knot| (double(&knot.0), knot.1)));
    let control = Vec::from_iter(control.iter().map(|p| [double(&p.x), double(&p.y), double(&p.z)]));
    let weights = weights.map(|list| Vec::from_iter(list.iter().map(double)));
    let tolerance = double(&fit_tolerance);
    document.add_spline_curve(rational, degree, closed, &knots, &control, weights.as_deref(), tolerance)
}

/// The tokens that `SatDocument::add_spline_surface` writes.
pub uninterp spec fn spline_surface_tokens(
    v_reversed: bool,
    rational: bool,
    u_degree: i32,
    v_degree: i32,
    u_closed: bool,
    v_closed: bool,
    u_knots: Seq<(Bits, i32)>,
    v_knots: Seq<(Bits, i32)>,
    control: Seq<Point3>,
    weights: Option<Seq<Bits>>,
    fit_tolerance: Bits,
) -> Seq<TokenView>;

/// Whether the tokens are those of an exact spline surface: a null pointer, a
/// sense, and a block that an opening brace and `exactsur` begin and a closing
/// brace ends. None is of the binary form.
pub open spec fn exact_spline(tokens: Seq<TokenView>) -> bool {
    &&& tokens.len() > 4
    &&& tokens[0] == TokenView::Pointer(-1)
    &&& tokens[1] == TokenView::Ident("forward"@) || tokens[1] == TokenView::Ident("reversed"@)
    &&& tokens[2] == TokenView::Ident("{"@)
    &&& tokens[3] == TokenView::Ident("exactsur"@)
    &&& exists|i: int| 4 <= i < tokens.len() && #[trigger] tokens[i] == TokenView::Ident("}"@)
    &&& plain(tokens)
}

/// Wraps `SatDocument::add_spline_surface`: a `spline-surface` record goes to
/// the end, its tokens made of the arguments alone and of the shape
/// [`exact_spline`], and its index is returned. It points at no other record.
/// The header announces the new number of records.
#[verifier::external_body]
pub(crate) fn add_spline_surface(
    document: &mut SatDocument,
    v_reversed: bool,
    rational: bool,
    u_degree: i32,
    v_degree: i32,
    u_closed: bool,
    v_closed: bool,
    u_knots: &Vec<(Bits, i32)>,
    v_knots: &Vec<(Bits, i32)>,
    control: &Vec<Point3>,
    weights: Option<&Vec<Bits>>,
    fit_tolerance: Bits,
) -> (id: i32)
    requires
        counted(u_knots@),
        counted(v_knots@),
    ensures
        id == records(*old(document)).len() as i32,
        records(*final(document)) == records(*old(document)).push(
            fresh_record(
                id as int,
                "spline-surface"@,
                spline_surface_tokens(
                    v_reversed,
                    rational,
                    u_degree,
                    v_degree,
                    u_closed,
                    v_closed,
                    u_knots@,
                    v_knots@,
                    control@,
                    weights_view(weights),
                    fit_tolerance,
                ),
            ),
        ),
        exact_spline(records(*final(document)).last().tokens),
        points_nowhere(records(*final(document)).last().tokens),
        header(*final(document)) == announcing(
            header(*old(document)),
            records(*final(document)).len(),
        ),
{
    let double = |b: &u64| SatToken::Sab { tag: 6, data: b.to_le_bytes().to_vec() }.as_float().unwrap();
    let runs = |knots: &[(u64, i32)]| Vec::from_iter(knots.iter().map(|k| (double(&k.0), k.1)));
    let control = Vec::from_iter(control.iter().map(|p| [double(&p.x), double(&p.y), double(&p.z)]));
    let weights = weights.map(|list| Vec::from_iter(list.iter().map(double)));
    document.add_spline_surface(
        v_reversed, rational, u_degree, v_degree, u_closed, v_closed, &runs(u_knots), &runs(v_knots),
        &control, weights.as_deref(), double(&fit_tolerance)
    )
}

/// The tokens that `SatDocument::add_pcurve` writes into a document that holds
/// the given records.
pub uninterp spec fn pcurve_tokens(
    records: Seq<RecordView>,
    rational: bool,
    degree: i32,
    closed: bool,
    knots: Seq<(Bits, i32)>,
    control: Seq<Point2>,
    weights: Option<Seq<Bits>>,
    fit_tolerance: Bits,
    support: i32,
    offsets: (Bits, Bits),
) -> Seq<TokenView>;

/// Whether a record is a surface that a parameter-space curve can lie on.
pub open spec fn can_support(record: RecordView) -> bool {
    ||| record.kind == "spline-surface"@ && exact_spline(record.tokens)
    ||| record.tokens.len() > 0 && {
        ||| record.kind == "plane-surface"@
        ||| record.kind == "cone-surface"@
        ||| record.kind == "sphere-surface"@
        ||| record.kind == "torus-surface"@
    }
}

/// Whether every pointer in a list of tokens is null or stands in another list.
pub open spec fn points_only_within(tokens: Seq<TokenView>, others: Seq<TokenView>) -> bool {
    forall|i: int|
        0 <= i < tokens.len() && (#[trigger] tokens[i]) is Pointer ==> tokens[i]
            == TokenView::Pointer(-1) || others.contains(tokens[i])
}

/// Wraps `SatDocument::add_pcurve`: a `pcurve` record goes to the end, its tokens
/// made of the arguments and of the records before it, and its index is
/// returned. A pointer in it is null or copied from the supporting surface, and a
/// binary token in it is copied from there. The header announces the new number
/// of records. The supporting record has to be there and to be a surface of a
/// kind that `acadrust` embeds. For a spline surface `acadrust` counts the
/// opening braces in the records before it with `SatToken::as_ident`, which
/// panics on a binary string shorter than its leading bytes: those records have
/// to be legible.
#[verifier::external_body]
pub(crate) fn add_pcurve(
    document: &mut SatDocument,
    rational: bool,
    degree: i32,
    closed: bool,
    knots: &Vec<(Bits, i32)>,
    control: &Vec<Point2>,
    weights: Option<&Vec<Bits>>,
    fit_tolerance: Bits,
    support: i32,
    offsets: (Bits, Bits),
) -> (id: i32)
    requires
        counted(knots@),
        slot_of(records(*old(document)), support as usize) is Some,
        can_support(
            records(*old(document))[slot_of(records(*old(document)), support as usize).unwrap()],
        ),
        records(*old(document))[slot_of(records(*old(document)), support as usize).unwrap()].kind
            == "spline-surface"@ ==> legible_until(
            records(*old(document)),
            (support as usize) as int,
        ),
    ensures
        id == records(*old(document)).len() as i32,
        records(*final(document)) == records(*old(document)).push(
            fresh_record(
                id as int,
                "pcurve"@,
                pcurve_tokens(
                    records(*old(document)),
                    rational,
                    degree,
                    closed,
                    knots@,
                    control@,
                    weights_view(weights),
                    fit_tolerance,
                    support,
                    offsets,
                ),
            ),
        ),
        points_only_within(
            records(*final(document)).last().tokens,
            records(*old(document))[slot_of(
                records(*old(document)),
                support as usize,
            ).unwrap()].tokens,
        ),
        plain(
            records(*old(document))[slot_of(
                records(*old(document)),
                support as usize,
            ).unwrap()].tokens,
        ) ==> plain(records(*final(document)).last().tokens),
        header(*final(document)) == announcing(
            header(*old(document)),
            records(*final(document)).len(),
        ),
{
    let double = |b: &u64| SatToken::Sab { tag: 6, data: b.to_le_bytes().to_vec() }.as_float().unwrap();
    let knots = Vec::from_iter(knots.iter().map(|knot| (double(&knot.0), knot.1)));
    let control = Vec::from_iter(control.iter().map(|p| [double(&p.u), double(&p.v)]));
    let weights = weights.map(|list| Vec::from_iter(list.iter().map(double)));
    let tolerance = double(&fit_tolerance);
    let offsets = (double(&offsets.0), double(&offsets.1));
    document.add_pcurve(
        rational, degree, closed, &knots, &control, weights.as_deref(), tolerance, support, offsets,
    )
}

} // verus!
