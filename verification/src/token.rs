//! Tokens and records, and what they mean.

use vstd::prelude::*;
use crate::geometry::Point3;
use crate::scalar::Bits;

verus! {

/// The pointer that refers to no record.
pub const NULL: i32 = -1;

/// A token of a record that this library writes itself.
#[derive(Debug, PartialEq, Eq)]
pub enum Token {
    /// A keyword.
    Ident(String),
    /// A reference to another record by its index, or [`NULL`].
    Pointer(i32),
    /// A number.
    Float(Bits),
    /// A counted string.
    Text(String),
    /// A position or a direction.
    Position(Point3),
}

/// What a token of a SAT record says.
#[verifier::ext_equal]
pub enum TokenView {
    /// A keyword.
    Ident(Seq<char>),
    /// A reference to another record by its index.
    Pointer(int),
    /// An integer.
    Integer(int),
    /// A number.
    Float(Bits),
    /// A counted string.
    Text(Seq<char>),
    /// A position or a direction.
    Position(Point3),
    /// The literal for true.
    True,
    /// The literal for false.
    False,
    /// The end of a record.
    Terminator,
    /// A keyword out of a fixed set.
    Keyword(Seq<char>),
    /// A token of the binary form, kept as its tag and its bytes.
    Raw { tag: u8, data: Seq<u8> },
}

impl View for Token {
    type V = TokenView;

    open spec fn view(&self) -> TokenView {
        match self {
            Token::Ident(name) => TokenView::Ident(name@),
            Token::Pointer(id) => TokenView::Pointer(*id as int),
            Token::Float(value) => TokenView::Float(*value),
            Token::Text(text) => TokenView::Text(text@),
            Token::Position(point) => TokenView::Position(*point),
        }
    }
}

/// What a list of tokens says.
pub open spec fn token_views(tokens: Seq<Token>) -> Seq<TokenView> {
    Seq::new(tokens.len(), |i: int| tokens[i]@)
}

/// What a SAT record says.
#[verifier::ext_equal]
pub struct RecordView {
    /// The number other records point at it by.
    pub index: int,
    /// The entity type, such as `face` or `plane-surface`.
    pub kind: Seq<char>,
    /// The entity sub-type, where one is given apart from the type.
    pub sub_type: Option<Seq<char>>,
    /// The pointer to the first attribute.
    pub attribute: int,
    /// The number after the attribute.
    pub subtype_id: int,
    /// Everything after that.
    pub tokens: Seq<TokenView>,
    /// The text the record was read from.
    pub raw_text: Option<Seq<char>>,
}

/// A record that was made, not read: of the given type and tokens, with no
/// attribute, no sub-type and no text of its own.
pub open spec fn fresh_record(index: int, kind: Seq<char>, tokens: Seq<TokenView>) -> RecordView {
    RecordView {
        index,
        kind,
        sub_type: None,
        attribute: NULL as int,
        subtype_id: -1,
        tokens,
        raw_text: None,
    }
}

/// What the header of a SAT document says.
#[verifier::ext_equal]
pub struct HeaderView {
    /// The major, minor and patch numbers of the format.
    pub version: (u32, u32, u32),
    /// How many records the header announces.
    pub num_records: nat,
    /// How many bodies the header announces.
    pub num_bodies: nat,
    /// Whether history is present.
    pub has_history: bool,
    /// The product that wrote the document.
    pub product_id: Seq<char>,
    /// The version of that product.
    pub product_version: Seq<char>,
    /// When it was written.
    pub date: Seq<char>,
    /// The spatial resolution.
    pub spatial_resolution: Bits,
    /// The normal tolerance.
    pub normal_tolerance: Bits,
    /// The fit tolerance, where the format has one.
    pub resfit_tolerance: Option<Bits>,
}

/// The header that announces `num_records` records and is otherwise the same.
pub open spec fn announcing(header: HeaderView, num_records: nat) -> HeaderView {
    HeaderView { num_records, ..header }
}

/// The position of the record that goes by an index: the position itself where
/// the record there has that index, else the first record that has it.
pub open spec fn slot_of(records: Seq<RecordView>, index: usize) -> Option<int> {
    if index < records.len() && records[index as int].index == index as i32 {
        Some(index as int)
    } else {
        first_indexed(records, index as i32)
    }
}

/// The first position of a record with the given index.
pub open spec fn first_indexed(records: Seq<RecordView>, index: i32) -> Option<int> {
    if exists|i: int| is_first_indexed(records, index, i) {
        Some(choose|i: int| is_first_indexed(records, index, i))
    } else {
        None
    }
}

/// Whether `i` is the first position of a record with the given index.
pub open spec fn is_first_indexed(records: Seq<RecordView>, index: i32, i: int) -> bool {
    &&& 0 <= i < records.len()
    &&& records[i].index == index
    &&& forall|j: int| 0 <= j < i ==> records[j].index != index
}

} // verus!
