//! Adding single records and giving them their tokens.

use acadrust::entities::acis::types::{SatDocument, SatPointer, SatRecord, SatToken};
use acis_append::entities::add_entity;
use acis_append::records::{null, pointer};
use acis_append::token::Token;

fn at(id: i32) -> SatToken {
    SatToken::Pointer(SatPointer::new(id))
}

fn word(name: &str) -> Token {
    Token::Ident(name.to_string())
}

fn three() -> SatDocument {
    let mut document = SatDocument::new();
    assert_eq!(add_entity(&mut document, "point", vec![]), 0);
    assert_eq!(add_entity(&mut document, "vertex", vec![word("a")]), 1);
    assert_eq!(add_entity(&mut document, "edge", vec![]), 2);
    document
}

#[test]
fn a_record_leads_with_its_attribute_pointer() {
    let document = three();
    assert_eq!(document.records[0].tokens, vec![at(-1)]);
    assert_eq!(
        document.records[1].tokens,
        vec![at(-1), SatToken::Ident("a".to_string())]
    );
    assert_eq!(document.records[1].entity_type, "vertex");
    assert_eq!(document.records[1].index, 1);
    assert_eq!(document.header.num_records, 3);
}

#[test]
fn tokens_are_replaced_as_a_whole() {
    let mut document = three();
    let before = document.clone();
    acis_append::entities::set(&mut document, 1, vec![word("b"), pointer(2)]);
    assert_eq!(
        document.records[1].tokens,
        vec![SatToken::Ident("b".to_string()), at(2)]
    );
    assert_eq!(document.records[1].entity_type, "vertex");
    assert_eq!(document.records[1].index, 1);
    assert_eq!(document.records[0], before.records[0]);
    assert_eq!(document.records[2], before.records[2]);
    assert_eq!(document.record_count(), 3);
    assert_eq!(document.header, before.header);
    acis_append::entities::set(&mut document, 1, vec![]);
    assert!(document.records[1].tokens.is_empty());
}

#[test]
fn a_pointer_may_be_ahead_of_its_record() {
    let mut document = SatDocument::new();
    let id = add_entity(&mut document, "vertex", vec![]);
    acis_append::entities::set(&mut document, id, vec![null(), pointer(3)]);
    assert_eq!(document.records[id as usize].tokens, vec![at(-1), at(3)]);
    assert_eq!(document.records[id as usize].entity_type, "vertex");
}

#[test]
fn an_index_that_no_record_has_changes_nothing() {
    for id in [-1, i32::MIN, 3, i32::MAX] {
        let mut document = three();
        let before = document.clone();
        acis_append::entities::set(&mut document, id, vec![word("b")]);
        assert_eq!(document.records, before.records);
        assert_eq!(document.header, before.header);
    }
}

#[test]
fn a_record_is_found_by_its_index_where_it_is_out_of_place() {
    let mut document = SatDocument::new();
    document.records.push(SatRecord::new(7, "point"));
    document.records.push(SatRecord::new(0, "vertex"));
    document.records.push(SatRecord::new(0, "edge"));
    acis_append::entities::set(&mut document, 0, vec![word("b")]);
    acis_append::entities::set(&mut document, 7, vec![word("c")]);
    assert_eq!(document.records[0].tokens, vec![SatToken::Ident("c".to_string())]);
    assert_eq!(document.records[1].tokens, vec![SatToken::Ident("b".to_string())]);
    assert!(document.records[2].tokens.is_empty());
}

#[test]
fn the_last_write_counts() {
    for id in [-1, 0, 1, 2, 3] {
        let mut twice = three();
        acis_append::entities::set(&mut twice, id, vec![word("b"), word("c")]);
        acis_append::entities::set(&mut twice, id, vec![word("d")]);
        let mut once = three();
        acis_append::entities::set(&mut once, id, vec![word("d")]);
        assert_eq!(twice.records, once.records);
        assert_eq!(twice.header, once.header);
        acis_append::entities::set(&mut once, id, vec![word("d")]);
        assert_eq!(twice.records, once.records);
    }
}
