use libyml::{
    yaml_document_add_mapping, yaml_document_add_scalar, yaml_document_add_sequence,
    yaml_document_append_mapping_pair, yaml_document_append_sequence_item,
    yaml_document_initialize, yaml_emitter_close, yaml_emitter_dump, yaml_emitter_initialize,
    yaml_emitter_open, yaml_parser_initialize, yaml_parser_load, YamlEmitterT, YamlEventT,
    YamlEventTypeT, YamlMappingStyleT, YamlNodeTypeT, YamlScalarStyleT, YamlSequenceStyleT,
};

fn types(emitter: &YamlEmitterT) -> Vec<YamlEventTypeT> {
    emitter.events.iter().map(|e| e.type_).collect()
}

fn compose_all(events: Vec<YamlEventT>) -> libyml::YamlDocumentT {
    let mut parser = yaml_parser_initialize(events);
    let mut document = yaml_document_initialize(None, Vec::new(), false, false);
    assert!(yaml_parser_load(&mut parser, &mut document).ok);
    document
}

#[test]
fn empty_document_only_closes_the_stream() {
    let mut emitter = yaml_emitter_initialize();
    assert!(yaml_emitter_open(&mut emitter).ok);
    let mut document = yaml_document_initialize(None, Vec::new(), true, true);
    assert!(yaml_emitter_dump(&mut emitter, &mut document).ok);
    assert_eq!(
        types(&emitter),
        vec![YamlEventTypeT::YamlStreamStartEvent, YamlEventTypeT::YamlStreamEndEvent]
    );
    assert!(emitter.closed);
    assert!(yaml_emitter_close(&mut emitter).ok);
    assert_eq!(emitter.events.len(), 2);
}

#[test]
fn scenario_a_round_trip() {
    let mut document = yaml_document_initialize(None, Vec::new(), true, true);
    let map = yaml_document_add_mapping(&mut document, None, YamlMappingStyleT::YamlBlockMappingStyle);
    let a = yaml_document_add_scalar(&mut document, None, b"a".to_vec(), YamlScalarStyleT::YamlPlainScalarStyle);
    let b = yaml_document_add_scalar(&mut document, None, b"b".to_vec(), YamlScalarStyleT::YamlPlainScalarStyle);
    yaml_document_append_mapping_pair(&mut document, map, a, b);
    let mut emitter = yaml_emitter_initialize();
    assert!(yaml_emitter_dump(&mut emitter, &mut document).ok);
    assert!(document.nodes.items.is_empty());
    assert_eq!(
        types(&emitter),
        vec![
            YamlEventTypeT::YamlStreamStartEvent,
            YamlEventTypeT::YamlDocumentStartEvent,
            YamlEventTypeT::YamlMappingStartEvent,
            YamlEventTypeT::YamlScalarEvent,
            YamlEventTypeT::YamlScalarEvent,
            YamlEventTypeT::YamlMappingEndEvent,
            YamlEventTypeT::YamlDocumentEndEvent,
        ]
    );
    let events = &emitter.events;
    assert!(events[1].data.document_start.implicit);
    assert!(events[2].data.mapping_start.implicit);
    assert_eq!(events[2].data.mapping_start.anchor, None);
    assert_eq!(events[3].data.scalar.value, b"a".to_vec());
    assert!(events[3].data.scalar.plain_implicit);
    assert!(events[3].data.scalar.quoted_implicit);
    assert_eq!(events[4].data.scalar.value, b"b".to_vec());
    assert!(events[6].data.document_end.implicit);
    assert!(yaml_emitter_close(&mut emitter).ok);

    let again = compose_all(emitter.events.clone());
    assert_eq!(again.nodes.items.len(), 3);
    assert_eq!(again.nodes.items[0].type_, YamlNodeTypeT::YamlMappingNode);
    let pairs = &again.nodes.items[0].data.mapping.pairs.items;
    assert_eq!((pairs[0].key, pairs[0].value), (2, 3));
    assert_eq!(again.nodes.items[1].data.scalar.value, b"a".to_vec());
    assert_eq!(again.nodes.items[2].data.scalar.value, b"b".to_vec());
}

#[test]
fn scenario_b_shared_scalar_gets_anchor_and_alias() {
    let mut document = yaml_document_initialize(None, Vec::new(), false, false);
    let map = yaml_document_add_mapping(&mut document, None, YamlMappingStyleT::YamlBlockMappingStyle);
    let k1 = yaml_document_add_scalar(&mut document, None, b"k1".to_vec(), YamlScalarStyleT::YamlPlainScalarStyle);
    let k2 = yaml_document_add_scalar(&mut document, None, b"k2".to_vec(), YamlScalarStyleT::YamlPlainScalarStyle);
    let x = yaml_document_add_scalar(&mut document, None, b"x".to_vec(), YamlScalarStyleT::YamlPlainScalarStyle);
    yaml_document_append_mapping_pair(&mut document, map, k1, x);
    yaml_document_append_mapping_pair(&mut document, map, k2, x);
    let mut emitter = yaml_emitter_initialize();
    assert!(yaml_emitter_dump(&mut emitter, &mut document).ok);
    let events = &emitter.events;
    assert_eq!(events.len(), 9);
    assert_eq!(events[4].type_, YamlEventTypeT::YamlScalarEvent);
    assert_eq!(events[4].data.scalar.value, b"x".to_vec());
    assert_eq!(events[4].data.scalar.anchor, Some(b"id001".to_vec()));
    assert_eq!(events[3].data.scalar.anchor, None);
    assert_eq!(events[5].data.scalar.anchor, None);
    assert_eq!(events[6].type_, YamlEventTypeT::YamlAliasEvent);
    assert_eq!(events[6].data.alias.anchor, b"id001".to_vec());
    assert!(yaml_emitter_close(&mut emitter).ok);

    let again = compose_all(emitter.events.clone());
    let pairs = &again.nodes.items[0].data.mapping.pairs.items;
    assert_eq!(pairs.len(), 2);
    assert_eq!(pairs[0].value, pairs[1].value);
    assert_eq!(again.nodes.items.len(), 4);
}

#[test]
fn shared_collection_is_emitted_once() {
    let mut document = yaml_document_initialize(None, Vec::new(), false, false);
    let outer = yaml_document_add_sequence(&mut document, None, YamlSequenceStyleT::YamlBlockSequenceStyle);
    let inner = yaml_document_add_sequence(&mut document, None, YamlSequenceStyleT::YamlFlowSequenceStyle);
    let leaf = yaml_document_add_scalar(&mut document, None, b"v".to_vec(), YamlScalarStyleT::YamlPlainScalarStyle);
    yaml_document_append_sequence_item(&mut document, inner, leaf);
    yaml_document_append_sequence_item(&mut document, outer, inner);
    yaml_document_append_sequence_item(&mut document, outer, inner);
    yaml_document_append_sequence_item(&mut document, outer, inner);
    let mut emitter = yaml_emitter_initialize();
    assert!(yaml_emitter_dump(&mut emitter, &mut document).ok);
    assert_eq!(
        types(&emitter),
        vec![
            YamlEventTypeT::YamlStreamStartEvent,
            YamlEventTypeT::YamlDocumentStartEvent,
            YamlEventTypeT::YamlSequenceStartEvent,
            YamlEventTypeT::YamlSequenceStartEvent,
            YamlEventTypeT::YamlScalarEvent,
            YamlEventTypeT::YamlSequenceEndEvent,
            YamlEventTypeT::YamlAliasEvent,
            YamlEventTypeT::YamlAliasEvent,
            YamlEventTypeT::YamlSequenceEndEvent,
            YamlEventTypeT::YamlDocumentEndEvent,
        ]
    );
    assert_eq!(emitter.events[3].data.sequence_start.anchor, Some(b"id001".to_vec()));
    assert_eq!(emitter.events[4].data.scalar.anchor, None);
    assert_eq!(emitter.events[6].data.alias.anchor, b"id001".to_vec());
    assert_eq!(emitter.events[7].data.alias.anchor, b"id001".to_vec());
}

#[test]
fn custom_tag_is_not_implicit() {
    let mut document = yaml_document_initialize(None, Vec::new(), false, false);
    yaml_document_add_scalar(&mut document, Some(b"!thing".to_vec()), b"t".to_vec(), YamlScalarStyleT::YamlDoubleQuotedScalarStyle);
    let mut emitter = yaml_emitter_initialize();
    assert!(yaml_emitter_dump(&mut emitter, &mut document).ok);
    let scalar = &emitter.events[2].data.scalar;
    assert_eq!(scalar.tag, Some(b"!thing".to_vec()));
    assert!(!scalar.plain_implicit);
    assert!(!scalar.quoted_implicit);
    assert_eq!(scalar.style, YamlScalarStyleT::YamlDoubleQuotedScalarStyle);
}

#[test]
fn dump_after_close_fails_and_releases_document() {
    let mut emitter = yaml_emitter_initialize();
    let mut empty = yaml_document_initialize(None, Vec::new(), false, false);
    assert!(yaml_emitter_dump(&mut emitter, &mut empty).ok);
    let mut document = yaml_document_initialize(None, Vec::new(), false, false);
    yaml_document_add_scalar(&mut document, None, b"late".to_vec(), YamlScalarStyleT::YamlPlainScalarStyle);
    assert!(!yaml_emitter_dump(&mut emitter, &mut document).ok);
    assert_eq!(emitter.error, libyml::YamlErrorTypeT::YamlEmitterError);
    assert!(document.nodes.items.is_empty());
    assert_eq!(emitter.events.len(), 2);
}

#[test]
fn many_anchors_get_three_digit_names() {
    let mut document = yaml_document_initialize(None, Vec::new(), false, false);
    let seq = yaml_document_add_sequence(&mut document, None, YamlSequenceStyleT::YamlFlowSequenceStyle);
    let mut leaves = Vec::new();
    for i in 0..12u8 {
        leaves.push(yaml_document_add_scalar(&mut document, None, vec![b'a' + i], YamlScalarStyleT::YamlPlainScalarStyle));
    }
    for _ in 0..2 {
        for &leaf in &leaves {
            yaml_document_append_sequence_item(&mut document, seq, leaf);
        }
    }
    let mut emitter = yaml_emitter_initialize();
    assert!(yaml_emitter_dump(&mut emitter, &mut document).ok);
    assert_eq!(emitter.events[3].data.scalar.anchor, Some(b"id001".to_vec()));
    assert_eq!(emitter.events[14].data.scalar.anchor, Some(b"id012".to_vec()));
    assert_eq!(emitter.events[26].data.alias.anchor, b"id012".to_vec());
}
