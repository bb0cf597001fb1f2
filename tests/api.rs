use libyml::{
    yaml_document_add_mapping, yaml_document_add_scalar, yaml_document_end_event_initialize,
    yaml_document_get_node, yaml_document_get_root_node, yaml_document_initialize,
    yaml_document_start_event_initialize, yaml_emitter_dump, yaml_emitter_initialize,
    yaml_emitter_open, yaml_parser_initialize, yaml_parser_load, yaml_scalar_event_initialize,
    yaml_stream_end_event_initialize, yaml_stream_start_event_initialize, Success, YamlEncodingT,
    YamlEventTypeT, YamlMappingStyleT, YamlNodeTypeT, YamlScalarStyleT, YamlTagDirectiveT,
    YamlVersionDirectiveT,
};

#[test]
fn node_ids_start_at_one() {
    let mut document = yaml_document_initialize(None, Vec::new(), false, false);
    assert!(yaml_document_get_root_node(&document).is_none());
    let map = yaml_document_add_mapping(&mut document, None, YamlMappingStyleT::YamlAnyMappingStyle);
    let s = yaml_document_add_scalar(&mut document, Some(b"!t".to_vec()), b"v".to_vec(), YamlScalarStyleT::YamlAnyScalarStyle);
    assert_eq!((map, s), (1, 2));
    assert_eq!(yaml_document_get_root_node(&document).unwrap().type_, YamlNodeTypeT::YamlMappingNode);
    assert_eq!(yaml_document_get_node(&document, 2).unwrap().tag, b"!t".to_vec());
    assert!(yaml_document_get_node(&document, 0).is_none());
    assert!(yaml_document_get_node(&document, 3).is_none());
}

#[test]
fn open_is_idempotent() {
    let mut emitter = yaml_emitter_initialize();
    assert!(yaml_emitter_open(&mut emitter).ok);
    assert!(yaml_emitter_open(&mut emitter).ok);
    assert_eq!(emitter.events.len(), 1);
    assert_eq!(emitter.events[0].type_, YamlEventTypeT::YamlStreamStartEvent);
}

#[test]
fn success_negates_to_failure() {
    assert!(Success { ok: false }.failure().fail);
    assert!(!Success { ok: true }.failure().fail);
}

#[test]
fn two_documents_then_end_of_stream() {
    let directives = vec![YamlTagDirectiveT { handle: b"!e!".to_vec(), prefix: b"tag:example.com,2000:".to_vec() }];
    let version = Some(YamlVersionDirectiveT { major: 1, minor: 1 });
    let events = vec![
        yaml_stream_start_event_initialize(YamlEncodingT::YamlUtf8Encoding),
        yaml_document_start_event_initialize(version, directives.clone(), false),
        yaml_scalar_event_initialize(None, None, b"one".to_vec(), true, true, YamlScalarStyleT::YamlPlainScalarStyle),
        yaml_document_end_event_initialize(false),
        yaml_document_start_event_initialize(None, Vec::new(), true),
        yaml_scalar_event_initialize(None, None, b"two".to_vec(), true, true, YamlScalarStyleT::YamlPlainScalarStyle),
        yaml_document_end_event_initialize(true),
        yaml_stream_end_event_initialize(),
    ];
    let mut parser = yaml_parser_initialize(events);
    let mut first = yaml_document_initialize(None, Vec::new(), false, false);
    assert!(yaml_parser_load(&mut parser, &mut first).ok);
    assert_eq!(first.nodes.items[0].data.scalar.value, b"one".to_vec());
    assert_eq!(first.version_directive, version);
    assert_eq!(first.tag_directives.items, directives);
    assert!(!first.start_implicit);
    let mut second = yaml_document_initialize(None, Vec::new(), false, false);
    assert!(yaml_parser_load(&mut parser, &mut second).ok);
    assert_eq!(second.nodes.items[0].data.scalar.value, b"two".to_vec());
    let mut third = yaml_document_initialize(None, Vec::new(), false, false);
    assert!(yaml_parser_load(&mut parser, &mut third).ok);
    assert!(third.nodes.items.is_empty());
    let mut fourth = yaml_document_initialize(None, Vec::new(), false, false);
    assert!(yaml_parser_load(&mut parser, &mut fourth).ok);
    assert!(fourth.nodes.items.is_empty());
    assert_eq!(parser.error, libyml::YamlErrorTypeT::YamlNoError);
    assert_eq!(parser.problem, None);
    assert_eq!(parser.context, None);

    let mut emitter = yaml_emitter_initialize();
    assert!(yaml_emitter_dump(&mut emitter, &mut first).ok);
    let start = &emitter.events[1].data.document_start;
    assert_eq!(start.version_directive, version);
    assert_eq!(start.tag_directives.items, directives);
    assert!(!start.implicit);
}

#[test]
fn top_level_nodes_all_land_in_the_arena() {
    let events = vec![
        yaml_stream_start_event_initialize(YamlEncodingT::YamlUtf8Encoding),
        yaml_document_start_event_initialize(None, Vec::new(), true),
        yaml_scalar_event_initialize(None, None, b"a".to_vec(), true, true, YamlScalarStyleT::YamlPlainScalarStyle),
        yaml_scalar_event_initialize(None, None, b"b".to_vec(), true, true, YamlScalarStyleT::YamlPlainScalarStyle),
        yaml_document_end_event_initialize(true),
        yaml_stream_end_event_initialize(),
    ];
    let mut parser = yaml_parser_initialize(events);
    let mut document = yaml_document_initialize(None, Vec::new(), false, false);
    assert!(yaml_parser_load(&mut parser, &mut document).ok);
    assert_eq!(document.nodes.items.len(), 2);
    assert_eq!(yaml_document_get_root_node(&document).unwrap().data.scalar.value, b"a".to_vec());
}
