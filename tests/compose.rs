use libyml::{
    yaml_alias_event_initialize, yaml_document_end_event_initialize,
    yaml_document_start_event_initialize, yaml_mapping_end_event_initialize,
    yaml_mapping_start_event_initialize, yaml_parser_initialize, yaml_parser_load,
    yaml_scalar_event_initialize, yaml_sequence_end_event_initialize,
    yaml_sequence_start_event_initialize, yaml_stream_end_event_initialize,
    yaml_stream_start_event_initialize, YamlDocumentT, YamlEncodingT, YamlErrorTypeT, YamlEventT,
    YamlMappingStyleT, YamlMarkT, YamlNodeTypeT, YamlScalarStyleT, YamlSequenceStyleT,
};

fn mark(index: u64) -> YamlMarkT {
    YamlMarkT { index, line: 0, column: index }
}

fn scalar(anchor: Option<&[u8]>, tag: Option<&[u8]>, value: &[u8]) -> YamlEventT {
    yaml_scalar_event_initialize(
        anchor.map(|a| a.to_vec()),
        tag.map(|t| t.to_vec()),
        value.to_vec(),
        true,
        true,
        YamlScalarStyleT::YamlPlainScalarStyle,
    )
}

fn stream(body: Vec<YamlEventT>) -> Vec<YamlEventT> {
    let mut events = vec![
        yaml_stream_start_event_initialize(YamlEncodingT::YamlUtf8Encoding),
        yaml_document_start_event_initialize(None, Vec::new(), true),
    ];
    events.extend(body);
    events.push(yaml_document_end_event_initialize(true));
    events.push(yaml_stream_end_event_initialize());
    events
}

fn empty_document() -> YamlDocumentT {
    libyml::yaml_document_initialize(None, Vec::new(), false, false)
}

#[test]
fn scenario_a_mapping_of_one_pair() {
    let events = stream(vec![
        yaml_mapping_start_event_initialize(None, None, true, YamlMappingStyleT::YamlBlockMappingStyle),
        scalar(None, None, b"a"),
        scalar(None, None, b"b"),
        yaml_mapping_end_event_initialize(),
    ]);
    let mut parser = yaml_parser_initialize(events);
    let mut document = empty_document();
    assert!(yaml_parser_load(&mut parser, &mut document).ok);
    assert_eq!(document.nodes.items.len(), 3);
    let root = &document.nodes.items[0];
    assert_eq!(root.type_, YamlNodeTypeT::YamlMappingNode);
    assert_eq!(root.tag, b"tag:yaml.org,2002:map".to_vec());
    let pairs = &root.data.mapping.pairs.items;
    assert_eq!(pairs.len(), 1);
    assert_eq!((pairs[0].key, pairs[0].value), (2, 3));
    assert_eq!(document.nodes.items[1].data.scalar.value, b"a".to_vec());
    assert_eq!(document.nodes.items[2].data.scalar.value, b"b".to_vec());
    assert!(document.start_implicit);
    assert!(document.end_implicit);
    let mut next = empty_document();
    assert!(yaml_parser_load(&mut parser, &mut next).ok);
    assert!(next.nodes.items.is_empty());
    assert!(parser.stream_end_produced);
}

#[test]
fn duplicate_anchor_reports_both_marks() {
    let mut first = scalar(Some(b"x"), None, b"a");
    first.start_mark = mark(3);
    let mut second = scalar(Some(b"x"), None, b"b");
    second.start_mark = mark(9);
    let events = stream(vec![
        yaml_sequence_start_event_initialize(None, None, true, YamlSequenceStyleT::YamlBlockSequenceStyle),
        first,
        second,
        yaml_sequence_end_event_initialize(),
    ]);
    let mut parser = yaml_parser_initialize(events);
    let mut document = empty_document();
    assert!(!yaml_parser_load(&mut parser, &mut document).ok);
    assert_eq!(parser.error, YamlErrorTypeT::YamlComposerError);
    assert_eq!(parser.context, Some("found duplicate anchor; first occurrence"));
    assert_eq!(parser.context_mark, mark(3));
    assert_eq!(parser.problem, Some("second occurrence"));
    assert_eq!(parser.problem_mark, mark(9));
    assert!(document.nodes.items.is_empty());
}

#[test]
fn undefined_alias_is_rejected() {
    let mut alias = yaml_alias_event_initialize(b"nowhere".to_vec());
    alias.start_mark = mark(5);
    let events = stream(vec![
        yaml_sequence_start_event_initialize(None, None, true, YamlSequenceStyleT::YamlBlockSequenceStyle),
        alias,
        yaml_sequence_end_event_initialize(),
    ]);
    let mut parser = yaml_parser_initialize(events);
    let mut document = empty_document();
    assert!(!yaml_parser_load(&mut parser, &mut document).ok);
    assert_eq!(parser.error, YamlErrorTypeT::YamlComposerError);
    assert_eq!(parser.problem, Some("found undefined alias"));
    assert_eq!(parser.problem_mark, mark(5));
    assert!(document.nodes.items.is_empty());
}

#[test]
fn alias_reuses_the_anchored_node() {
    let events = stream(vec![
        yaml_sequence_start_event_initialize(None, None, true, YamlSequenceStyleT::YamlFlowSequenceStyle),
        scalar(Some(b"a"), None, b"shared"),
        yaml_alias_event_initialize(b"a".to_vec()),
        yaml_sequence_end_event_initialize(),
    ]);
    let mut parser = yaml_parser_initialize(events);
    let mut document = empty_document();
    assert!(yaml_parser_load(&mut parser, &mut document).ok);
    assert_eq!(document.nodes.items.len(), 2);
    assert_eq!(document.nodes.items[0].data.sequence.items.items, vec![2, 2]);
}

#[test]
fn default_tags_for_null_and_bang() {
    let events = stream(vec![
        yaml_sequence_start_event_initialize(None, Some(b"!".to_vec()), false, YamlSequenceStyleT::YamlBlockSequenceStyle),
        scalar(None, Some(b"!"), b"x"),
        scalar(None, Some(b"!custom"), b"y"),
        yaml_mapping_start_event_initialize(None, None, true, YamlMappingStyleT::YamlFlowMappingStyle),
        yaml_mapping_end_event_initialize(),
        yaml_sequence_end_event_initialize(),
    ]);
    let mut parser = yaml_parser_initialize(events);
    let mut document = empty_document();
    assert!(yaml_parser_load(&mut parser, &mut document).ok);
    assert_eq!(document.nodes.items[0].tag, b"tag:yaml.org,2002:seq".to_vec());
    assert_eq!(document.nodes.items[1].tag, b"tag:yaml.org,2002:str".to_vec());
    assert_eq!(document.nodes.items[2].tag, b"!custom".to_vec());
    assert_eq!(document.nodes.items[3].tag, b"tag:yaml.org,2002:map".to_vec());
}

#[test]
fn truncated_stream_fails_at_the_source() {
    let events = vec![
        yaml_stream_start_event_initialize(YamlEncodingT::YamlUtf8Encoding),
        yaml_document_start_event_initialize(None, Vec::new(), true),
        scalar(None, None, b"a"),
    ];
    let mut parser = yaml_parser_initialize(events);
    let mut document = empty_document();
    assert!(!yaml_parser_load(&mut parser, &mut document).ok);
    assert_eq!(parser.error, YamlErrorTypeT::YamlParserError);
    assert!(document.nodes.items.is_empty());
}
