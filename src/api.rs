//! Constructors for events, parsers, emitters and documents, and the
//! node arena's operations.
use vstd::prelude::*;

use crate::yaml::{children, map_tag, seq_tag, str_tag, yaml_map_tag, yaml_seq_tag, yaml_str_tag, DocumentView, YamlBufferT, YamlEmitterT, YamlErrorTypeT, YamlParserT, directives_view, opt_bytes, EventView, UnnamedYamlEventTData, UnnamedYamlEventTdataAlias, UnnamedYamlEventTdataDocumentEnd, UnnamedYamlEventTdataDocumentStart, UnnamedYamlEventTdataDocumentStartTagDirectives, UnnamedYamlEventTdataMappingStart, UnnamedYamlEventTdataScalar, UnnamedYamlEventTdataSequenceStart, UnnamedYamlEventTdataStreamStart, YamlEncodingT, YamlEventT, YamlEventTypeT, YamlTagDirectiveT, YamlVersionDirectiveT, NodeContent, NodeView, UnnamedYamlNodeTData, UnnamedYamlNodeTDataMapping, UnnamedYamlNodeTDataScalar, UnnamedYamlNodeTDataSequence, YamlMappingStyleT, YamlNodeItemT, YamlNodePairT, YamlNodeT, YamlNodeTypeT, YamlScalarStyleT, YamlSequenceStyleT, empty_document, zero_mark, UnnamedYamlDocumentTTagDirectives, YamlDocumentT, YamlMarkT, YamlStackT};

verus! {

/// The zero mark.
pub fn yaml_mark_zero() -> (r: YamlMarkT)
    ensures
        r == zero_mark(),
{
    YamlMarkT { index: 0, line: 0, column: 0 }
}

/// Release everything a document holds and leave it empty.
pub fn yaml_document_delete(document: &mut YamlDocumentT)
    ensures
        final(document)@ == empty_document(),
{
    *document = YamlDocumentT {
        nodes: YamlStackT { items: Vec::new() },
        version_directive: None,
        tag_directives: UnnamedYamlDocumentTTagDirectives { items: Vec::new() },
        start_implicit: false,
        end_implicit: false,
        start_mark: yaml_mark_zero(),
        end_mark: yaml_mark_zero(),
    };
    proof {
        assert(final(document)@.nodes =~= empty_document().nodes);
        assert(final(document)@.tag_directives =~= empty_document().tag_directives);
    }
}

fn yaml_node_data_empty() -> (r: UnnamedYamlNodeTData)
    ensures
        r.scalar.value@.len() == 0,
        r.sequence.items@.len() == 0,
        r.mapping.pairs@.len() == 0,
{
    UnnamedYamlNodeTData {
        scalar: UnnamedYamlNodeTDataScalar {
            value: Vec::new(),
            style: YamlScalarStyleT::YamlAnyScalarStyle,
        },
        sequence: UnnamedYamlNodeTDataSequence {
            items: YamlStackT { items: Vec::new() },
            style: YamlSequenceStyleT::YamlAnySequenceStyle,
        },
        mapping: UnnamedYamlNodeTDataMapping {
            pairs: YamlStackT { items: Vec::new() },
            style: YamlMappingStyleT::YamlAnyMappingStyle,
        },
    }
}

/// A scalar node.
pub(crate) fn yaml_scalar_node(
    tag: Vec<u8>,
    value: Vec<u8>,
    style: YamlScalarStyleT,
    start_mark: YamlMarkT,
    end_mark: YamlMarkT,
) -> (r: YamlNodeT)
    ensures
        r@ == (NodeView {
            tag: tag@,
            content: NodeContent::Scalar { value: value@, style },
            start_mark,
            end_mark,
        }),
{
    let mut data = yaml_node_data_empty();
    data.scalar = UnnamedYamlNodeTDataScalar { value, style };
    YamlNodeT { type_: YamlNodeTypeT::YamlScalarNode, tag, data, start_mark, end_mark }
}

/// An empty sequence node.
pub(crate) fn yaml_sequence_node(
    tag: Vec<u8>,
    style: YamlSequenceStyleT,
    start_mark: YamlMarkT,
    end_mark: YamlMarkT,
) -> (r: YamlNodeT)
    ensures
        r@ == (NodeView {
            tag: tag@,
            content: NodeContent::Sequence { items: Seq::empty(), style },
            start_mark,
            end_mark,
        }),
{
    let mut data = yaml_node_data_empty();
    data.sequence.style = style;
    let r = YamlNodeT { type_: YamlNodeTypeT::YamlSequenceNode, tag, data, start_mark, end_mark };
    proof {
        assert(r.data.sequence.items@ =~= Seq::<YamlNodeItemT>::empty());
    }
    r
}

/// An empty mapping node.
pub(crate) fn yaml_mapping_node(
    tag: Vec<u8>,
    style: YamlMappingStyleT,
    start_mark: YamlMarkT,
    end_mark: YamlMarkT,
) -> (r: YamlNodeT)
    ensures
        r@ == (NodeView {
            tag: tag@,
            content: NodeContent::Mapping { pairs: Seq::empty(), style },
            start_mark,
            end_mark,
        }),
{
    let mut data = yaml_node_data_empty();
    data.mapping.style = style;
    let r = YamlNodeT { type_: YamlNodeTypeT::YamlMappingNode, tag, data, start_mark, end_mark };
    proof {
        assert(r.data.mapping.pairs@ =~= Seq::<YamlNodePairT>::empty());
    }
    r
}

fn yaml_event_data_empty() -> (r: UnnamedYamlEventTData)
    ensures
        r.document_start.tag_directives.items@.len() == 0,
{
    UnnamedYamlEventTData {
        stream_start: UnnamedYamlEventTdataStreamStart { encoding: YamlEncodingT::YamlAnyEncoding },
        document_start: UnnamedYamlEventTdataDocumentStart {
            version_directive: None,
            tag_directives: UnnamedYamlEventTdataDocumentStartTagDirectives { items: Vec::new() },
            implicit: false,
        },
        document_end: UnnamedYamlEventTdataDocumentEnd { implicit: false },
        alias: UnnamedYamlEventTdataAlias { anchor: Vec::new() },
        scalar: UnnamedYamlEventTdataScalar {
            anchor: None,
            tag: None,
            value: Vec::new(),
            plain_implicit: false,
            quoted_implicit: false,
            style: YamlScalarStyleT::YamlAnyScalarStyle,
        },
        sequence_start: UnnamedYamlEventTdataSequenceStart {
            anchor: None,
            tag: None,
            implicit: false,
            style: YamlSequenceStyleT::YamlAnySequenceStyle,
        },
        mapping_start: UnnamedYamlEventTdataMappingStart {
            anchor: None,
            tag: None,
            implicit: false,
            style: YamlMappingStyleT::YamlAnyMappingStyle,
        },
    }
}

fn yaml_event_of(type_: YamlEventTypeT, data: UnnamedYamlEventTData) -> (r: YamlEventT)
    ensures
        r.type_ == type_,
        r.data == data,
        r.start_mark == zero_mark(),
        r.end_mark == zero_mark(),
{
    YamlEventT { type_, data, start_mark: yaml_mark_zero(), end_mark: yaml_mark_zero() }
}

/// A stream-start event.
pub fn yaml_stream_start_event_initialize(encoding: YamlEncodingT) -> (r: YamlEventT)
    ensures
        r@ == (EventView::StreamStart { encoding }),
        r.start_mark == zero_mark() && r.end_mark == zero_mark(),
{
    let mut data = yaml_event_data_empty();
    data.stream_start.encoding = encoding;
    yaml_event_of(YamlEventTypeT::YamlStreamStartEvent, data)
}

/// A stream-end event.
pub fn yaml_stream_end_event_initialize() -> (r: YamlEventT)
    ensures
        r@ == EventView::StreamEnd,
        r.start_mark == zero_mark() && r.end_mark == zero_mark(),
{
    yaml_event_of(YamlEventTypeT::YamlStreamEndEvent, yaml_event_data_empty())
}

/// A document-start event.
pub fn yaml_document_start_event_initialize(
    version_directive: Option<YamlVersionDirectiveT>,
    tag_directives: Vec<YamlTagDirectiveT>,
    implicit: bool,
) -> (r: YamlEventT)
    ensures
        r@ == (EventView::DocumentStart {
            version_directive,
            tag_directives: directives_view(tag_directives@),
            implicit,
        }),
        r.start_mark == zero_mark() && r.end_mark == zero_mark(),
{
    let mut data = yaml_event_data_empty();
    data.document_start = UnnamedYamlEventTdataDocumentStart {
        version_directive,
        tag_directives: UnnamedYamlEventTdataDocumentStartTagDirectives { items: tag_directives },
        implicit,
    };
    yaml_event_of(YamlEventTypeT::YamlDocumentStartEvent, data)
}

/// A document-end event.
pub fn yaml_document_end_event_initialize(implicit: bool) -> (r: YamlEventT)
    ensures
        r@ == (EventView::DocumentEnd { implicit }),
        r.start_mark == zero_mark() && r.end_mark == zero_mark(),
{
    let mut data = yaml_event_data_empty();
    data.document_end.implicit = implicit;
    yaml_event_of(YamlEventTypeT::YamlDocumentEndEvent, data)
}

/// An alias event.
pub fn yaml_alias_event_initialize(anchor: Vec<u8>) -> (r: YamlEventT)
    ensures
        r@ == (EventView::Alias { anchor: anchor@ }),
        r.start_mark == zero_mark() && r.end_mark == zero_mark(),
{
    let mut data = yaml_event_data_empty();
    data.alias.anchor = anchor;
    yaml_event_of(YamlEventTypeT::YamlAliasEvent, data)
}

/// A scalar event.
pub fn yaml_scalar_event_initialize(
    anchor: Option<Vec<u8>>,
    tag: Option<Vec<u8>>,
    value: Vec<u8>,
    plain_implicit: bool,
    quoted_implicit: bool,
    style: YamlScalarStyleT,
) -> (r: YamlEventT)
    ensures
        r@ == (EventView::Scalar {
            anchor: opt_bytes(anchor),
            tag: opt_bytes(tag),
            value: value@,
            plain_implicit,
            quoted_implicit,
            style,
        }),
        r.start_mark == zero_mark() && r.end_mark == zero_mark(),
{
    let mut data = yaml_event_data_empty();
    data.scalar = UnnamedYamlEventTdataScalar {
        anchor,
        tag,
        value,
        plain_implicit,
        quoted_implicit,
        style,
    };
    yaml_event_of(YamlEventTypeT::YamlScalarEvent, data)
}

/// A sequence-start event.
pub fn yaml_sequence_start_event_initialize(
    anchor: Option<Vec<u8>>,
    tag: Option<Vec<u8>>,
    implicit: bool,
    style: YamlSequenceStyleT,
) -> (r: YamlEventT)
    ensures
        r@ == (EventView::SequenceStart {
            anchor: opt_bytes(anchor),
            tag: opt_bytes(tag),
            implicit,
            style,
        }),
        r.start_mark == zero_mark() && r.end_mark == zero_mark(),
{
    let mut data = yaml_event_data_empty();
    data.sequence_start = UnnamedYamlEventTdataSequenceStart { anchor, tag, implicit, style };
    yaml_event_of(YamlEventTypeT::YamlSequenceStartEvent, data)
}

/// A sequence-end event.
pub fn yaml_sequence_end_event_initialize() -> (r: YamlEventT)
    ensures
        r@ == EventView::SequenceEnd,
        r.start_mark == zero_mark() && r.end_mark == zero_mark(),
{
    yaml_event_of(YamlEventTypeT::YamlSequenceEndEvent, yaml_event_data_empty())
}

/// A mapping-start event.
pub fn yaml_mapping_start_event_initialize(
    anchor: Option<Vec<u8>>,
    tag: Option<Vec<u8>>,
    implicit: bool,
    style: YamlMappingStyleT,
) -> (r: YamlEventT)
    ensures
        r@ == (EventView::MappingStart {
            anchor: opt_bytes(anchor),
            tag: opt_bytes(tag),
            implicit,
            style,
        }),
        r.start_mark == zero_mark() && r.end_mark == zero_mark(),
{
    let mut data = yaml_event_data_empty();
    data.mapping_start = UnnamedYamlEventTdataMappingStart { anchor, tag, implicit, style };
    yaml_event_of(YamlEventTypeT::YamlMappingStartEvent, data)
}

/// A mapping-end event.
pub fn yaml_mapping_end_event_initialize() -> (r: YamlEventT)
    ensures
        r@ == EventView::MappingEnd,
        r.start_mark == zero_mark() && r.end_mark == zero_mark(),
{
    yaml_event_of(YamlEventTypeT::YamlMappingEndEvent, yaml_event_data_empty())
}

/// A parser whose event source produces `events`, in order.
pub fn yaml_parser_initialize(events: Vec<YamlEventT>) -> (r: YamlParserT)
    ensures
        r.events@ == events@,
        !r.stream_start_produced,
        !r.stream_end_produced,
        r.aliases@.len() == 0,
        r.error == YamlErrorTypeT::YamlNoError,
        r.problem.is_none(),
        r.context.is_none(),
{
    let mut queue: std::collections::VecDeque<YamlEventT> = std::collections::VecDeque::new();
    let mut rest = events;
    let ghost all = rest@;
    while rest.len() > 0
        invariant
            all == queue@ + rest@,
        decreases rest@.len(),
    {
        let ghost before = rest@;
        let e = rest.remove(0);
        queue.push_back(e);
        proof {
            assert(before == seq![e] + rest@);
            assert(all =~= queue@ + rest@);
        }
    }
    proof {
        assert(queue@ =~= all);
    }
    YamlParserT {
        error: YamlErrorTypeT::YamlNoError,
        problem: None,
        problem_mark: yaml_mark_zero(),
        context: None,
        context_mark: yaml_mark_zero(),
        events: YamlBufferT { items: queue },
        stream_start_produced: false,
        stream_end_produced: false,
        aliases: YamlStackT { items: Vec::new() },
    }
}

/// An emitter with an empty event sink and an unopened stream.
pub fn yaml_emitter_initialize() -> (r: YamlEmitterT)
    ensures
        r.events@.len() == 0,
        !r.opened,
        !r.closed,
        r.anchors@.len() == 0,
        r.last_anchor_id == 0,
        r.error == YamlErrorTypeT::YamlNoError,
        r.problem.is_none(),
{
    YamlEmitterT {
        error: YamlErrorTypeT::YamlNoError,
        problem: None,
        events: Vec::new(),
        opened: false,
        closed: false,
        anchors: Vec::new(),
        last_anchor_id: 0,
    }
}

/// A document with no nodes and the given directives.
pub fn yaml_document_initialize(
    version_directive: Option<YamlVersionDirectiveT>,
    tag_directives: Vec<YamlTagDirectiveT>,
    start_implicit: bool,
    end_implicit: bool,
) -> (r: YamlDocumentT)
    ensures
        r@ == (DocumentView {
            nodes: Seq::empty(),
            version_directive,
            tag_directives: directives_view(tag_directives@),
            start_implicit,
            end_implicit,
            start_mark: zero_mark(),
            end_mark: zero_mark(),
        }),
        r@.wf(),
{
    let r = YamlDocumentT {
        nodes: YamlStackT { items: Vec::new() },
        version_directive,
        tag_directives: UnnamedYamlDocumentTTagDirectives { items: tag_directives },
        start_implicit,
        end_implicit,
        start_mark: yaml_mark_zero(),
        end_mark: yaml_mark_zero(),
    };
    proof {
        assert(r@.nodes =~= Seq::<NodeView>::empty());
    }
    r
}

/// What adding a node to a document promises: the node gets the next id
/// unless the arena is full, in which case nothing changes and 0 comes back.
pub open spec fn node_added(d: DocumentView, e: DocumentView, r: YamlNodeItemT, node: NodeView) -> bool {
    if d.nodes.len() < i32::MAX - 1 {
        &&& r == d.nodes.len() + 1
        &&& e == (DocumentView { nodes: d.nodes.push(node), ..d })
    } else {
        r == 0 && e == d
    }
}

fn yaml_document_add_node(document: &mut YamlDocumentT, node: YamlNodeT) -> (r: YamlNodeItemT)
    requires
        children(node@).len() == 0,
        !(node@.content is Empty),
    ensures
        node_added(old(document)@, final(document)@, r, node@),
        old(document)@.wf() ==> final(document)@.wf(),
{
    if document.nodes.items.len() >= (i32::MAX - 1) as usize {
        return 0;
    }
    let ghost d = document@;
    document.nodes.items.push(node);
    proof {
        assert(document@.nodes =~= d.nodes.push(node@));
        if d.wf() {
            let e = document@;
            assert forall|i: int, j: int|
                0 <= i < e.nodes.len() && 0 <= j < children(e.nodes[i]).len() implies 1
                <= #[trigger] children(e.nodes[i])[j] <= e.nodes.len() by {
                if i < d.nodes.len() {
                    assert(e.nodes[i] == d.nodes[i]);
                }
            }
        }
    }
    document.nodes.items.len() as i32
}

/// Add a scalar node; its tag defaults to the core string tag.
pub fn yaml_document_add_scalar(
    document: &mut YamlDocumentT,
    tag: Option<Vec<u8>>,
    value: Vec<u8>,
    style: YamlScalarStyleT,
) -> (r: YamlNodeItemT)
    ensures
        node_added(
            old(document)@,
            final(document)@,
            r,
            NodeView {
                tag: match opt_bytes(tag) {
                    Some(t) => t,
                    None => str_tag(),
                },
                content: NodeContent::Scalar { value: value@, style },
                start_mark: zero_mark(),
                end_mark: zero_mark(),
            },
        ),
        old(document)@.wf() ==> final(document)@.wf(),
{
    let tag = match tag {
        Some(t) => t,
        None => yaml_str_tag(),
    };
    let node = yaml_scalar_node(tag, value, style, yaml_mark_zero(), yaml_mark_zero());
    yaml_document_add_node(document, node)
}

/// Add an empty sequence node; its tag defaults to the core sequence tag.
pub fn yaml_document_add_sequence(
    document: &mut YamlDocumentT,
    tag: Option<Vec<u8>>,
    style: YamlSequenceStyleT,
) -> (r: YamlNodeItemT)
    ensures
        node_added(
            old(document)@,
            final(document)@,
            r,
            NodeView {
                tag: match opt_bytes(tag) {
                    Some(t) => t,
                    None => seq_tag(),
                },
                content: NodeContent::Sequence { items: Seq::empty(), style },
                start_mark: zero_mark(),
                end_mark: zero_mark(),
            },
        ),
        old(document)@.wf() ==> final(document)@.wf(),
{
    let tag = match tag {
        Some(t) => t,
        None => yaml_seq_tag(),
    };
    let node = yaml_sequence_node(tag, style, yaml_mark_zero(), yaml_mark_zero());
    yaml_document_add_node(document, node)
}

/// Add an empty mapping node; its tag defaults to the core mapping tag.
pub fn yaml_document_add_mapping(
    document: &mut YamlDocumentT,
    tag: Option<Vec<u8>>,
    style: YamlMappingStyleT,
) -> (r: YamlNodeItemT)
    ensures
        node_added(
            old(document)@,
            final(document)@,
            r,
            NodeView {
                tag: match opt_bytes(tag) {
                    Some(t) => t,
                    None => map_tag(),
                },
                content: NodeContent::Mapping { pairs: Seq::empty(), style },
                start_mark: zero_mark(),
                end_mark: zero_mark(),
            },
        ),
        old(document)@.wf() ==> final(document)@.wf(),
{
    let tag = match tag {
        Some(t) => t,
        None => yaml_map_tag(),
    };
    let node = yaml_mapping_node(tag, style, yaml_mark_zero(), yaml_mark_zero());
    yaml_document_add_node(document, node)
}

/// Append node `item` to the sequence node `sequence`.
pub fn yaml_document_append_sequence_item(
    document: &mut YamlDocumentT,
    sequence: YamlNodeItemT,
    item: YamlNodeItemT,
)
    requires
        old(document)@.wf(),
        1 <= sequence <= old(document)@.nodes.len(),
        old(document)@.nodes[sequence - 1].content is Sequence,
        1 <= item <= old(document)@.nodes.len(),
    ensures
        ({
            let d = old(document)@;
            let n = d.nodes[sequence - 1];
            final(document)@ == (DocumentView {
                nodes: d.nodes.update(
                    sequence - 1,
                    NodeView {
                        content: NodeContent::Sequence {
                            items: n.content->Sequence_items.push(item),
                            style: n.content->Sequence_style,
                        },
                        ..n
                    },
                ),
                ..d
            })
        }),
        final(document)@.wf(),
{
    let ghost d = document@;
    let i = (sequence - 1) as usize;
    proof {
        assert(d.nodes[i as int] == document.nodes@[i as int]@);
    }
    document.nodes.items[i].data.sequence.items.items.push(item);
    proof {
        let e = document@;
        let n = d.nodes[i as int];
        assert(e.nodes =~= d.nodes.update(
            i as int,
            NodeView {
                content: NodeContent::Sequence {
                    items: n.content->Sequence_items.push(item),
                    style: n.content->Sequence_style,
                },
                ..n
            },
        ));
        assert forall|a: int, b: int|
            0 <= a < e.nodes.len() && 0 <= b < children(e.nodes[a]).len() implies 1
            <= #[trigger] children(e.nodes[a])[b] <= e.nodes.len() by {
            if a != i {
                assert(e.nodes[a] == d.nodes[a]);
            } else if b < children(d.nodes[a]).len() {
                assert(children(e.nodes[a])[b] == children(d.nodes[a])[b]);
            }
        }
        assert forall|a: int| 0 <= a < e.nodes.len() implies !((#[trigger] e.nodes[a]).content is Empty) by {
            if a != i {
                assert(e.nodes[a] == d.nodes[a]);
            }
        }
    }
}

/// Append the pair (`key`, `value`) to the mapping node `mapping`.
pub fn yaml_document_append_mapping_pair(
    document: &mut YamlDocumentT,
    mapping: YamlNodeItemT,
    key: YamlNodeItemT,
    value: YamlNodeItemT,
)
    requires
        old(document)@.wf(),
        1 <= mapping <= old(document)@.nodes.len(),
        old(document)@.nodes[mapping - 1].content is Mapping,
        1 <= key <= old(document)@.nodes.len(),
        1 <= value <= old(document)@.nodes.len(),
    ensures
        ({
            let d = old(document)@;
            let n = d.nodes[mapping - 1];
            final(document)@ == (DocumentView {
                nodes: d.nodes.update(
                    mapping - 1,
                    NodeView {
                        content: NodeContent::Mapping {
                            pairs: n.content->Mapping_pairs.push(YamlNodePairT { key, value }),
                            style: n.content->Mapping_style,
                        },
                        ..n
                    },
                ),
                ..d
            })
        }),
        final(document)@.wf(),
{
    let ghost d = document@;
    let i = (mapping - 1) as usize;
    proof {
        assert(d.nodes[i as int] == document.nodes@[i as int]@);
    }
    document.nodes.items[i].data.mapping.pairs.items.push(YamlNodePairT { key, value });
    proof {
        let e = document@;
        let n = d.nodes[i as int];
        let pairs = n.content->Mapping_pairs;
        assert(e.nodes =~= d.nodes.update(
            i as int,
            NodeView {
                content: NodeContent::Mapping {
                    pairs: pairs.push(YamlNodePairT { key, value }),
                    style: n.content->Mapping_style,
                },
                ..n
            },
        ));
        assert(pairs.push(YamlNodePairT { key, value }).drop_last() =~= pairs);
        assert(children(e.nodes[i as int]) == children(d.nodes[i as int]).push(key).push(value));
        assert forall|a: int, b: int|
            0 <= a < e.nodes.len() && 0 <= b < children(e.nodes[a]).len() implies 1
            <= #[trigger] children(e.nodes[a])[b] <= e.nodes.len() by {
            if a != i {
                assert(e.nodes[a] == d.nodes[a]);
            } else if b < children(d.nodes[a]).len() {
                assert(children(e.nodes[a])[b] == children(d.nodes[a])[b]);
            }
        }
        assert forall|a: int| 0 <= a < e.nodes.len() implies !((#[trigger] e.nodes[a]).content is Empty) by {
            if a != i {
                assert(e.nodes[a] == d.nodes[a]);
            }
        }
    }
}

/// The node with id `index`, if there is one.
pub fn yaml_document_get_node(document: &YamlDocumentT, index: YamlNodeItemT) -> (r: Option<&YamlNodeT>)
    ensures
        1 <= index <= document.nodes@.len() ==> r == Some(&document.nodes@[index - 1]),
        !(1 <= index <= document.nodes@.len()) ==> r.is_none(),
{
    if index >= 1 && index as usize <= document.nodes.items.len() {
        Some(&document.nodes.items[(index - 1) as usize])
    } else {
        None
    }
}

/// The root node, the first one of the arena, if there is one.
pub fn yaml_document_get_root_node(document: &YamlDocumentT) -> (r: Option<&YamlNodeT>)
    ensures
        document.nodes@.len() > 0 ==> r == Some(&document.nodes@[0]),
        document.nodes@.len() == 0 ==> r.is_none(),
{
    if document.nodes.items.len() > 0 {
        Some(&document.nodes.items[0])
    } else {
        None
    }
}

} // verus!
