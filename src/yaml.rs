//! The data model: marks, events, nodes, documents, and the parser and
//! emitter state.
use vstd::prelude::*;

verus! {

/// A node identifier: the 1-based position of a node in its document's
/// arena; 0 stands for "no node".
pub type YamlNodeItemT = i32;

/// The version directive data.
#[derive(Copy, Clone, Debug, PartialEq, Eq, Structural)]
pub struct YamlVersionDirectiveT {
    /// The major version number.
    pub major: i32,
    /// The minor version number.
    pub minor: i32,
}

/// The tag directive data.
#[derive(Clone, Debug, PartialEq, Eq)]
pub struct YamlTagDirectiveT {
    /// The tag handle.
    pub handle: Vec<u8>,
    /// The tag prefix.
    pub prefix: Vec<u8>,
}

impl View for YamlTagDirectiveT {
    type V = (Seq<u8>, Seq<u8>);

    open spec fn view(&self) -> (Seq<u8>, Seq<u8>) {
        (self.handle@, self.prefix@)
    }
}

/// The stream encoding.
#[derive(Copy, Clone, Debug, PartialEq, Eq, Structural)]
pub enum YamlEncodingT {
    /// Let the parser choose the encoding.
    YamlAnyEncoding,
    /// The default UTF-8 encoding.
    YamlUtf8Encoding,
    /// The UTF-16-LE encoding with BOM.
    YamlUtf16leEncoding,
    /// The UTF-16-BE encoding with BOM.
    YamlUtf16beEncoding,
}

/// The kinds of error that a parser or an emitter can report.
#[derive(Copy, Clone, Debug, PartialEq, Eq, Structural)]
pub enum YamlErrorTypeT {
    /// No error is produced.
    YamlNoError,
    /// Cannot allocate or reallocate a block of memory.
    YamlMemoryError,
    /// Cannot read or decode the input stream.
    YamlReaderError,
    /// Cannot scan the input stream.
    YamlScannerError,
    /// Cannot parse the input stream.
    YamlParserError,
    /// Cannot compose a YAML document.
    YamlComposerError,
    /// Cannot write to the output stream.
    YamlWriterError,
    /// Cannot emit a YAML stream.
    YamlEmitterError,
}

/// A position in the source text.
#[derive(Copy, Clone, Debug, PartialEq, Eq, Structural)]
pub struct YamlMarkT {
    /// The position index.
    pub index: u64,
    /// The position line.
    pub line: u64,
    /// The position column.
    pub column: u64,
}

/// The mark that events synthesized by the decomposer carry.
pub open spec fn zero_mark() -> YamlMarkT {
    YamlMarkT { index: 0, line: 0, column: 0 }
}

/// Scalar styles.
#[derive(Copy, Clone, Debug, PartialEq, Eq, Structural)]
pub enum YamlScalarStyleT {
    /// Let the emitter choose the style.
    YamlAnyScalarStyle,
    /// The plain scalar style.
    YamlPlainScalarStyle,
    /// The single-quoted scalar style.
    YamlSingleQuotedScalarStyle,
    /// The double-quoted scalar style.
    YamlDoubleQuotedScalarStyle,
    /// The literal scalar style.
    YamlLiteralScalarStyle,
    /// The folded scalar style.
    YamlFoldedScalarStyle,
}

/// Sequence styles.
#[derive(Copy, Clone, Debug, PartialEq, Eq, Structural)]
pub enum YamlSequenceStyleT {
    /// Let the emitter choose the style.
    YamlAnySequenceStyle,
    /// The block sequence style.
    YamlBlockSequenceStyle,
    /// The flow sequence style.
    YamlFlowSequenceStyle,
}

/// Mapping styles.
#[derive(Copy, Clone, Debug, PartialEq, Eq, Structural)]
pub enum YamlMappingStyleT {
    /// Let the emitter choose the style.
    YamlAnyMappingStyle,
    /// The block mapping style.
    YamlBlockMappingStyle,
    /// The flow mapping style.
    YamlFlowMappingStyle,
}

/// Event types.
#[derive(Copy, Clone, Debug, PartialEq, Eq, Structural)]
pub enum YamlEventTypeT {
    /// An empty event.
    YamlNoEvent,
    /// A stream-start event.
    YamlStreamStartEvent,
    /// A stream-end event.
    YamlStreamEndEvent,
    /// A document-start event.
    YamlDocumentStartEvent,
    /// A document-end event.
    YamlDocumentEndEvent,
    /// An alias event.
    YamlAliasEvent,
    /// A scalar event.
    YamlScalarEvent,
    /// A sequence-start event.
    YamlSequenceStartEvent,
    /// A sequence-end event.
    YamlSequenceEndEvent,
    /// A mapping-start event.
    YamlMappingStartEvent,
    /// A mapping-end event.
    YamlMappingEndEvent,
}

/// An event of the stream. `type_` says which member of `data` is in use;
/// the other members hold empty values.
#[derive(Clone, Debug, PartialEq, Eq)]
pub struct YamlEventT {
    /// The event type.
    pub type_: YamlEventTypeT,
    /// The event data.
    pub data: UnnamedYamlEventTData,
    /// The beginning of the event.
    pub start_mark: YamlMarkT,
    /// The end of the event.
    pub end_mark: YamlMarkT,
}

/// The per-type data of an event.
#[derive(Clone, Debug, PartialEq, Eq)]
pub struct UnnamedYamlEventTData {
    /// The stream parameters (for stream-start events).
    pub stream_start: UnnamedYamlEventTdataStreamStart,
    /// The document parameters (for document-start events).
    pub document_start: UnnamedYamlEventTdataDocumentStart,
    /// The document end parameters (for document-end events).
    pub document_end: UnnamedYamlEventTdataDocumentEnd,
    /// The alias parameters (for alias events).
    pub alias: UnnamedYamlEventTdataAlias,
    /// The scalar parameters (for scalar events).
    pub scalar: UnnamedYamlEventTdataScalar,
    /// The sequence parameters (for sequence-start events).
    pub sequence_start: UnnamedYamlEventTdataSequenceStart,
    /// The mapping parameters (for mapping-start events).
    pub mapping_start: UnnamedYamlEventTdataMappingStart,
}

/// Stream-start data.
#[derive(Copy, Clone, Debug, PartialEq, Eq, Structural)]
pub struct UnnamedYamlEventTdataStreamStart {
    /// The document encoding.
    pub encoding: YamlEncodingT,
}

/// Document-start data.
#[derive(Clone, Debug, PartialEq, Eq)]
pub struct UnnamedYamlEventTdataDocumentStart {
    /// The version directive.
    pub version_directive: Option<YamlVersionDirectiveT>,
    /// The list of tag directives.
    pub tag_directives: UnnamedYamlEventTdataDocumentStartTagDirectives,
    /// Is the document indicator implicit?
    pub implicit: bool,
}

/// The tag directives of a document-start event, in order.
#[derive(Clone, Debug, PartialEq, Eq)]
pub struct UnnamedYamlEventTdataDocumentStartTagDirectives {
    /// The directives.
    pub items: Vec<YamlTagDirectiveT>,
}

/// Document-end data.
#[derive(Copy, Clone, Debug, PartialEq, Eq, Structural)]
pub struct UnnamedYamlEventTdataDocumentEnd {
    /// Is the document end indicator implicit?
    pub implicit: bool,
}

/// Alias data.
#[derive(Clone, Debug, PartialEq, Eq)]
pub struct UnnamedYamlEventTdataAlias {
    /// The anchor.
    pub anchor: Vec<u8>,
}

/// Scalar data.
#[derive(Clone, Debug, PartialEq, Eq)]
pub struct UnnamedYamlEventTdataScalar {
    /// The anchor.
    pub anchor: Option<Vec<u8>>,
    /// The tag.
    pub tag: Option<Vec<u8>>,
    /// The scalar value.
    pub value: Vec<u8>,
    /// Is the tag optional for the plain style?
    pub plain_implicit: bool,
    /// Is the tag optional for any non-plain style?
    pub quoted_implicit: bool,
    /// The scalar style.
    pub style: YamlScalarStyleT,
}

/// Sequence-start data.
#[derive(Clone, Debug, PartialEq, Eq)]
pub struct UnnamedYamlEventTdataSequenceStart {
    /// The anchor.
    pub anchor: Option<Vec<u8>>,
    /// The tag.
    pub tag: Option<Vec<u8>>,
    /// Is the tag optional?
    pub implicit: bool,
    /// The sequence style.
    pub style: YamlSequenceStyleT,
}

/// Mapping-start data.
#[derive(Clone, Debug, PartialEq, Eq)]
pub struct UnnamedYamlEventTdataMappingStart {
    /// The anchor.
    pub anchor: Option<Vec<u8>>,
    /// The tag.
    pub tag: Option<Vec<u8>>,
    /// Is the tag optional?
    pub implicit: bool,
    /// The mapping style.
    pub style: YamlMappingStyleT,
}

/// The bytes of an optional byte string.
pub open spec fn opt_bytes(o: Option<Vec<u8>>) -> Option<Seq<u8>> {
    match o {
        Some(v) => Some(v@),
        None => None,
    }
}

/// The tag directives of a list, as pairs of byte strings.
pub open spec fn directives_view(v: Seq<YamlTagDirectiveT>) -> Seq<(Seq<u8>, Seq<u8>)> {
    v.map_values(|t: YamlTagDirectiveT| t@)
}

/// What an event says, apart from its marks.
pub ghost enum EventView {
    NoEvent,
    StreamStart { encoding: YamlEncodingT },
    StreamEnd,
    DocumentStart {
        version_directive: Option<YamlVersionDirectiveT>,
        tag_directives: Seq<(Seq<u8>, Seq<u8>)>,
        implicit: bool,
    },
    DocumentEnd { implicit: bool },
    Alias { anchor: Seq<u8> },
    Scalar {
        anchor: Option<Seq<u8>>,
        tag: Option<Seq<u8>>,
        value: Seq<u8>,
        plain_implicit: bool,
        quoted_implicit: bool,
        style: YamlScalarStyleT,
    },
    SequenceStart {
        anchor: Option<Seq<u8>>,
        tag: Option<Seq<u8>>,
        implicit: bool,
        style: YamlSequenceStyleT,
    },
    SequenceEnd,
    MappingStart {
        anchor: Option<Seq<u8>>,
        tag: Option<Seq<u8>>,
        implicit: bool,
        style: YamlMappingStyleT,
    },
    MappingEnd,
}

impl View for YamlEventT {
    type V = EventView;

    open spec fn view(&self) -> EventView {
        let d = self.data;
        match self.type_ {
            YamlEventTypeT::YamlNoEvent => EventView::NoEvent,
            YamlEventTypeT::YamlStreamStartEvent => EventView::StreamStart {
                encoding: d.stream_start.encoding,
            },
            YamlEventTypeT::YamlStreamEndEvent => EventView::StreamEnd,
            YamlEventTypeT::YamlDocumentStartEvent => EventView::DocumentStart {
                version_directive: d.document_start.version_directive,
                tag_directives: directives_view(d.document_start.tag_directives.items@),
                implicit: d.document_start.implicit,
            },
            YamlEventTypeT::YamlDocumentEndEvent => EventView::DocumentEnd {
                implicit: d.document_end.implicit,
            },
            YamlEventTypeT::YamlAliasEvent => EventView::Alias { anchor: d.alias.anchor@ },
            YamlEventTypeT::YamlScalarEvent => EventView::Scalar {
                anchor: opt_bytes(d.scalar.anchor),
                tag: opt_bytes(d.scalar.tag),
                value: d.scalar.value@,
                plain_implicit: d.scalar.plain_implicit,
                quoted_implicit: d.scalar.quoted_implicit,
                style: d.scalar.style,
            },
            YamlEventTypeT::YamlSequenceStartEvent => EventView::SequenceStart {
                anchor: opt_bytes(d.sequence_start.anchor),
                tag: opt_bytes(d.sequence_start.tag),
                implicit: d.sequence_start.implicit,
                style: d.sequence_start.style,
            },
            YamlEventTypeT::YamlSequenceEndEvent => EventView::SequenceEnd,
            YamlEventTypeT::YamlMappingStartEvent => EventView::MappingStart {
                anchor: opt_bytes(d.mapping_start.anchor),
                tag: opt_bytes(d.mapping_start.tag),
                implicit: d.mapping_start.implicit,
                style: d.mapping_start.style,
            },
            YamlEventTypeT::YamlMappingEndEvent => EventView::MappingEnd,
        }
    }
}

/// Node types.
#[derive(Copy, Clone, Debug, PartialEq, Eq, Structural)]
pub enum YamlNodeTypeT {
    /// An empty node.
    YamlNoNode,
    /// A scalar node.
    YamlScalarNode,
    /// A sequence node.
    YamlSequenceNode,
    /// A mapping node.
    YamlMappingNode,
}

/// A node of a document. `type_` says which member of `data` is in use;
/// the other members hold empty values.
#[derive(Clone, Debug, PartialEq, Eq)]
pub struct YamlNodeT {
    /// The node type.
    pub type_: YamlNodeTypeT,
    /// The node tag.
    pub tag: Vec<u8>,
    /// The node data.
    pub data: UnnamedYamlNodeTData,
    /// The beginning of the node.
    pub start_mark: YamlMarkT,
    /// The end of the node.
    pub end_mark: YamlMarkT,
}

/// The per-type data of a node.
#[derive(Clone, Debug, PartialEq, Eq)]
pub struct UnnamedYamlNodeTData {
    /// The scalar parameters (for scalar nodes).
    pub scalar: UnnamedYamlNodeTDataScalar,
    /// The sequence parameters (for sequence nodes).
    pub sequence: UnnamedYamlNodeTDataSequence,
    /// The mapping parameters (for mapping nodes).
    pub mapping: UnnamedYamlNodeTDataMapping,
}

/// Scalar node data.
#[derive(Clone, Debug, PartialEq, Eq)]
pub struct UnnamedYamlNodeTDataScalar {
    /// The scalar value.
    pub value: Vec<u8>,
    /// The scalar style.
    pub style: YamlScalarStyleT,
}

/// Sequence node data.
#[derive(Clone, Debug, PartialEq, Eq)]
pub struct UnnamedYamlNodeTDataSequence {
    /// The stack of sequence items.
    pub items: YamlStackT<YamlNodeItemT>,
    /// The sequence style.
    pub style: YamlSequenceStyleT,
}

/// Mapping node data.
#[derive(Clone, Debug, PartialEq, Eq)]
pub struct UnnamedYamlNodeTDataMapping {
    /// The stack of mapping pairs (key, value).
    pub pairs: YamlStackT<YamlNodePairT>,
    /// The mapping style.
    pub style: YamlMappingStyleT,
}

/// An element of a mapping node.
#[derive(Copy, Clone, Debug, PartialEq, Eq, Structural)]
pub struct YamlNodePairT {
    /// The key of the element.
    pub key: YamlNodeItemT,
    /// The value of the element.
    pub value: YamlNodeItemT,
}

/// What a node holds, by type.
pub ghost enum NodeContent {
    Empty,
    Scalar { value: Seq<u8>, style: YamlScalarStyleT },
    Sequence { items: Seq<YamlNodeItemT>, style: YamlSequenceStyleT },
    Mapping { pairs: Seq<YamlNodePairT>, style: YamlMappingStyleT },
}

/// A node as a mathematical value.
pub ghost struct NodeView {
    pub tag: Seq<u8>,
    pub content: NodeContent,
    pub start_mark: YamlMarkT,
    pub end_mark: YamlMarkT,
}

impl View for YamlNodeT {
    type V = NodeView;

    open spec fn view(&self) -> NodeView {
        NodeView {
            tag: self.tag@,
            content: match self.type_ {
                YamlNodeTypeT::YamlNoNode => NodeContent::Empty,
                YamlNodeTypeT::YamlScalarNode => NodeContent::Scalar {
                    value: self.data.scalar.value@,
                    style: self.data.scalar.style,
                },
                YamlNodeTypeT::YamlSequenceNode => NodeContent::Sequence {
                    items: self.data.sequence.items@,
                    style: self.data.sequence.style,
                },
                YamlNodeTypeT::YamlMappingNode => NodeContent::Mapping {
                    pairs: self.data.mapping.pairs@,
                    style: self.data.mapping.style,
                },
            },
            start_mark: self.start_mark,
            end_mark: self.end_mark,
        }
    }
}

/// The document structure.
#[derive(Clone, Debug, PartialEq, Eq)]
pub struct YamlDocumentT {
    /// The document nodes: node `i` has the identifier `i + 1`.
    pub nodes: YamlStackT<YamlNodeT>,
    /// The version directive.
    pub version_directive: Option<YamlVersionDirectiveT>,
    /// The list of tag directives.
    pub tag_directives: UnnamedYamlDocumentTTagDirectives,
    /// Is the document start indicator implicit?
    pub start_implicit: bool,
    /// Is the document end indicator implicit?
    pub end_implicit: bool,
    /// The beginning of the document.
    pub start_mark: YamlMarkT,
    /// The end of the document.
    pub end_mark: YamlMarkT,
}

/// The tag directives of a document, in order.
#[derive(Clone, Debug, PartialEq, Eq)]
pub struct UnnamedYamlDocumentTTagDirectives {
    /// The directives.
    pub items: Vec<YamlTagDirectiveT>,
}

/// A document as a mathematical value.
pub ghost struct DocumentView {
    pub nodes: Seq<NodeView>,
    pub version_directive: Option<YamlVersionDirectiveT>,
    pub tag_directives: Seq<(Seq<u8>, Seq<u8>)>,
    pub start_implicit: bool,
    pub end_implicit: bool,
    pub start_mark: YamlMarkT,
    pub end_mark: YamlMarkT,
}

impl View for YamlDocumentT {
    type V = DocumentView;

    open spec fn view(&self) -> DocumentView {
        DocumentView {
            nodes: self.nodes@.map_values(|n: YamlNodeT| n@),
            version_directive: self.version_directive,
            tag_directives: directives_view(self.tag_directives.items@),
            start_implicit: self.start_implicit,
            end_implicit: self.end_implicit,
            start_mark: self.start_mark,
            end_mark: self.end_mark,
        }
    }
}

/// The document with no nodes, no directives and zero marks.
pub open spec fn empty_document() -> DocumentView {
    DocumentView {
        nodes: Seq::empty(),
        version_directive: None,
        tag_directives: Seq::empty(),
        start_implicit: false,
        end_implicit: false,
        start_mark: zero_mark(),
        end_mark: zero_mark(),
    }
}

/// The children of a node, in document order: the items of a sequence, the
/// keys and values of a mapping in turn.
pub open spec fn pair_children(pairs: Seq<YamlNodePairT>) -> Seq<YamlNodeItemT>
    decreases pairs.len(),
{
    if pairs.len() == 0 {
        Seq::empty()
    } else {
        pair_children(pairs.drop_last()).push(pairs.last().key).push(pairs.last().value)
    }
}

/// The children of a node.
pub open spec fn children(n: NodeView) -> Seq<YamlNodeItemT> {
    match n.content {
        NodeContent::Sequence { items, .. } => items,
        NodeContent::Mapping { pairs, .. } => pair_children(pairs),
        _ => Seq::empty(),
    }
}

impl DocumentView {
    /// Every node is a scalar, sequence or mapping, every child refers to a
    /// node of the document, and identifiers fit a node item.
    pub open spec fn wf(self) -> bool {
        &&& self.nodes.len() < i32::MAX
        &&& forall|i: int|
            0 <= i < self.nodes.len() ==> !((#[trigger] self.nodes[i]).content is Empty)
        &&& forall|i: int, j: int|
            0 <= i < self.nodes.len() && 0 <= j < children(self.nodes[i]).len() ==> 1
                <= #[trigger] children(self.nodes[i])[j] <= self.nodes.len()
    }
}

/// A growable stack, indexed from its bottom.
#[derive(Clone, Debug, PartialEq, Eq)]
pub struct YamlStackT<T> {
    /// The elements, bottom first.
    pub items: Vec<T>,
}

impl<T> View for YamlStackT<T> {
    type V = Seq<T>;

    open spec fn view(&self) -> Seq<T> {
        self.items@
    }
}

/// A registered anchor: its name, the node it labels and where it was
/// defined.
#[derive(Clone, Debug, PartialEq, Eq)]
pub struct YamlAliasDataT {
    /// The anchor.
    pub anchor: Vec<u8>,
    /// The node id.
    pub index: YamlNodeItemT,
    /// The anchor mark.
    pub mark: YamlMarkT,
}

/// A queue of items read from its front.
#[derive(Clone, Debug)]
pub struct YamlBufferT<T> {
    /// The items not read yet, the next one first.
    pub items: std::collections::VecDeque<T>,
}

impl<T> View for YamlBufferT<T> {
    type V = Seq<T>;

    open spec fn view(&self) -> Seq<T> {
        self.items@
    }
}

impl<T> YamlBufferT<T> {
    /// Is there nothing left to read?
    pub fn is_empty(&self) -> (r: bool)
        ensures
            r == (self@.len() == 0),
    {
        self.items.len() == 0
    }

    /// Takes the next item, if any.
    pub fn next(&mut self) -> (r: Option<T>)
        ensures
            old(self)@.len() == 0 ==> r.is_none() && final(self)@ == old(self)@,
            old(self)@.len() > 0 ==> r == Some(old(self)@[0]) && final(self)@ == old(
                self,
            )@.drop_first(),
    {
        let r = self.items.pop_front();
        proof {
            if old(self)@.len() > 0 {
                assert(final(self)@ =~= old(self)@.drop_first());
            }
        }
        r
    }
}

/// The prefix that the core schema's tags share: `tag:yaml.org,2002:`.
pub open spec fn core_tag_prefix() -> Seq<u8> {
    seq![116u8, 97u8, 103u8, 58u8, 121u8, 97u8, 109u8, 108u8, 46u8, 111u8, 114u8, 103u8, 44u8, 50u8, 48u8, 48u8, 50u8, 58u8]
}

/// `tag:yaml.org,2002:str`, the default tag of a scalar.
pub open spec fn str_tag() -> Seq<u8> {
    core_tag_prefix() + seq![115u8, 116u8, 114u8]
}

/// `tag:yaml.org,2002:seq`, the default tag of a sequence.
pub open spec fn seq_tag() -> Seq<u8> {
    core_tag_prefix() + seq![115u8, 101u8, 113u8]
}

/// `tag:yaml.org,2002:map`, the default tag of a mapping.
pub open spec fn map_tag() -> Seq<u8> {
    core_tag_prefix() + seq![109u8, 97u8, 112u8]
}

/// `!`, the non-specific tag.
pub open spec fn bang_tag() -> Seq<u8> {
    seq![33u8]
}

fn core_tag(suffix: [u8; 3]) -> (r: Vec<u8>)
    ensures
        r@ == core_tag_prefix() + suffix@,
{
    let mut r: Vec<u8> = vec![116u8, 97u8, 103u8, 58u8, 121u8, 97u8, 109u8, 108u8, 46u8, 111u8, 114u8, 103u8, 44u8, 50u8, 48u8, 48u8, 50u8, 58u8];
    r.push(suffix[0]);
    r.push(suffix[1]);
    r.push(suffix[2]);
    proof {
        assert(r@ =~= core_tag_prefix() + suffix@);
    }
    r
}

/// A fresh copy of the default scalar tag.
pub fn yaml_str_tag() -> (r: Vec<u8>)
    ensures
        r@ == str_tag(),
{
    let r = core_tag([115u8, 116u8, 114u8]);
    proof { assert(r@ =~= str_tag()); }
    r
}

/// A fresh copy of the default sequence tag.
pub fn yaml_seq_tag() -> (r: Vec<u8>)
    ensures
        r@ == seq_tag(),
{
    let r = core_tag([115u8, 101u8, 113u8]);
    proof { assert(r@ =~= seq_tag()); }
    r
}

/// A fresh copy of the default mapping tag.
pub fn yaml_map_tag() -> (r: Vec<u8>)
    ensures
        r@ == map_tag(),
{
    let r = core_tag([109u8, 97u8, 112u8]);
    proof { assert(r@ =~= map_tag()); }
    r
}

/// Byte-wise equality of two byte strings.
pub fn bytes_equal(a: &Vec<u8>, b: &Vec<u8>) -> (r: bool)
    ensures
        r == (a@ == b@),
{
    if a.len() != b.len() {
        return false;
    }
    let mut i: usize = 0;
    while i < a.len()
        invariant
            a.len() == b.len(),
            i <= a.len(),
            forall|j: int| 0 <= j < i ==> a@[j] == b@[j],
        decreases a.len() - i,
    {
        if a[i] != b[i] {
            return false;
        }
        i = i + 1;
    }
    proof {
        assert(a@ =~= b@);
    }
    true
}

/// A fresh copy of a byte string.
pub fn copy_bytes(a: &Vec<u8>) -> (r: Vec<u8>)
    ensures
        r@ == a@,
{
    let r = a.clone();
    proof {
        assert(r@ =~= a@);
    }
    r
}

/// The event source that the composer reads, and the state of composition.
#[derive(Clone, Debug)]
pub struct YamlParserT {
    /// The kind of the last error, if any.
    pub error: YamlErrorTypeT,
    /// What went wrong.
    pub problem: Option<&'static str>,
    /// Where it went wrong.
    pub problem_mark: YamlMarkT,
    /// The context of the error.
    pub context: Option<&'static str>,
    /// Where the context starts.
    pub context_mark: YamlMarkT,
    /// The events not produced yet, the next one first.
    pub events: YamlBufferT<YamlEventT>,
    /// Has the stream-start event been produced?
    pub stream_start_produced: bool,
    /// Has the stream-end event been produced?
    pub stream_end_produced: bool,
    /// The anchors of the document being composed.
    pub aliases: YamlStackT<YamlAliasDataT>,
}

/// The per-node bookkeeping of the decomposer.
#[derive(Copy, Clone, Debug, PartialEq, Eq, Structural)]
pub struct YamlAnchorsT {
    /// How often the node was reached by the marking pass, counting
    /// stops at two.
    pub references: u8,
    /// The anchor id of the node, or 0 when it has none.
    pub anchor: i32,
    /// Has the node been emitted?
    pub serialized: bool,
}

/// The event sink that the decomposer writes to.
#[derive(Clone, Debug)]
pub struct YamlEmitterT {
    /// The kind of the last error, if any.
    pub error: YamlErrorTypeT,
    /// What went wrong.
    pub problem: Option<&'static str>,
    /// The events emitted so far.
    pub events: Vec<YamlEventT>,
    /// Has the stream been opened?
    pub opened: bool,
    /// Has the stream been closed?
    pub closed: bool,
    /// The bookkeeping of the document being decomposed.
    pub anchors: Vec<YamlAnchorsT>,
    /// The last anchor id handed out.
    pub last_anchor_id: i32,
}

} // verus!
