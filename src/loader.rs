//! The composer: a stream of events to documents, resolving anchors and
//! aliases.
use vstd::prelude::*;

use crate::composed::{lemma_compose_run_wf, lemma_finished_document_wf, state_wf};
use crate::api::{yaml_document_delete, yaml_mapping_node, yaml_scalar_node, yaml_sequence_node};
use crate::success::Success;
use crate::yaml::{directives_view, empty_document, DocumentView, opt_bytes, yaml_map_tag, yaml_seq_tag, yaml_str_tag, UnnamedYamlEventTdataMappingStart, UnnamedYamlEventTdataScalar, UnnamedYamlEventTdataSequenceStart, YamlEventTypeT, YamlDocumentT, YamlNodeTypeT, bang_tag, bytes_equal, map_tag, seq_tag, str_tag, EventView, NodeContent, NodeView, YamlAliasDataT, YamlErrorTypeT, YamlEventT, YamlMarkT, YamlNodeItemT, YamlNodePairT, YamlNodeT, YamlParserT, YamlStackT};

verus! {

/// A registered anchor as a mathematical value.
pub ghost struct AnchorView {
    pub name: Seq<u8>,
    pub index: YamlNodeItemT,
    pub mark: YamlMarkT,
}

impl View for YamlAliasDataT {
    type V = AnchorView;

    open spec fn view(&self) -> AnchorView {
        AnchorView { name: self.anchor@, index: self.index, mark: self.mark }
    }
}

/// What the composer holds between two events of a document: the nodes so
/// far, the stack of collections still open, and the anchors defined.
pub ghost struct ComposeState {
    pub nodes: Seq<NodeView>,
    pub parents: Seq<YamlNodeItemT>,
    pub anchors: Seq<AnchorView>,
}

/// The ways in which composition fails.
pub ghost enum ComposeError {
    /// A node count or a list outgrew what a node identifier can address.
    Memory,
    /// An anchor name was defined twice in one document.
    DuplicateAnchor { first: YamlMarkT, second: YamlMarkT },
    /// An alias named no anchor defined before it in the document.
    UndefinedAlias { mark: YamlMarkT },
    /// The event source ran out before the document was complete.
    EndOfEvents,
}

/// The effect of one event on the composer. `Violation` is an event that
/// the grammar of event streams rules out at that point.
pub ghost enum Step {
    Continue(ComposeState),
    Finished(ComposeState),
    Failed(ComposeError),
    Violation,
}

/// The state at the start of a document.
pub open spec fn initial_state() -> ComposeState {
    ComposeState { nodes: Seq::empty(), parents: Seq::empty(), anchors: Seq::empty() }
}

/// The state that the arena, the stack of open collections and the anchor
/// registry stand for.
pub open spec fn compose_state(
    nodes: Seq<YamlNodeT>,
    parents: Seq<YamlNodeItemT>,
    aliases: Seq<YamlAliasDataT>,
) -> ComposeState {
    ComposeState {
        nodes: nodes.map_values(|n: YamlNodeT| n@),
        parents,
        anchors: aliases.map_values(|a: YamlAliasDataT| a@),
    }
}

/// The position of the first anchor named `name` at or after `i`, or -1.
pub open spec fn anchor_from(anchors: Seq<AnchorView>, name: Seq<u8>, i: int) -> int
    decreases anchors.len() - i,
{
    if i < 0 || i >= anchors.len() {
        -1
    } else if anchors[i].name == name {
        i
    } else {
        anchor_from(anchors, name, i + 1)
    }
}

/// The tag a new node gets: the default one when the event has none or the
/// non-specific `!`.
pub open spec fn resolve_tag(tag: Option<Seq<u8>>, default: Seq<u8>) -> Seq<u8> {
    match tag {
        Some(t) => if t == bang_tag() {
            default
        } else {
            t
        },
        None => default,
    }
}

/// Does the last pair of a mapping have a key and still wait for its value?
pub open spec fn pending_key(pairs: Seq<YamlNodePairT>) -> bool {
    pairs.len() > 0 && pairs.last().key != 0 && pairs.last().value == 0
}

/// The node with new content.
pub open spec fn with_content(n: NodeView, c: NodeContent) -> NodeView {
    NodeView { tag: n.tag, content: c, start_mark: n.start_mark, end_mark: n.end_mark }
}

/// Attach node `index` to the innermost open collection: as the next item
/// of a sequence; in a mapping, as the value of a pair that waits for one,
/// else as the key of a new pair.
pub open spec fn attach(st: ComposeState, index: YamlNodeItemT) -> Step {
    if st.parents.len() == 0 {
        Step::Continue(st)
    } else {
        let p = st.parents.last();
        if p < 1 || p > st.nodes.len() {
            Step::Violation
        } else {
            let n = st.nodes[p - 1];
            match n.content {
                NodeContent::Sequence { items, style } => if items.len() >= i32::MAX - 1 {
                    Step::Failed(ComposeError::Memory)
                } else {
                    Step::Continue(
                        ComposeState {
                            nodes: st.nodes.update(
                                p - 1,
                                with_content(
                                    n,
                                    NodeContent::Sequence { items: items.push(index), style },
                                ),
                            ),
                            parents: st.parents,
                            anchors: st.anchors,
                        },
                    )
                },
                NodeContent::Mapping { pairs, style } => if pending_key(pairs) {
                    Step::Continue(
                        ComposeState {
                            nodes: st.nodes.update(
                                p - 1,
                                with_content(
                                    n,
                                    NodeContent::Mapping {
                                        pairs: pairs.update(
                                            pairs.len() - 1,
                                            YamlNodePairT { key: pairs.last().key, value: index },
                                        ),
                                        style,
                                    },
                                ),
                            ),
                            parents: st.parents,
                            anchors: st.anchors,
                        },
                    )
                } else if pairs.len() >= i32::MAX - 1 {
                    Step::Failed(ComposeError::Memory)
                } else {
                    Step::Continue(
                        ComposeState {
                            nodes: st.nodes.update(
                                p - 1,
                                with_content(
                                    n,
                                    NodeContent::Mapping {
                                        pairs: pairs.push(YamlNodePairT { key: index, value: 0 }),
                                        style,
                                    },
                                ),
                            ),
                            parents: st.parents,
                            anchors: st.anchors,
                        },
                    )
                },
                _ => Step::Violation,
            }
        }
    }
}

/// Add a new node: append it to the arena, register its anchor, attach it,
/// and, for a collection, make it the innermost open one.
pub open spec fn add_node(
    st: ComposeState,
    node: NodeView,
    anchor: Option<Seq<u8>>,
    opens: bool,
) -> Step {
    if st.nodes.len() >= i32::MAX - 1 {
        Step::Failed(ComposeError::Memory)
    } else {
        let index = (st.nodes.len() + 1) as i32;
        let dup = match anchor {
            Some(a) => anchor_from(st.anchors, a, 0),
            None => -1,
        };
        if dup >= 0 {
            Step::Failed(
                ComposeError::DuplicateAnchor { first: st.anchors[dup].mark, second: node.start_mark },
            )
        } else {
            let anchors = match anchor {
                Some(a) => st.anchors.push(AnchorView { name: a, index, mark: node.start_mark }),
                None => st.anchors,
            };
            let added = ComposeState { nodes: st.nodes.push(node), parents: st.parents, anchors };
            match attach(added, index) {
                Step::Continue(s) => if !opens {
                    Step::Continue(s)
                } else if s.parents.len() >= i32::MAX - 1 {
                    Step::Failed(ComposeError::Memory)
                } else {
                    Step::Continue(
                        ComposeState {
                            nodes: s.nodes,
                            parents: s.parents.push(index),
                            anchors: s.anchors,
                        },
                    )
                },
                other => other,
            }
        }
    }
}

/// Close the innermost open collection, which must be a sequence (or a
/// mapping with no key waiting for a value), and set its end mark.
///
/// The grammar of event streams gives every key of a mapping its value
/// before the mapping ends, and ends a collection with the end event of its
/// own kind; a stream that breaks either rule is a `Violation`, which
/// `yaml_parser_load` excludes by its precondition.
pub open spec fn close(st: ComposeState, mark: YamlMarkT, mapping: bool) -> Step {
    if st.parents.len() == 0 {
        Step::Violation
    } else {
        let p = st.parents.last();
        if p < 1 || p > st.nodes.len() {
            Step::Violation
        } else {
            let n = st.nodes[p - 1];
            let fits = match n.content {
                NodeContent::Sequence { .. } => !mapping,
                NodeContent::Mapping { pairs, .. } => mapping && !pending_key(pairs),
                _ => false,
            };
            if fits {
                Step::Continue(
                    ComposeState {
                        nodes: st.nodes.update(
                            p - 1,
                            NodeView {
                                tag: n.tag,
                                content: n.content,
                                start_mark: n.start_mark,
                                end_mark: mark,
                            },
                        ),
                        parents: st.parents.drop_last(),
                        anchors: st.anchors,
                    },
                )
            } else {
                Step::Violation
            }
        }
    }
}

/// The effect of one event of a document's body.
///
/// A document-end event finishes the document. The grammar of event streams
/// closes every collection before the document ends, so a document-end
/// while a collection is still open, like a stream-level event inside a
/// document, is a `Violation`: `yaml_parser_load` excludes it by its
/// precondition, and a finished document never has a mapping whose last key
/// waits for its value.
pub open spec fn compose_event(st: ComposeState, ev: YamlEventT) -> Step {
    match ev@ {
        EventView::Alias { anchor } => {
            let i = anchor_from(st.anchors, anchor, 0);
            if i < 0 {
                Step::Failed(ComposeError::UndefinedAlias { mark: ev.start_mark })
            } else {
                attach(st, st.anchors[i].index)
            }
        },
        EventView::Scalar { anchor, tag, value, style, .. } => add_node(
            st,
            NodeView {
                tag: resolve_tag(tag, str_tag()),
                content: NodeContent::Scalar { value, style },
                start_mark: ev.start_mark,
                end_mark: ev.end_mark,
            },
            anchor,
            false,
        ),
        EventView::SequenceStart { anchor, tag, style, .. } => add_node(
            st,
            NodeView {
                tag: resolve_tag(tag, seq_tag()),
                content: NodeContent::Sequence { items: Seq::empty(), style },
                start_mark: ev.start_mark,
                end_mark: ev.end_mark,
            },
            anchor,
            true,
        ),
        EventView::MappingStart { anchor, tag, style, .. } => add_node(
            st,
            NodeView {
                tag: resolve_tag(tag, map_tag()),
                content: NodeContent::Mapping { pairs: Seq::empty(), style },
                start_mark: ev.start_mark,
                end_mark: ev.end_mark,
            },
            anchor,
            true,
        ),
        EventView::SequenceEnd => close(st, ev.end_mark, false),
        EventView::MappingEnd => close(st, ev.end_mark, true),
        EventView::DocumentEnd { .. } => if st.parents.len() == 0 {
            Step::Finished(st)
        } else {
            Step::Violation
        },
        _ => Step::Violation,
    }
}

/// The outcome of composing the body of a document from `events`, and how
/// many events it takes, the document-end event included.
pub open spec fn compose_run(st: ComposeState, events: Seq<YamlEventT>) -> (Step, nat)
    decreases events.len(),
{
    if events.len() == 0 {
        (Step::Failed(ComposeError::EndOfEvents), 0)
    } else {
        match compose_event(st, events[0]) {
            Step::Continue(next) => {
                let (o, n) = compose_run(next, events.drop_first());
                (o, n + 1)
            },
            other => (other, 1),
        }
    }
}

/// Does the parser report this error?
pub open spec fn reports(p: YamlParserT, e: ComposeError) -> bool {
    match e {
        ComposeError::Memory => p.error == YamlErrorTypeT::YamlMemoryError,
        ComposeError::DuplicateAnchor { first, second } => {
            &&& p.error == YamlErrorTypeT::YamlComposerError
            &&& p.context == Some("found duplicate anchor; first occurrence")
            &&& p.context_mark == first
            &&& p.problem == Some("second occurrence")
            &&& p.problem_mark == second
        },
        ComposeError::UndefinedAlias { mark } => {
            &&& p.error == YamlErrorTypeT::YamlComposerError
            &&& p.problem == Some("found undefined alias")
            &&& p.problem_mark == mark
        },
        ComposeError::EndOfEvents => {
            &&& p.error == YamlErrorTypeT::YamlParserError
            &&& p.problem == Some("unexpected end of the event stream")
        },
    }
}

/// The event source of `q` is that of `p`.
pub open spec fn same_source(p: YamlParserT, q: YamlParserT) -> bool {
    &&& q.events@ == p.events@
    &&& q.stream_start_produced == p.stream_start_produced
    &&& q.stream_end_produced == p.stream_end_produced
}

/// `q` reports what `p` reports: the same error, problem and context.
pub open spec fn same_report(p: YamlParserT, q: YamlParserT) -> bool {
    &&& q.error == p.error
    &&& q.problem == p.problem
    &&& q.problem_mark == p.problem_mark
    &&& q.context == p.context
    &&& q.context_mark == p.context_mark
}

/// What one call of the step functions promises, given the step it takes:
/// on success the new state, with the parser's report untouched; on
/// failure, the error reported.
pub open spec fn step_taken(
    step: Step,
    r: Success,
    before: YamlParserT,
    p: YamlParserT,
    nodes: Seq<YamlNodeT>,
    parents: Seq<YamlNodeItemT>,
) -> bool {
    match step {
        Step::Continue(s) => r.ok && compose_state(nodes, parents, p.aliases@) == s && same_report(
            before,
            p,
        ),
        Step::Failed(e) => !r.ok && reports(p, e),
        _ => true,
    }
}

fn yaml_parser_set_composer_error(
    parser: &mut YamlParserT,
    problem: &'static str,
    problem_mark: YamlMarkT,
) -> (r: Success)
    ensures
        !r.ok,
        final(parser).error == YamlErrorTypeT::YamlComposerError,
        final(parser).problem == Some(problem),
        final(parser).problem_mark == problem_mark,
        same_source(*old(parser), *final(parser)),
        final(parser).aliases == old(parser).aliases,
{
    parser.error = YamlErrorTypeT::YamlComposerError;
    parser.problem = Some(problem);
    parser.problem_mark = problem_mark;
    Success { ok: false }
}

fn yaml_parser_set_composer_error_context(
    parser: &mut YamlParserT,
    context: &'static str,
    context_mark: YamlMarkT,
    problem: &'static str,
    problem_mark: YamlMarkT,
) -> (r: Success)
    ensures
        !r.ok,
        final(parser).error == YamlErrorTypeT::YamlComposerError,
        final(parser).context == Some(context),
        final(parser).context_mark == context_mark,
        final(parser).problem == Some(problem),
        final(parser).problem_mark == problem_mark,
        same_source(*old(parser), *final(parser)),
        final(parser).aliases == old(parser).aliases,
{
    parser.error = YamlErrorTypeT::YamlComposerError;
    parser.context = Some(context);
    parser.context_mark = context_mark;
    parser.problem = Some(problem);
    parser.problem_mark = problem_mark;
    Success { ok: false }
}

fn yaml_parser_set_memory_error(parser: &mut YamlParserT) -> (r: Success)
    ensures
        !r.ok,
        reports(*final(parser), ComposeError::Memory),
        same_source(*old(parser), *final(parser)),
        final(parser).aliases == old(parser).aliases,
{
    parser.error = YamlErrorTypeT::YamlMemoryError;
    Success { ok: false }
}

fn yaml_parser_set_source_error(parser: &mut YamlParserT) -> (r: Success)
    ensures
        !r.ok,
        reports(*final(parser), ComposeError::EndOfEvents),
        final(parser).events == old(parser).events,
        final(parser).stream_start_produced == old(parser).stream_start_produced,
        final(parser).stream_end_produced == old(parser).stream_end_produced,
        final(parser).aliases == old(parser).aliases,
{
    parser.error = YamlErrorTypeT::YamlParserError;
    parser.problem = Some("unexpected end of the event stream");
    Success { ok: false }
}

fn yaml_parser_delete_aliases(parser: &mut YamlParserT)
    ensures
        final(parser).aliases@.len() == 0,
        same_source(*old(parser), *final(parser)),
        final(parser).error == old(parser).error,
        final(parser).problem == old(parser).problem,
        final(parser).problem_mark == old(parser).problem_mark,
        final(parser).context == old(parser).context,
        final(parser).context_mark == old(parser).context_mark,
{
    parser.aliases = YamlStackT { items: Vec::new() };
}

/// The position of the first registered anchor named `name`.
fn yaml_parser_find_anchor(parser: &YamlParserT, name: &Vec<u8>) -> (r: Option<usize>)
    ensures
        match r {
            Some(k) => k < parser.aliases@.len() && k as int == anchor_from(
                parser.aliases@.map_values(|a: YamlAliasDataT| a@),
                name@,
                0,
            ),
            None => anchor_from(parser.aliases@.map_values(|a: YamlAliasDataT| a@), name@, 0)
                == -1,
        },
{
    let ghost anchors = parser.aliases@.map_values(|a: YamlAliasDataT| a@);
    let mut i: usize = 0;
    while i < parser.aliases.items.len()
        invariant
            i <= parser.aliases@.len(),
            anchors == parser.aliases@.map_values(|a: YamlAliasDataT| a@),
            anchor_from(anchors, name@, 0) == anchor_from(anchors, name@, i as int),
        decreases parser.aliases@.len() - i,
    {
        if bytes_equal(&parser.aliases.items[i].anchor, name) {
            return Some(i);
        }
        i = i + 1;
    }
    None
}

fn yaml_parser_register_anchor(
    parser: &mut YamlParserT,
    index: YamlNodeItemT,
    anchor: Option<Vec<u8>>,
    mark: YamlMarkT,
) -> (r: Success)
    ensures
        ({
            let anchors = old(parser).aliases@.map_values(|a: YamlAliasDataT| a@);
            let dup = match anchor {
                Some(a) => anchor_from(anchors, a@, 0),
                None => -1,
            };
            &&& dup >= 0 ==> !r.ok && reports(
                *final(parser),
                ComposeError::DuplicateAnchor { first: anchors[dup].mark, second: mark },
            ) && final(parser).aliases == old(parser).aliases
            &&& dup < 0 ==> same_report(*old(parser), *final(parser))
            &&& dup < 0 ==> r.ok && final(parser).aliases@.map_values(|a: YamlAliasDataT| a@)
                == match anchor {
                Some(a) => anchors.push(AnchorView { name: a@, index, mark }),
                None => anchors,
            }
        }),
        same_source(*old(parser), *final(parser)),
{
    match anchor {
        None => Success { ok: true },
        Some(a) => {
            if let Some(k) = yaml_parser_find_anchor(parser, &a) {
                let first = parser.aliases.items[k].mark;
                proof {
                    let anchors = old(parser).aliases@.map_values(|x: YamlAliasDataT| x@);
                    assert(anchors[k as int] == old(parser).aliases@[k as int]@);
                }
                return yaml_parser_set_composer_error_context(
                    parser,
                    "found duplicate anchor; first occurrence",
                    first,
                    "second occurrence",
                    mark,
                );
            }
            let ghost before = parser.aliases@;
            parser.aliases.items.push(YamlAliasDataT { anchor: a, index, mark });
            proof {
                assert(parser.aliases@.map_values(|x: YamlAliasDataT| x@) =~= before.map_values(
                    |x: YamlAliasDataT| x@,
                ).push(AnchorView { name: a@, index, mark }));
            }
            Success { ok: true }
        },
    }
}

/// `document` and `other` agree on everything but their nodes.
pub open spec fn same_header(document: YamlDocumentT, other: YamlDocumentT) -> bool {
    &&& other.version_directive == document.version_directive
    &&& other.tag_directives == document.tag_directives
    &&& other.start_implicit == document.start_implicit
    &&& other.end_implicit == document.end_implicit
    &&& other.start_mark == document.start_mark
    &&& other.end_mark == document.end_mark
}

fn yaml_parser_load_node_add(
    parser: &mut YamlParserT,
    document: &mut YamlDocumentT,
    ctx: &YamlStackT<YamlNodeItemT>,
    index: YamlNodeItemT,
) -> (r: Success)
    requires
        !(attach(compose_state(old(document).nodes@, ctx@, old(parser).aliases@), index) is Violation),
    ensures
        step_taken(
            attach(compose_state(old(document).nodes@, ctx@, old(parser).aliases@), index),
            r,
            *old(parser),
            *final(parser),
            final(document).nodes@,
            ctx@,
        ),
        !r.ok ==> final(document).nodes == old(document).nodes,
        same_source(*old(parser), *final(parser)),
        final(parser).aliases == old(parser).aliases,
        same_header(*old(document), *final(document)),
{
    let ghost st = compose_state(old(document).nodes@, ctx@, old(parser).aliases@);
    let n = ctx.items.len();
    if n == 0 {
        proof {
            assert(compose_state(document.nodes@, ctx@, parser.aliases@) == st);
        }
        return Success { ok: true };
    }
    let parent_index = ctx.items[n - 1];
    if parent_index < 1 || parent_index as usize > document.nodes.items.len() {
        return Success { ok: true };
    }
    let pi = (parent_index - 1) as usize;
    proof {
        assert(st.nodes[pi as int] == document.nodes@[pi as int]@);
    }
    if document.nodes.items[pi].type_ == YamlNodeTypeT::YamlSequenceNode {
        if document.nodes.items[pi].data.sequence.items.items.len() >= (i32::MAX - 1) as usize {
            return yaml_parser_set_memory_error(parser);
        }
        document.nodes.items[pi].data.sequence.items.items.push(index);
    } else if document.nodes.items[pi].type_ == YamlNodeTypeT::YamlMappingNode {
        let m = document.nodes.items[pi].data.mapping.pairs.items.len();
        if m > 0 && document.nodes.items[pi].data.mapping.pairs.items[m - 1].key != 0
            && document.nodes.items[pi].data.mapping.pairs.items[m - 1].value == 0 {
            let key = document.nodes.items[pi].data.mapping.pairs.items[m - 1].key;
            document.nodes.items[pi].data.mapping.pairs.items.set(
                m - 1,
                YamlNodePairT { key, value: index },
            );
        } else {
            if m >= (i32::MAX - 1) as usize {
                return yaml_parser_set_memory_error(parser);
            }
            document.nodes.items[pi].data.mapping.pairs.items.push(
                YamlNodePairT { key: index, value: 0 },
            );
        }
    } else {
        return Success { ok: true };
    }
    proof {
        let expected = attach(st, index)->Continue_0;
        assert(document.nodes@.map_values(|x: YamlNodeT| x@) =~= expected.nodes);
        assert(compose_state(document.nodes@, ctx@, parser.aliases@) == expected);
    }
    Success { ok: true }
}

/// Resolve an event's tag to the one the new node gets.
fn yaml_parser_resolve_tag(tag: Option<Vec<u8>>, default: Vec<u8>) -> (r: Vec<u8>)
    ensures
        r@ == resolve_tag(opt_bytes(tag), default@),
{
    match tag {
        None => default,
        Some(t) => {
            if t.len() == 1 && t[0] == 33u8 {
                proof {
                    assert(t@ =~= bang_tag());
                }
                default
            } else {
                proof {
                    if t@ == bang_tag() {
                        assert(t@.len() == 1 && t@[0] == 33u8);
                    }
                }
                t
            }
        },
    }
}

/// Add a new node to the arena, register its anchor and attach it.
fn yaml_parser_add_node(
    parser: &mut YamlParserT,
    document: &mut YamlDocumentT,
    ctx: &mut YamlStackT<YamlNodeItemT>,
    node: YamlNodeT,
    anchor: Option<Vec<u8>>,
    opens: bool,
) -> (r: Success)
    requires
        !(add_node(
            compose_state(old(document).nodes@, old(ctx)@, old(parser).aliases@),
            node@,
            opt_bytes(anchor),
            opens,
        ) is Violation),
    ensures
        step_taken(
            add_node(
                compose_state(old(document).nodes@, old(ctx)@, old(parser).aliases@),
                node@,
                opt_bytes(anchor),
                opens,
            ),
            r,
            *old(parser),
            *final(parser),
            final(document).nodes@,
            final(ctx)@,
        ),
        same_source(*old(parser), *final(parser)),
        same_header(*old(document), *final(document)),
{
    let ghost st = compose_state(old(document).nodes@, old(ctx)@, old(parser).aliases@);
    let ghost anchor_view = opt_bytes(anchor);
    let ghost node_view = node@;
    let start_mark = node.start_mark;
    if document.nodes.items.len() >= (i32::MAX - 1) as usize {
        return yaml_parser_set_memory_error(parser);
    }
    document.nodes.items.push(node);
    let index = document.nodes.items.len() as i32;
    let registered = yaml_parser_register_anchor(parser, index, anchor, start_mark);
    if !registered.ok {
        return registered;
    }
    proof {
        let anchors = match anchor_view {
            Some(a) => st.anchors.push(AnchorView { name: a, index, mark: node_view.start_mark }),
            None => st.anchors,
        };
        let added = ComposeState { nodes: st.nodes.push(node_view), parents: st.parents, anchors };
        assert(document.nodes@.map_values(|x: YamlNodeT| x@) =~= added.nodes);
        assert(compose_state(document.nodes@, ctx@, parser.aliases@) == added);
    }
    let attached = yaml_parser_load_node_add(parser, document, ctx, index);
    if !attached.ok || !opens {
        return attached;
    }
    if ctx.items.len() >= (i32::MAX - 1) as usize {
        return yaml_parser_set_memory_error(parser);
    }
    ctx.items.push(index);
    Success { ok: true }
}

fn yaml_parser_load_alias(
    parser: &mut YamlParserT,
    document: &mut YamlDocumentT,
    event: YamlEventT,
    ctx: &mut YamlStackT<YamlNodeItemT>,
) -> (r: Success)
    requires
        event.type_ == YamlEventTypeT::YamlAliasEvent,
        !(compose_event(compose_state(old(document).nodes@, old(ctx)@, old(parser).aliases@), event)
            is Violation),
    ensures
        step_taken(
            compose_event(compose_state(old(document).nodes@, old(ctx)@, old(parser).aliases@), event),
            r,
            *old(parser),
            *final(parser),
            final(document).nodes@,
            final(ctx)@,
        ),
        !r.ok ==> final(document).nodes == old(document).nodes,
        final(ctx)@ == old(ctx)@,
        same_source(*old(parser), *final(parser)),
        same_header(*old(document), *final(document)),
{
    match yaml_parser_find_anchor(parser, &event.data.alias.anchor) {
        None => yaml_parser_set_composer_error(parser, "found undefined alias", event.start_mark),
        Some(k) => {
            let index = parser.aliases.items[k].index;
            proof {
                let anchors = parser.aliases@.map_values(|x: YamlAliasDataT| x@);
                assert(anchors[k as int] == parser.aliases@[k as int]@);
            }
            yaml_parser_load_node_add(parser, document, ctx, index)
        },
    }
}

fn yaml_parser_load_scalar(
    parser: &mut YamlParserT,
    document: &mut YamlDocumentT,
    event: YamlEventT,
    ctx: &mut YamlStackT<YamlNodeItemT>,
) -> (r: Success)
    requires
        event.type_ == YamlEventTypeT::YamlScalarEvent,
        !(compose_event(compose_state(old(document).nodes@, old(ctx)@, old(parser).aliases@), event)
            is Violation),
    ensures
        step_taken(
            compose_event(compose_state(old(document).nodes@, old(ctx)@, old(parser).aliases@), event),
            r,
            *old(parser),
            *final(parser),
            final(document).nodes@,
            final(ctx)@,
        ),
        same_source(*old(parser), *final(parser)),
        same_header(*old(document), *final(document)),
{
    let YamlEventT { data, start_mark, end_mark, .. } = event;
    let UnnamedYamlEventTdataScalar { anchor, tag, value, style, .. } = data.scalar;
    let tag = yaml_parser_resolve_tag(tag, yaml_str_tag());
    let node = yaml_scalar_node(tag, value, style, start_mark, end_mark);
    yaml_parser_add_node(parser, document, ctx, node, anchor, false)
}

fn yaml_parser_load_sequence(
    parser: &mut YamlParserT,
    document: &mut YamlDocumentT,
    event: YamlEventT,
    ctx: &mut YamlStackT<YamlNodeItemT>,
) -> (r: Success)
    requires
        event.type_ == YamlEventTypeT::YamlSequenceStartEvent,
        !(compose_event(compose_state(old(document).nodes@, old(ctx)@, old(parser).aliases@), event)
            is Violation),
    ensures
        step_taken(
            compose_event(compose_state(old(document).nodes@, old(ctx)@, old(parser).aliases@), event),
            r,
            *old(parser),
            *final(parser),
            final(document).nodes@,
            final(ctx)@,
        ),
        same_source(*old(parser), *final(parser)),
        same_header(*old(document), *final(document)),
{
    let YamlEventT { data, start_mark, end_mark, .. } = event;
    let UnnamedYamlEventTdataSequenceStart { anchor, tag, style, .. } = data.sequence_start;
    let tag = yaml_parser_resolve_tag(tag, yaml_seq_tag());
    let node = yaml_sequence_node(tag, style, start_mark, end_mark);
    yaml_parser_add_node(parser, document, ctx, node, anchor, true)
}

fn yaml_parser_load_mapping(
    parser: &mut YamlParserT,
    document: &mut YamlDocumentT,
    event: YamlEventT,
    ctx: &mut YamlStackT<YamlNodeItemT>,
) -> (r: Success)
    requires
        event.type_ == YamlEventTypeT::YamlMappingStartEvent,
        !(compose_event(compose_state(old(document).nodes@, old(ctx)@, old(parser).aliases@), event)
            is Violation),
    ensures
        step_taken(
            compose_event(compose_state(old(document).nodes@, old(ctx)@, old(parser).aliases@), event),
            r,
            *old(parser),
            *final(parser),
            final(document).nodes@,
            final(ctx)@,
        ),
        same_source(*old(parser), *final(parser)),
        same_header(*old(document), *final(document)),
{
    let YamlEventT { data, start_mark, end_mark, .. } = event;
    let UnnamedYamlEventTdataMappingStart { anchor, tag, style, .. } = data.mapping_start;
    let tag = yaml_parser_resolve_tag(tag, yaml_map_tag());
    let node = yaml_mapping_node(tag, style, start_mark, end_mark);
    yaml_parser_add_node(parser, document, ctx, node, anchor, true)
}

/// Close the innermost open collection.
fn yaml_parser_load_collection_end(
    parser: &YamlParserT,
    document: &mut YamlDocumentT,
    end_mark: YamlMarkT,
    ctx: &mut YamlStackT<YamlNodeItemT>,
    mapping: bool,
) -> (r: Success)
    requires
        !(close(compose_state(old(document).nodes@, old(ctx)@, parser.aliases@), end_mark, mapping)
            is Violation),
    ensures
        step_taken(
            close(compose_state(old(document).nodes@, old(ctx)@, parser.aliases@), end_mark, mapping),
            r,
            *parser,
            *parser,
            final(document).nodes@,
            final(ctx)@,
        ),
        same_header(*old(document), *final(document)),
{
    let ghost st = compose_state(old(document).nodes@, old(ctx)@, parser.aliases@);
    let n = ctx.items.len();
    if n == 0 {
        return Success { ok: true };
    }
    let parent_index = ctx.items[n - 1];
    if parent_index < 1 || parent_index as usize > document.nodes.items.len() {
        return Success { ok: true };
    }
    let pi = (parent_index - 1) as usize;
    proof {
        assert(st.nodes[pi as int] == document.nodes@[pi as int]@);
    }
    document.nodes.items[pi].end_mark = end_mark;
    ctx.items.pop();
    proof {
        let expected = close(st, end_mark, mapping)->Continue_0;
        assert(document.nodes@.map_values(|x: YamlNodeT| x@) =~= expected.nodes);
        assert(ctx@ =~= expected.parents);
        assert(compose_state(document.nodes@, ctx@, parser.aliases@) == expected);
    }
    Success { ok: true }
}

/// A document body that composes completely leaves no collection open.
pub proof fn lemma_finished_closes_all(st: ComposeState, events: Seq<YamlEventT>)
    ensures
        compose_run(st, events).0 is Finished ==> compose_run(st, events).0->Finished_0.parents.len()
            == 0,
    decreases events.len(),
{
    if events.len() > 0 {
        if let Step::Continue(next) = compose_event(st, events[0]) {
            lemma_finished_closes_all(next, events.drop_first());
        }
    }
}

fn yaml_parser_load_sequence_end(
    parser: &YamlParserT,
    document: &mut YamlDocumentT,
    event: YamlEventT,
    ctx: &mut YamlStackT<YamlNodeItemT>,
) -> (r: Success)
    requires
        event.type_ == YamlEventTypeT::YamlSequenceEndEvent,
        !(compose_event(compose_state(old(document).nodes@, old(ctx)@, parser.aliases@), event)
            is Violation),
    ensures
        step_taken(
            compose_event(compose_state(old(document).nodes@, old(ctx)@, parser.aliases@), event),
            r,
            *parser,
            *parser,
            final(document).nodes@,
            final(ctx)@,
        ),
        same_header(*old(document), *final(document)),
{
    yaml_parser_load_collection_end(parser, document, event.end_mark, ctx, false)
}

fn yaml_parser_load_mapping_end(
    parser: &YamlParserT,
    document: &mut YamlDocumentT,
    event: YamlEventT,
    ctx: &mut YamlStackT<YamlNodeItemT>,
) -> (r: Success)
    requires
        event.type_ == YamlEventTypeT::YamlMappingEndEvent,
        !(compose_event(compose_state(old(document).nodes@, old(ctx)@, parser.aliases@), event)
            is Violation),
    ensures
        step_taken(
            compose_event(compose_state(old(document).nodes@, old(ctx)@, parser.aliases@), event),
            r,
            *parser,
            *parser,
            final(document).nodes@,
            final(ctx)@,
        ),
        same_header(*old(document), *final(document)),
{
    yaml_parser_load_collection_end(parser, document, event.end_mark, ctx, true)
}

/// `document` and `other` agree on what a document-start event sets.
pub open spec fn same_start(document: YamlDocumentT, other: YamlDocumentT) -> bool {
    &&& other.version_directive == document.version_directive
    &&& other.tag_directives == document.tag_directives
    &&& other.start_implicit == document.start_implicit
    &&& other.start_mark == document.start_mark
}

/// What composing the rest of a document's body promises, given the events
/// it starts from.
pub open spec fn body_loaded(
    st: ComposeState,
    events: Seq<YamlEventT>,
    r: Success,
    before: YamlParserT,
    p: YamlParserT,
    document: YamlDocumentT,
    parents: Seq<YamlNodeItemT>,
) -> bool {
    let (o, n) = compose_run(st, events);
    &&& n <= events.len()
    &&& p.events@ == events.subrange(n as int, events.len() as int)
    &&& match o {
        Step::Finished(s) => {
            &&& r.ok
            &&& same_report(before, p)
            &&& compose_state(document.nodes@, parents, p.aliases@) == s
            &&& document.end_implicit == events[n - 1].data.document_end.implicit
            &&& document.end_mark == events[n - 1].end_mark
        },
        Step::Failed(e) => !r.ok && reports(p, e),
        _ => true,
    }
}

fn yaml_parser_load_nodes(
    parser: &mut YamlParserT,
    document: &mut YamlDocumentT,
    ctx: &mut YamlStackT<YamlNodeItemT>,
) -> (r: Success)
    requires
        !(compose_run(
            compose_state(old(document).nodes@, old(ctx)@, old(parser).aliases@),
            old(parser).events@,
        ).0 is Violation),
    ensures
        body_loaded(
            compose_state(old(document).nodes@, old(ctx)@, old(parser).aliases@),
            old(parser).events@,
            r,
            *old(parser),
            *final(parser),
            *final(document),
            final(ctx)@,
        ),
        final(parser).stream_start_produced == old(parser).stream_start_produced,
        final(parser).stream_end_produced == old(parser).stream_end_produced,
        same_start(*old(document), *final(document)),
{
    let ghost st0 = compose_state(document.nodes@, ctx@, parser.aliases@);
    let ghost evs0 = parser.events@;
    let ghost target = compose_run(st0, evs0);
    let ghost doc0 = *document;
    let ghost mut k: nat = 0;
    loop
        invariant
            st0 == compose_state(old(document).nodes@, old(ctx)@, old(parser).aliases@),
            evs0 == old(parser).events@,
            doc0 == *old(document),
            target == compose_run(st0, evs0),
            k <= evs0.len(),
            parser.events@ == evs0.subrange(k as int, evs0.len() as int),
            compose_run(compose_state(document.nodes@, ctx@, parser.aliases@), parser.events@).0
                == target.0,
            compose_run(compose_state(document.nodes@, ctx@, parser.aliases@), parser.events@).1
                + k == target.1,
            !(target.0 is Violation),
            parser.stream_start_produced == old(parser).stream_start_produced,
            parser.stream_end_produced == old(parser).stream_end_produced,
            same_header(doc0, *document),
            same_report(*old(parser), *parser),
        decreases parser.events@.len(),
    {
        let ghost cur = compose_state(document.nodes@, ctx@, parser.aliases@);
        let ghost evs = parser.events@;
        let next = parser.events.next();
        match next {
            None => {
                proof {
                    assert(evs.len() == 0);
                    assert(compose_run(cur, evs) == (Step::Failed(ComposeError::EndOfEvents), 0nat));
                }
                return yaml_parser_set_source_error(parser);
            },
            Some(event) => {
                proof {
                    assert(evs[0] == event);
                    assert(parser.events@ =~= evs0.subrange(k + 1 as int, evs0.len() as int));
                }
                let ghost step = compose_event(cur, event);
                proof {
                    if !(step is Continue) {
                        assert(compose_run(cur, evs) == (step, 1nat));
                    }
                }
                let t = event.type_;
                let r = if t == YamlEventTypeT::YamlAliasEvent {
                    yaml_parser_load_alias(parser, document, event, ctx)
                } else if t == YamlEventTypeT::YamlScalarEvent {
                    yaml_parser_load_scalar(parser, document, event, ctx)
                } else if t == YamlEventTypeT::YamlSequenceStartEvent {
                    yaml_parser_load_sequence(parser, document, event, ctx)
                } else if t == YamlEventTypeT::YamlMappingStartEvent {
                    yaml_parser_load_mapping(parser, document, event, ctx)
                } else if t == YamlEventTypeT::YamlSequenceEndEvent {
                    yaml_parser_load_sequence_end(parser, document, event, ctx)
                } else if t == YamlEventTypeT::YamlMappingEndEvent {
                    yaml_parser_load_mapping_end(parser, document, event, ctx)
                } else {
                    proof {
                        assert(step == compose_run(cur, evs).0);
                        assert(event.type_ == YamlEventTypeT::YamlDocumentEndEvent);
                        assert(step == Step::Finished(cur));
                    }
                    document.end_implicit = event.data.document_end.implicit;
                    document.end_mark = event.end_mark;
                    proof {
                        assert(compose_state(document.nodes@, ctx@, parser.aliases@) == cur);
                        assert(target.1 == k + 1);
                        assert(evs0[k as int] == event);
                    }
                    return Success { ok: true };
                };
                if !r.ok {
                    return r;
                }
                proof {
                    k = k + 1;
                }
            },
        }
    }
}

fn yaml_parser_load_document(
    parser: &mut YamlParserT,
    document: &mut YamlDocumentT,
    event: YamlEventT,
) -> (r: Success)
    requires
        event.type_ == YamlEventTypeT::YamlDocumentStartEvent,
        !(compose_run(
            compose_state(old(document).nodes@, Seq::empty(), old(parser).aliases@),
            old(parser).events@,
        ).0 is Violation),
    ensures
        body_loaded(
            compose_state(old(document).nodes@, Seq::empty(), old(parser).aliases@),
            old(parser).events@,
            r,
            *old(parser),
            *final(parser),
            *final(document),
            Seq::empty(),
        ),
        final(parser).stream_start_produced == old(parser).stream_start_produced,
        final(parser).stream_end_produced == old(parser).stream_end_produced,
        final(document).version_directive == event.data.document_start.version_directive,
        final(document).tag_directives.items@ == event.data.document_start.tag_directives.items@,
        final(document).start_implicit == event.data.document_start.implicit,
        final(document).start_mark == event.start_mark,
{
    let YamlEventT { data, start_mark, .. } = event;
    document.version_directive = data.document_start.version_directive;
    document.tag_directives.items = data.document_start.tag_directives.items;
    document.start_implicit = data.document_start.implicit;
    document.start_mark = start_mark;
    let mut ctx: YamlStackT<YamlNodeItemT> = YamlStackT { items: Vec::new() };
    let ghost st0 = compose_state(old(document).nodes@, Seq::empty(), old(parser).aliases@);
    proof {
        assert(ctx@ =~= Seq::<YamlNodeItemT>::empty());
    }
    let r = yaml_parser_load_nodes(parser, document, &mut ctx);
    proof {
        let (o, n) = compose_run(st0, old(parser).events@);
        lemma_finished_closes_all(st0, old(parser).events@);
        if o is Finished {
            assert(ctx@ =~= Seq::<YamlNodeItemT>::empty());
        }
    }
    r
}

/// How a call of `yaml_parser_load` ends.
pub ghost enum LoadOutcome {
    /// The stream has ended: the document comes back empty.
    EndOfStream,
    /// A document was composed.
    Composed,
    /// Composition failed: the document comes back empty.
    Failed(ComposeError),
    /// The event source broke the grammar of event streams.
    Violation,
}

/// Everything one call of `yaml_parser_load` determines.
pub ghost struct LoadResult {
    pub outcome: LoadOutcome,
    /// How many events the call takes from the source.
    pub consumed: nat,
    pub stream_start_produced: bool,
    pub stream_end_produced: bool,
    pub document: DocumentView,
}

/// The result of loading the next document from parser `p`: skip the
/// stream-start event if it has not been produced yet; at stream end,
/// return the empty document; otherwise compose the document that the next
/// document-start event opens.
pub open spec fn load_result(p: YamlParserT) -> LoadResult {
    let evs = p.events@;
    if !p.stream_start_produced && evs.len() == 0 {
        LoadResult {
            outcome: LoadOutcome::Failed(ComposeError::EndOfEvents),
            consumed: 0,
            stream_start_produced: false,
            stream_end_produced: p.stream_end_produced,
            document: empty_document(),
        }
    } else if !p.stream_start_produced && evs[0].type_ != YamlEventTypeT::YamlStreamStartEvent {
        LoadResult {
            outcome: LoadOutcome::Violation,
            consumed: 0,
            stream_start_produced: false,
            stream_end_produced: p.stream_end_produced,
            document: empty_document(),
        }
    } else {
        let skip: nat = if p.stream_start_produced {
            0
        } else {
            1
        };
        if p.stream_end_produced {
            LoadResult {
                outcome: LoadOutcome::EndOfStream,
                consumed: skip,
                stream_start_produced: true,
                stream_end_produced: true,
                document: empty_document(),
            }
        } else if evs.len() <= skip {
            LoadResult {
                outcome: LoadOutcome::Failed(ComposeError::EndOfEvents),
                consumed: skip,
                stream_start_produced: true,
                stream_end_produced: false,
                document: empty_document(),
            }
        } else if evs[skip as int].type_ == YamlEventTypeT::YamlStreamEndEvent {
            LoadResult {
                outcome: LoadOutcome::EndOfStream,
                consumed: skip + 1,
                stream_start_produced: true,
                stream_end_produced: true,
                document: empty_document(),
            }
        } else if evs[skip as int].type_ != YamlEventTypeT::YamlDocumentStartEvent {
            LoadResult {
                outcome: LoadOutcome::Violation,
                consumed: skip,
                stream_start_produced: true,
                stream_end_produced: false,
                document: empty_document(),
            }
        } else {
            let start = evs[skip as int];
            let body = evs.subrange((skip + 1) as int, evs.len() as int);
            let (o, n) = compose_run(initial_state(), body);
            match o {
                Step::Finished(s) => LoadResult {
                    outcome: LoadOutcome::Composed,
                    consumed: skip + 1 + n,
                    stream_start_produced: true,
                    stream_end_produced: false,
                    document: DocumentView {
                        nodes: s.nodes,
                        version_directive: start.data.document_start.version_directive,
                        tag_directives: directives_view(
                            start.data.document_start.tag_directives.items@,
                        ),
                        start_implicit: start.data.document_start.implicit,
                        end_implicit: body[n - 1].data.document_end.implicit,
                        start_mark: start.start_mark,
                        end_mark: body[n - 1].end_mark,
                    },
                },
                Step::Failed(e) => LoadResult {
                    outcome: LoadOutcome::Failed(e),
                    consumed: skip + 1 + n,
                    stream_start_produced: true,
                    stream_end_produced: false,
                    document: empty_document(),
                },
                _ => LoadResult {
                    outcome: LoadOutcome::Violation,
                    consumed: skip + 1 + n,
                    stream_start_produced: true,
                    stream_end_produced: false,
                    document: empty_document(),
                },
            }
        }
    }
}

/// Does the next call of `yaml_parser_load` meet only events that the
/// grammar of event streams allows where they stand?
pub open spec fn load_well_formed(p: YamlParserT) -> bool {
    !(load_result(p).outcome is Violation)
}

/// Does the parser report the failure of this outcome, if it is one?
pub open spec fn load_reported(p: YamlParserT, o: LoadOutcome) -> bool {
    match o {
        LoadOutcome::Failed(e) => reports(p, e),
        _ => true,
    }
}

/// Parse the input stream and produce the next YAML document.
///
/// Call this function repeatedly to produce the documents of the stream in
/// turn. A document with no nodes means that the stream has ended. On
/// failure the document comes back empty and the parser says what went
/// wrong.
pub fn yaml_parser_load(parser: &mut YamlParserT, document: &mut YamlDocumentT) -> (r: Success)
    requires
        load_well_formed(*old(parser)),
    ensures
        ({
            let res = load_result(*old(parser));
            &&& res.consumed <= old(parser).events@.len()
            &&& final(parser).events@ == old(parser).events@.subrange(
                res.consumed as int,
                old(parser).events@.len() as int,
            )
            &&& final(parser).stream_start_produced == res.stream_start_produced
            &&& final(parser).stream_end_produced == res.stream_end_produced
            &&& final(document)@ == res.document
            &&& r.ok == !(res.outcome is Failed)
            &&& load_reported(*final(parser), res.outcome)
            &&& res.outcome is Composed ==> final(document)@.wf()
            &&& !(res.outcome is Failed) ==> same_report(*old(parser), *final(parser))
        }),
        final(parser).aliases@.len() == 0,
{
    let ghost evs = parser.events@;
    yaml_document_delete(document);
    yaml_parser_delete_aliases(parser);
    if !parser.stream_start_produced {
        match parser.events.next() {
            None => {
                return yaml_parser_set_source_error(parser);
            },
            Some(_) => {
                parser.stream_start_produced = true;
            },
        }
    }
    if parser.stream_end_produced {
        return Success { ok: true };
    }
    let ghost skip: int = evs.len() - parser.events@.len();
    match parser.events.next() {
        None => {
            return yaml_parser_set_source_error(parser);
        },
        Some(event) => {
            if event.type_ == YamlEventTypeT::YamlStreamEndEvent {
                parser.stream_end_produced = true;
                return Success { ok: true };
            }
            proof {
                assert(parser.events@ =~= evs.subrange((skip + 1) as int, evs.len() as int));
            }
            let ghost start = event;
            proof {
                assert(document.nodes@ =~= Seq::<YamlNodeT>::empty());
                assert(compose_state(document.nodes@, Seq::empty(), parser.aliases@).nodes =~= initial_state().nodes);
                assert(compose_state(document.nodes@, Seq::empty(), parser.aliases@).anchors =~= initial_state().anchors);
                assert(compose_state(document.nodes@, Seq::empty(), parser.aliases@) == initial_state());
            }
            let r = yaml_parser_load_document(parser, document, event);
            yaml_parser_delete_aliases(parser);
            if !r.ok {
                yaml_document_delete(document);
            }
            proof {
                let body = evs.subrange((skip + 1) as int, evs.len() as int);
                let (o, n) = compose_run(initial_state(), body);
                assert(parser.events@ =~= evs.subrange((skip + 1 + n) as int, evs.len() as int));
                if o is Finished {
                    assert(document@.nodes =~= o->Finished_0.nodes);
                    assert(state_wf(initial_state()));
                    lemma_compose_run_wf(initial_state(), body);
                    lemma_finished_document_wf(o->Finished_0, document@);
                    assert(document@.tag_directives =~= directives_view(
                        start.data.document_start.tag_directives.items@,
                    ));
                }
            }
            r
        },
    }
}

} // verus!
