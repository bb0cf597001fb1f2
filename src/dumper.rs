//! The decomposer: a document to a stream of events, with anchors for the
//! nodes that are shared.
use vstd::prelude::*;

use crate::api::{yaml_document_delete, yaml_document_end_event_initialize, yaml_document_start_event_initialize, yaml_stream_end_event_initialize, yaml_stream_start_event_initialize, yaml_alias_event_initialize, yaml_mapping_end_event_initialize, yaml_mapping_start_event_initialize, yaml_scalar_event_initialize, yaml_sequence_end_event_initialize, yaml_sequence_start_event_initialize};
use crate::fmt::{zero_padded, WriteToPtr};
use crate::success::Success;
use crate::yaml::{empty_document, YamlEncodingT, YamlTagDirectiveT, bytes_equal, copy_bytes, map_tag, opt_bytes, seq_tag, str_tag, yaml_map_tag, yaml_seq_tag, yaml_str_tag, zero_mark, DocumentView, EventView, YamlErrorTypeT, YamlEventT, YamlNodeT, children, pair_children, NodeContent, NodeView, YamlAnchorsT, YamlDocumentT, YamlEmitterT, YamlNodeItemT, YamlNodePairT, YamlNodeTypeT};

verus! {

/// The anchor name for anchor id `id`: `id` followed by the id in decimal,
/// at least three digits.
pub open spec fn anchor_name(id: i32) -> Seq<u8> {
    seq![105u8, 100u8] + zero_padded(id as nat, 3)
}

/// How many entries of `s` satisfy `f`.
pub open spec fn count_where(s: Seq<YamlAnchorsT>, f: spec_fn(YamlAnchorsT) -> bool) -> nat
    decreases s.len(),
{
    if s.len() == 0 {
        0
    } else {
        count_where(s.drop_last(), f) + if f(s.last()) {
            1nat
        } else {
            0nat
        }
    }
}

/// Entries of nodes that the marking pass has not reached.
pub open spec fn unvisited() -> spec_fn(YamlAnchorsT) -> bool {
    |a: YamlAnchorsT| a.references == 0
}

/// Entries of nodes that got an anchor id.
pub open spec fn labeled() -> spec_fn(YamlAnchorsT) -> bool {
    |a: YamlAnchorsT| a.references == 2
}

/// Entries of nodes not emitted yet.
pub open spec fn unserialized() -> spec_fn(YamlAnchorsT) -> bool {
    |a: YamlAnchorsT| !a.serialized
}

/// Replacing one entry changes the count by what the two entries add.
pub proof fn lemma_count_update(
    s: Seq<YamlAnchorsT>,
    i: int,
    a: YamlAnchorsT,
    f: spec_fn(YamlAnchorsT) -> bool,
)
    requires
        0 <= i < s.len(),
    ensures
        count_where(s.update(i, a), f) + (if f(s[i]) {
            1int
        } else {
            0int
        }) == count_where(s, f) + (if f(a) {
            1int
        } else {
            0int
        }),
    decreases s.len(),
{
    if i < s.len() - 1 {
        lemma_count_update(s.drop_last(), i, a, f);
        assert(s.update(i, a).drop_last() =~= s.drop_last().update(i, a));
    } else {
        assert(s.update(i, a).drop_last() =~= s.drop_last());
    }
}

/// No count exceeds the length.
pub proof fn lemma_count_bound(s: Seq<YamlAnchorsT>, f: spec_fn(YamlAnchorsT) -> bool)
    ensures
        count_where(s, f) <= s.len(),
    decreases s.len(),
{
    if s.len() > 0 {
        lemma_count_bound(s.drop_last(), f);
    }
}

/// The key and value of pair `j` stand at `2 j` and `2 j + 1` among the
/// children of a mapping.
pub proof fn lemma_pair_children_index(pairs: Seq<YamlNodePairT>, j: int)
    requires
        0 <= j < pairs.len(),
    ensures
        pair_children(pairs).len() == 2 * pairs.len(),
        pair_children(pairs)[2 * j] == pairs[j].key,
        pair_children(pairs)[2 * j + 1] == pairs[j].value,
    decreases pairs.len(),
{
    if j < pairs.len() - 1 {
        lemma_pair_children_index(pairs.drop_last(), j);
    } else if pairs.len() > 1 {
        lemma_pair_children_index(pairs.drop_last(), 0);
    } else {
        assert(pair_children(pairs.drop_last()).len() == 0);
    }
}

/// The bookkeeping of the marking pass.
pub ghost struct MarkState {
    pub anchors: Seq<YamlAnchorsT>,
    pub last: int,
}

/// The marking pass's bookkeeping in an emitter.
pub open spec fn mark_state(e: YamlEmitterT) -> MarkState {
    MarkState { anchors: e.anchors@, last: e.last_anchor_id as int }
}

/// Count one more reference to node `index`; at the second one, give the
/// node the next anchor id. Later references change nothing.
pub open spec fn visit(st: MarkState, index: int) -> MarkState {
    let a = st.anchors[index - 1];
    if a.references == 0 {
        MarkState {
            anchors: st.anchors.update(
                index - 1,
                YamlAnchorsT { references: 1, anchor: a.anchor, serialized: a.serialized },
            ),
            last: st.last,
        }
    } else if a.references == 1 {
        MarkState {
            anchors: st.anchors.update(
                index - 1,
                YamlAnchorsT {
                    references: 2,
                    anchor: (st.last + 1) as i32,
                    serialized: a.serialized,
                },
            ),
            last: st.last + 1,
        }
    } else {
        st
    }
}

/// The marking pass from node `index`: visit it, and on its first visit,
/// its children in order. `fuel` bounds the depth; it never runs out when it
/// exceeds the number of nodes not reached yet.
pub open spec fn mark_node(nodes: Seq<NodeView>, st: MarkState, index: int, fuel: nat) -> MarkState
    decreases fuel, 0nat, 0nat,
{
    let first = st.anchors[index - 1].references == 0;
    let st1 = visit(st, index);
    if first && fuel > 0 {
        match nodes[index - 1].content {
            NodeContent::Sequence { items, .. } => mark_items(nodes, st1, items, (fuel - 1) as nat),
            NodeContent::Mapping { pairs, .. } => mark_pairs(nodes, st1, pairs, (fuel - 1) as nat),
            _ => st1,
        }
    } else {
        st1
    }
}

/// The marking pass over the items of a sequence, in order.
pub open spec fn mark_items(
    nodes: Seq<NodeView>,
    st: MarkState,
    items: Seq<YamlNodeItemT>,
    fuel: nat,
) -> MarkState
    decreases fuel, 1nat, items.len(),
{
    if items.len() == 0 {
        st
    } else {
        mark_node(nodes, mark_items(nodes, st, items.drop_last(), fuel), items.last() as int, fuel)
    }
}

/// The marking pass over the pairs of a mapping, key before value.
pub open spec fn mark_pairs(
    nodes: Seq<NodeView>,
    st: MarkState,
    pairs: Seq<YamlNodePairT>,
    fuel: nat,
) -> MarkState
    decreases fuel, 1nat, pairs.len(),
{
    if pairs.len() == 0 {
        st
    } else {
        let s = mark_pairs(nodes, st, pairs.drop_last(), fuel);
        mark_node(
            nodes,
            mark_node(nodes, s, pairs.last().key as int, fuel),
            pairs.last().value as int,
            fuel,
        )
    }
}

/// What the marking functions keep: the table's length, the last anchor id
/// as the number of labeled nodes, the serialized flags, and the rest of the
/// emitter.
pub open spec fn mark_kept(e: YamlEmitterT, f: YamlEmitterT) -> bool {
    &&& f.anchors@.len() == e.anchors@.len()
    &&& f.last_anchor_id == count_where(f.anchors@, labeled())
    &&& count_where(f.anchors@, unvisited()) <= count_where(e.anchors@, unvisited())
    &&& f.events == e.events
    &&& f.opened == e.opened
    &&& f.closed == e.closed
    &&& f.error == e.error
    &&& f.problem == e.problem
}

fn yaml_emitter_anchor_node_sub(emitter: &mut YamlEmitterT, index: YamlNodeItemT)
    requires
        1 <= index <= old(emitter).anchors@.len(),
        old(emitter).anchors@.len() < i32::MAX,
        old(emitter).last_anchor_id == count_where(old(emitter).anchors@, labeled()),
    ensures
        mark_state(*final(emitter)) == visit(mark_state(*old(emitter)), index as int),
        mark_kept(*old(emitter), *final(emitter)),
        old(emitter).anchors@[index - 1].references == 0 ==> count_where(
            final(emitter).anchors@,
            unvisited(),
        ) + 1 == count_where(old(emitter).anchors@, unvisited()),
{
    let i = (index - 1) as usize;
    let a = emitter.anchors[i];
    if a.references == 0 {
        let b = YamlAnchorsT { references: 1, anchor: a.anchor, serialized: a.serialized };
        proof {
            lemma_count_update(emitter.anchors@, i as int, b, labeled());
            lemma_count_update(emitter.anchors@, i as int, b, unvisited());
        }
        emitter.anchors.set(i, b);
    } else if a.references == 1 {
        let ghost b0 = YamlAnchorsT { references: 2, anchor: 0, serialized: a.serialized };
        proof {
            lemma_count_update(emitter.anchors@, i as int, b0, labeled());
            lemma_count_bound(emitter.anchors@.update(i as int, b0), labeled());
        }
        let id = emitter.last_anchor_id + 1;
        let b = YamlAnchorsT { references: 2, anchor: id, serialized: a.serialized };
        proof {
            lemma_count_update(emitter.anchors@, i as int, b, labeled());
            lemma_count_update(emitter.anchors@, i as int, b, unvisited());
        }
        emitter.last_anchor_id = id;
        emitter.anchors.set(i, b);
    }
}

fn yaml_emitter_anchor_node(
    emitter: &mut YamlEmitterT,
    document: &YamlDocumentT,
    index: YamlNodeItemT,
    Ghost(fuel): Ghost<nat>,
)
    requires
        document@.wf(),
        1 <= index <= document.nodes@.len(),
        old(emitter).anchors@.len() == document.nodes@.len(),
        old(emitter).last_anchor_id == count_where(old(emitter).anchors@, labeled()),
        fuel > count_where(old(emitter).anchors@, unvisited()),
    ensures
        mark_state(*final(emitter)) == mark_node(
            document@.nodes,
            mark_state(*old(emitter)),
            index as int,
            fuel,
        ),
        mark_kept(*old(emitter), *final(emitter)),
    decreases fuel,
{
    let ghost nodes = document@.nodes;
    let ghost st0 = mark_state(*emitter);
    let i = (index - 1) as usize;
    let first = emitter.anchors[i].references == 0;
    yaml_emitter_anchor_node_sub(emitter, index);
    if !first {
        return;
    }
    let ghost st1 = mark_state(*emitter);
    let ghost mid = *emitter;
    let node = &document.nodes.items[i];
    proof {
        assert(nodes[i as int] == node@);
    }
    if node.type_ == YamlNodeTypeT::YamlSequenceNode {
        let items = &node.data.sequence.items.items;
        let mut j: usize = 0;
        while j < items.len()
            invariant
                document@.wf(),
                nodes == document@.nodes,
                node@ == nodes[i as int],
                items@ == node.data.sequence.items@,
                node.type_ == YamlNodeTypeT::YamlSequenceNode,
                0 <= i < nodes.len(),
                fuel > 0,
                j <= items@.len(),
                mark_state(*emitter) == mark_items(
                    nodes,
                    st1,
                    items@.subrange(0, j as int),
                    (fuel - 1) as nat,
                ),
                mark_kept(mid, *emitter),
                count_where(mid.anchors@, unvisited()) < fuel - 1,
                emitter.anchors@.len() == nodes.len(),
            decreases items@.len() - j,
        {
            proof {
                assert(children(nodes[i as int]) == items@);
                assert(children(nodes[i as int])[j as int] == items@[j as int]);
            }
            yaml_emitter_anchor_node(emitter, document, items[j], Ghost((fuel - 1) as nat));
            j = j + 1;
            proof {
                assert(items@.subrange(0, j as int).drop_last() =~= items@.subrange(
                    0,
                    j - 1 as int,
                ));
            }
        }
        proof {
            assert(items@.subrange(0, items@.len() as int) =~= items@);
        }
    } else if node.type_ == YamlNodeTypeT::YamlMappingNode {
        let pairs = &node.data.mapping.pairs.items;
        let mut j: usize = 0;
        while j < pairs.len()
            invariant
                document@.wf(),
                nodes == document@.nodes,
                node@ == nodes[i as int],
                pairs@ == node.data.mapping.pairs@,
                node.type_ == YamlNodeTypeT::YamlMappingNode,
                0 <= i < nodes.len(),
                fuel > 0,
                j <= pairs@.len(),
                mark_state(*emitter) == mark_pairs(
                    nodes,
                    st1,
                    pairs@.subrange(0, j as int),
                    (fuel - 1) as nat,
                ),
                mark_kept(mid, *emitter),
                count_where(mid.anchors@, unvisited()) < fuel - 1,
                emitter.anchors@.len() == nodes.len(),
            decreases pairs@.len() - j,
        {
            proof {
                lemma_pair_children_index(pairs@, j as int);
                assert(children(nodes[i as int]) == pair_children(pairs@));
                assert(children(nodes[i as int])[2 * j] == pairs@[j as int].key);
                assert(children(nodes[i as int])[2 * j + 1] == pairs@[j as int].value);
            }
            yaml_emitter_anchor_node(emitter, document, pairs[j].key, Ghost((fuel - 1) as nat));
            yaml_emitter_anchor_node(emitter, document, pairs[j].value, Ghost((fuel - 1) as nat));
            j = j + 1;
            proof {
                assert(pairs@.subrange(0, j as int).drop_last() =~= pairs@.subrange(
                    0,
                    j - 1 as int,
                ));
            }
        }
        proof {
            assert(pairs@.subrange(0, pairs@.len() as int) =~= pairs@);
        }
    }
}

/// The anchor a node's first event carries, if the node got an id.
pub open spec fn anchor_of(a: YamlAnchorsT) -> Option<Seq<u8>> {
    if a.anchor > 0 {
        Some(anchor_name(a.anchor))
    } else {
        None
    }
}

/// The anchor an alias to a node names.
pub open spec fn alias_name(a: YamlAnchorsT) -> Seq<u8> {
    if a.anchor > 0 {
        anchor_name(a.anchor)
    } else {
        Seq::empty()
    }
}

/// The entry with the serialized flag set.
pub open spec fn serialize(a: YamlAnchorsT) -> YamlAnchorsT {
    YamlAnchorsT { references: a.references, anchor: a.anchor, serialized: true }
}

/// The events of node `index`: an alias if it was emitted before; else its
/// scalar event, or its start event, its children's events and its end
/// event. `fuel` bounds the depth as in the marking pass.
pub open spec fn dump_node(
    nodes: Seq<NodeView>,
    st: Seq<YamlAnchorsT>,
    index: int,
    fuel: nat,
) -> (Seq<EventView>, Seq<YamlAnchorsT>)
    decreases fuel, 0nat, 0nat,
{
    let a = st[index - 1];
    if a.serialized {
        (seq![EventView::Alias { anchor: alias_name(a) }], st)
    } else {
        let st1 = st.update(index - 1, serialize(a));
        let n = nodes[index - 1];
        match n.content {
            NodeContent::Scalar { value, style } => (
                seq![
                    EventView::Scalar {
                        anchor: anchor_of(a),
                        tag: Some(n.tag),
                        value,
                        plain_implicit: n.tag == str_tag(),
                        quoted_implicit: n.tag == str_tag(),
                        style,
                    },
                ],
                st1,
            ),
            NodeContent::Sequence { items, style } => if fuel == 0 {
                (Seq::empty(), st1)
            } else {
                let (body, st2) = dump_items(nodes, st1, items, (fuel - 1) as nat);
                (
                    seq![
                        EventView::SequenceStart {
                            anchor: anchor_of(a),
                            tag: Some(n.tag),
                            implicit: n.tag == seq_tag(),
                            style,
                        },
                    ] + body + seq![EventView::SequenceEnd],
                    st2,
                )
            },
            NodeContent::Mapping { pairs, style } => if fuel == 0 {
                (Seq::empty(), st1)
            } else {
                let (body, st2) = dump_pairs(nodes, st1, pairs, (fuel - 1) as nat);
                (
                    seq![
                        EventView::MappingStart {
                            anchor: anchor_of(a),
                            tag: Some(n.tag),
                            implicit: n.tag == map_tag(),
                            style,
                        },
                    ] + body + seq![EventView::MappingEnd],
                    st2,
                )
            },
            NodeContent::Empty => (Seq::empty(), st1),
        }
    }
}

/// The events of the items of a sequence, in order.
pub open spec fn dump_items(
    nodes: Seq<NodeView>,
    st: Seq<YamlAnchorsT>,
    items: Seq<YamlNodeItemT>,
    fuel: nat,
) -> (Seq<EventView>, Seq<YamlAnchorsT>)
    decreases fuel, 1nat, items.len(),
{
    if items.len() == 0 {
        (Seq::empty(), st)
    } else {
        let (e1, s1) = dump_items(nodes, st, items.drop_last(), fuel);
        let (e2, s2) = dump_node(nodes, s1, items.last() as int, fuel);
        (e1 + e2, s2)
    }
}

/// The events of the pairs of a mapping, key before value.
pub open spec fn dump_pairs(
    nodes: Seq<NodeView>,
    st: Seq<YamlAnchorsT>,
    pairs: Seq<YamlNodePairT>,
    fuel: nat,
) -> (Seq<EventView>, Seq<YamlAnchorsT>)
    decreases fuel, 1nat, pairs.len(),
{
    if pairs.len() == 0 {
        (Seq::empty(), st)
    } else {
        let (e1, s1) = dump_pairs(nodes, st, pairs.drop_last(), fuel);
        let (e2, s2) = dump_node(nodes, s1, pairs.last().key as int, fuel);
        let (e3, s3) = dump_node(nodes, s2, pairs.last().value as int, fuel);
        (e1 + e2 + e3, s3)
    }
}

/// The table the decomposer starts from: nothing reached, nothing labeled,
/// nothing emitted.
pub open spec fn initial_anchors(n: nat) -> Seq<YamlAnchorsT> {
    Seq::new(n, |i: int| YamlAnchorsT { references: 0, anchor: 0, serialized: false })
}

/// The events of the nodes of a document: the marking pass from the root,
/// then the emitting pass from the root.
pub open spec fn node_events(nodes: Seq<NodeView>) -> Seq<EventView> {
    let n = nodes.len();
    let marked = mark_node(nodes, MarkState { anchors: initial_anchors(n), last: 0 }, 1, n + 1);
    dump_node(nodes, marked.anchors, 1, n + 1).0
}

/// The events of a document that has nodes.
pub open spec fn document_events(d: DocumentView) -> Seq<EventView> {
    seq![
        EventView::DocumentStart {
            version_directive: d.version_directive,
            tag_directives: d.tag_directives,
            implicit: d.start_implicit,
        },
    ] + node_events(d.nodes) + seq![EventView::DocumentEnd { implicit: d.end_implicit }]
}

/// `f` holds the events of `e`, then `evs`, all with zero marks.
pub open spec fn appended(e: YamlEmitterT, f: YamlEmitterT, evs: Seq<EventView>) -> bool {
    &&& f.events@.len() == e.events@.len() + evs.len()
    &&& f.events@.subrange(0, e.events@.len() as int) == e.events@
    &&& forall|i: int|
        0 <= i < evs.len() ==> {
            &&& (#[trigger] f.events@[e.events@.len() + i])@ == evs[i]
            &&& f.events@[e.events@.len() + i].start_mark == zero_mark()
            &&& f.events@[e.events@.len() + i].end_mark == zero_mark()
        }
}

/// Appending in two steps appends the concatenation.
pub proof fn lemma_appended_trans(
    e: YamlEmitterT,
    f: YamlEmitterT,
    g: YamlEmitterT,
    a: Seq<EventView>,
    b: Seq<EventView>,
)
    requires
        appended(e, f, a),
        appended(f, g, b),
    ensures
        appended(e, g, a + b),
{
    assert(g.events@.subrange(0, e.events@.len() as int) =~= g.events@.subrange(
        0,
        f.events@.len() as int,
    ).subrange(0, e.events@.len() as int));
    assert forall|i: int| 0 <= i < (a + b).len() implies {
        &&& (#[trigger] g.events@[e.events@.len() + i])@ == (a + b)[i]
        &&& g.events@[e.events@.len() + i].start_mark == zero_mark()
        &&& g.events@[e.events@.len() + i].end_mark == zero_mark()
    } by {
        if i < a.len() {
            assert(g.events@[e.events@.len() + i] == g.events@.subrange(
                0,
                f.events@.len() as int,
            )[e.events@.len() + i]);
            assert(f.events@[e.events@.len() + i]@ == a[i]);
        } else {
            let k = i - a.len();
            assert(g.events@[f.events@.len() + k]@ == b[k]);
        }
    }
}

/// Nothing appended.
pub proof fn lemma_appended_none(e: YamlEmitterT)
    ensures
        appended(e, e, Seq::empty()),
{
    assert(e.events@.subrange(0, e.events@.len() as int) =~= e.events@);
}

/// What the emitting functions keep of the emitter.
pub open spec fn emit_kept(e: YamlEmitterT, f: YamlEmitterT) -> bool {
    &&& f.opened == e.opened
    &&& f.closed == e.closed
    &&& f.last_anchor_id == e.last_anchor_id
    &&& f.error == e.error
    &&& f.problem == e.problem
}

/// Hand one event to the sink. A closed stream takes no more events.
pub fn yaml_emitter_emit(emitter: &mut YamlEmitterT, event: YamlEventT) -> (r: Success)
    ensures
        r.ok == !old(emitter).closed,
        r.ok ==> final(emitter).events@ == old(emitter).events@.push(event),
        !r.ok ==> final(emitter).events == old(emitter).events,
        !r.ok ==> final(emitter).error == YamlErrorTypeT::YamlEmitterError,
        !r.ok ==> final(emitter).problem == Some("expected nothing after STREAM-END"),
        r.ok ==> final(emitter).error == old(emitter).error,
        r.ok ==> final(emitter).problem == old(emitter).problem,
        final(emitter).opened == old(emitter).opened,
        final(emitter).closed == old(emitter).closed,
        final(emitter).anchors == old(emitter).anchors,
        final(emitter).last_anchor_id == old(emitter).last_anchor_id,
{
    if emitter.closed {
        emitter.error = YamlErrorTypeT::YamlEmitterError;
        emitter.problem = Some("expected nothing after STREAM-END");
        return Success { ok: false };
    }
    emitter.events.push(event);
    Success { ok: true }
}

/// Emit one synthesized event to an open stream.
fn yaml_emitter_emit_synthesized(
    emitter: &mut YamlEmitterT,
    event: YamlEventT,
) -> (r: Success)
    requires
        !old(emitter).closed,
        event.start_mark == zero_mark(),
        event.end_mark == zero_mark(),
    ensures
        r.ok,
        appended(*old(emitter), *final(emitter), seq![event@]),
        emit_kept(*old(emitter), *final(emitter)),
        final(emitter).anchors == old(emitter).anchors,
{
    let ghost e0 = *emitter;
    let r = yaml_emitter_emit(emitter, event);
    proof {
        assert(emitter.events@.subrange(0, e0.events@.len() as int) =~= e0.events@);
        assert(emitter.events@[e0.events@.len() + 0int] == event);
    }
    r
}

fn yaml_emitter_generate_anchor(anchor_id: i32) -> (r: Vec<u8>)
    requires
        anchor_id >= 0,
    ensures
        r@ == anchor_name(anchor_id),
{
    let mut w = WriteToPtr::new();
    let prefix: Vec<u8> = vec![105u8, 100u8];
    w.write_str(prefix.as_slice());
    w.write_fmt(anchor_id as u32, 3);
    proof {
        assert(w.buffer@ =~= anchor_name(anchor_id));
    }
    w.buffer
}

fn yaml_emitter_dump_alias(emitter: &mut YamlEmitterT, anchor: Option<Vec<u8>>) -> (r: Success)
    requires
        !old(emitter).closed,
    ensures
        r.ok,
        appended(
            *old(emitter),
            *final(emitter),
            seq![
                EventView::Alias {
                    anchor: match opt_bytes(anchor) {
                        Some(a) => a,
                        None => Seq::empty(),
                    },
                },
            ],
        ),
        emit_kept(*old(emitter), *final(emitter)),
        final(emitter).anchors == old(emitter).anchors,
{
    let name = match anchor {
        Some(a) => a,
        None => Vec::new(),
    };
    yaml_emitter_emit_synthesized(emitter, yaml_alias_event_initialize(name))
}

fn yaml_emitter_dump_scalar(
    emitter: &mut YamlEmitterT,
    node: &YamlNodeT,
    anchor: Option<Vec<u8>>,
) -> (r: Success)
    requires
        !old(emitter).closed,
        node.type_ == YamlNodeTypeT::YamlScalarNode,
    ensures
        r.ok,
        appended(
            *old(emitter),
            *final(emitter),
            seq![
                EventView::Scalar {
                    anchor: opt_bytes(anchor),
                    tag: Some(node.tag@),
                    value: node.data.scalar.value@,
                    plain_implicit: node.tag@ == str_tag(),
                    quoted_implicit: node.tag@ == str_tag(),
                    style: node.data.scalar.style,
                },
            ],
        ),
        emit_kept(*old(emitter), *final(emitter)),
        final(emitter).anchors == old(emitter).anchors,
{
    let plain_implicit = bytes_equal(&node.tag, &yaml_str_tag());
    let quoted_implicit = bytes_equal(&node.tag, &yaml_str_tag());
    let event = yaml_scalar_event_initialize(
        anchor,
        Some(copy_bytes(&node.tag)),
        copy_bytes(&node.data.scalar.value),
        plain_implicit,
        quoted_implicit,
        node.data.scalar.style,
    );
    yaml_emitter_emit_synthesized(emitter, event)
}

/// What the node-dumping functions promise.
pub open spec fn dumped(
    e: YamlEmitterT,
    f: YamlEmitterT,
    r: Success,
    out: (Seq<EventView>, Seq<YamlAnchorsT>),
) -> bool {
    &&& r.ok
    &&& appended(e, f, out.0)
    &&& f.anchors@ == out.1
    &&& f.anchors@.len() == e.anchors@.len()
    &&& count_where(f.anchors@, unserialized()) <= count_where(e.anchors@, unserialized())
    &&& emit_kept(e, f)
}

fn yaml_emitter_dump_sequence(
    emitter: &mut YamlEmitterT,
    document: &YamlDocumentT,
    index: YamlNodeItemT,
    anchor: Option<Vec<u8>>,
    Ghost(fuel): Ghost<nat>,
) -> (r: Success)
    requires
        document@.wf(),
        1 <= index <= document.nodes@.len(),
        document.nodes@[index - 1].type_ == YamlNodeTypeT::YamlSequenceNode,
        old(emitter).anchors@.len() == document.nodes@.len(),
        fuel > 0,
        fuel - 1 > count_where(old(emitter).anchors@, unserialized()),
        !old(emitter).closed,
    ensures
        ({
            let n = document@.nodes[index - 1];
            let (body, st) = dump_items(
                document@.nodes,
                old(emitter).anchors@,
                document.nodes@[index - 1].data.sequence.items@,
                (fuel - 1) as nat,
            );
            dumped(
                *old(emitter),
                *final(emitter),
                r,
                (
                    seq![
                        EventView::SequenceStart {
                            anchor: opt_bytes(anchor),
                            tag: Some(n.tag),
                            implicit: n.tag == seq_tag(),
                            style: document.nodes@[index - 1].data.sequence.style,
                        },
                    ] + body + seq![EventView::SequenceEnd],
                    st,
                ),
            )
        }),
    decreases fuel, 0nat,
{
    let ghost nodes = document@.nodes;
    let ghost e0 = *emitter;
    let i = (index - 1) as usize;
    let node = &document.nodes.items[i];
    proof {
        assert(nodes[i as int] == node@);
    }
    let implicit = bytes_equal(&node.tag, &yaml_seq_tag());
    let start = yaml_sequence_start_event_initialize(
        anchor,
        Some(copy_bytes(&node.tag)),
        implicit,
        node.data.sequence.style,
    );
    yaml_emitter_emit_synthesized(emitter, start);
    let ghost e1 = *emitter;
    let ghost head = seq![start@];
    let items = &node.data.sequence.items.items;
    let mut j: usize = 0;
    proof {
        lemma_appended_none(e1);
    }
    while j < items.len()
        invariant
            document@.wf(),
            nodes == document@.nodes,
            node@ == nodes[i as int],
            items@ == node.data.sequence.items@,
            node.type_ == YamlNodeTypeT::YamlSequenceNode,
            0 <= i < nodes.len(),
            j <= items@.len(),
            !emitter.closed,
            emitter.anchors@.len() == nodes.len(),
            appended(e1, *emitter, dump_items(nodes, e0.anchors@, items@.subrange(0, j as int), (fuel - 1) as nat).0),
            emitter.anchors@ == dump_items(nodes, e0.anchors@, items@.subrange(0, j as int), (fuel - 1) as nat).1,
            count_where(emitter.anchors@, unserialized()) <= count_where(e0.anchors@, unserialized()),
            fuel - 1 > count_where(e0.anchors@, unserialized()),
            emit_kept(e1, *emitter),
        decreases items@.len() - j,
    {
        proof {
            assert(children(nodes[i as int]) == items@);
            assert(children(nodes[i as int])[j as int] == items@[j as int]);
            assert(items@.subrange(0, j + 1 as int).drop_last() =~= items@.subrange(0, j as int));
        }
        let ghost before = *emitter;
        yaml_emitter_dump_node(emitter, document, items[j], Ghost((fuel - 1) as nat));
        proof {
            let prev = dump_items(nodes, e0.anchors@, items@.subrange(0, j as int), (fuel - 1) as nat);
            let step = dump_node(nodes, prev.1, items@[j as int] as int, (fuel - 1) as nat);
            lemma_appended_trans(e1, before, *emitter, prev.0, step.0);
        }
        j = j + 1;
    }
    proof {
        assert(items@.subrange(0, items@.len() as int) =~= items@);
    }
    let ghost e2 = *emitter;
    yaml_emitter_emit_synthesized(emitter, yaml_sequence_end_event_initialize());
    proof {
        let body = dump_items(nodes, e0.anchors@, items@, (fuel - 1) as nat).0;
        lemma_appended_trans(e1, e2, *emitter, body, seq![EventView::SequenceEnd]);
        lemma_appended_trans(e0, e1, *emitter, head, body + seq![EventView::SequenceEnd]);
        assert(head + (body + seq![EventView::SequenceEnd]) =~= head + body + seq![EventView::SequenceEnd]);
    }
    Success { ok: true }
}

fn yaml_emitter_dump_mapping(
    emitter: &mut YamlEmitterT,
    document: &YamlDocumentT,
    index: YamlNodeItemT,
    anchor: Option<Vec<u8>>,
    Ghost(fuel): Ghost<nat>,
) -> (r: Success)
    requires
        document@.wf(),
        1 <= index <= document.nodes@.len(),
        document.nodes@[index - 1].type_ == YamlNodeTypeT::YamlMappingNode,
        old(emitter).anchors@.len() == document.nodes@.len(),
        fuel > 0,
        fuel - 1 > count_where(old(emitter).anchors@, unserialized()),
        !old(emitter).closed,
    ensures
        ({
            let n = document@.nodes[index - 1];
            let (body, st) = dump_pairs(
                document@.nodes,
                old(emitter).anchors@,
                document.nodes@[index - 1].data.mapping.pairs@,
                (fuel - 1) as nat,
            );
            dumped(
                *old(emitter),
                *final(emitter),
                r,
                (
                    seq![
                        EventView::MappingStart {
                            anchor: opt_bytes(anchor),
                            tag: Some(n.tag),
                            implicit: n.tag == map_tag(),
                            style: document.nodes@[index - 1].data.mapping.style,
                        },
                    ] + body + seq![EventView::MappingEnd],
                    st,
                ),
            )
        }),
    decreases fuel, 0nat,
{
    let ghost nodes = document@.nodes;
    let ghost e0 = *emitter;
    let i = (index - 1) as usize;
    let node = &document.nodes.items[i];
    proof {
        assert(nodes[i as int] == node@);
    }
    let implicit = bytes_equal(&node.tag, &yaml_map_tag());
    let start = yaml_mapping_start_event_initialize(
        anchor,
        Some(copy_bytes(&node.tag)),
        implicit,
        node.data.mapping.style,
    );
    yaml_emitter_emit_synthesized(emitter, start);
    let ghost e1 = *emitter;
    let ghost head = seq![start@];
    let pairs = &node.data.mapping.pairs.items;
    let mut j: usize = 0;
    proof {
        lemma_appended_none(e1);
    }
    while j < pairs.len()
        invariant
            document@.wf(),
            nodes == document@.nodes,
            node@ == nodes[i as int],
            pairs@ == node.data.mapping.pairs@,
            node.type_ == YamlNodeTypeT::YamlMappingNode,
            0 <= i < nodes.len(),
            j <= pairs@.len(),
            !emitter.closed,
            emitter.anchors@.len() == nodes.len(),
            appended(e1, *emitter, dump_pairs(nodes, e0.anchors@, pairs@.subrange(0, j as int), (fuel - 1) as nat).0),
            emitter.anchors@ == dump_pairs(nodes, e0.anchors@, pairs@.subrange(0, j as int), (fuel - 1) as nat).1,
            count_where(emitter.anchors@, unserialized()) <= count_where(e0.anchors@, unserialized()),
            fuel - 1 > count_where(e0.anchors@, unserialized()),
            emit_kept(e1, *emitter),
        decreases pairs@.len() - j,
    {
        proof {
            lemma_pair_children_index(pairs@, j as int);
            assert(children(nodes[i as int]) == pair_children(pairs@));
            assert(children(nodes[i as int])[2 * j] == pairs@[j as int].key);
            assert(children(nodes[i as int])[2 * j + 1] == pairs@[j as int].value);
            assert(pairs@.subrange(0, j + 1 as int).drop_last() =~= pairs@.subrange(0, j as int));
        }
        let ghost before = *emitter;
        yaml_emitter_dump_node(emitter, document, pairs[j].key, Ghost((fuel - 1) as nat));
        let ghost middle = *emitter;
        yaml_emitter_dump_node(emitter, document, pairs[j].value, Ghost((fuel - 1) as nat));
        proof {
            let prev = dump_pairs(nodes, e0.anchors@, pairs@.subrange(0, j as int), (fuel - 1) as nat);
            let k = dump_node(nodes, prev.1, pairs@[j as int].key as int, (fuel - 1) as nat);
            let v = dump_node(nodes, k.1, pairs@[j as int].value as int, (fuel - 1) as nat);
            lemma_appended_trans(e1, before, middle, prev.0, k.0);
            lemma_appended_trans(e1, middle, *emitter, prev.0 + k.0, v.0);
        }
        j = j + 1;
    }
    proof {
        assert(pairs@.subrange(0, pairs@.len() as int) =~= pairs@);
    }
    let ghost e2 = *emitter;
    yaml_emitter_emit_synthesized(emitter, yaml_mapping_end_event_initialize());
    proof {
        let body = dump_pairs(nodes, e0.anchors@, pairs@, (fuel - 1) as nat).0;
        lemma_appended_trans(e1, e2, *emitter, body, seq![EventView::MappingEnd]);
        lemma_appended_trans(e0, e1, *emitter, head, body + seq![EventView::MappingEnd]);
        assert(head + (body + seq![EventView::MappingEnd]) =~= head + body + seq![EventView::MappingEnd]);
    }
    Success { ok: true }
}

fn yaml_emitter_dump_node(
    emitter: &mut YamlEmitterT,
    document: &YamlDocumentT,
    index: YamlNodeItemT,
    Ghost(fuel): Ghost<nat>,
) -> (r: Success)
    requires
        document@.wf(),
        1 <= index <= document.nodes@.len(),
        old(emitter).anchors@.len() == document.nodes@.len(),
        fuel > count_where(old(emitter).anchors@, unserialized()),
        !old(emitter).closed,
    ensures
        dumped(
            *old(emitter),
            *final(emitter),
            r,
            dump_node(document@.nodes, old(emitter).anchors@, index as int, fuel),
        ),
    decreases fuel, 1nat,
{
    let ghost nodes = document@.nodes;
    let i = (index - 1) as usize;
    let a = emitter.anchors[i];
    let anchor = if a.anchor > 0 {
        Some(yaml_emitter_generate_anchor(a.anchor))
    } else {
        None
    };
    proof {
        assert(opt_bytes(anchor) == anchor_of(a));
    }
    if a.serialized {
        return yaml_emitter_dump_alias(emitter, anchor);
    }
    proof {
        lemma_count_update(emitter.anchors@, i as int, serialize(a), unserialized());
    }
    emitter.anchors.set(i, serialize_entry(a));
    let node = &document.nodes.items[i];
    proof {
        assert(nodes[i as int] == node@);
    }
    if node.type_ == YamlNodeTypeT::YamlScalarNode {
        yaml_emitter_dump_scalar(emitter, node, anchor)
    } else if node.type_ == YamlNodeTypeT::YamlSequenceNode {
        yaml_emitter_dump_sequence(emitter, document, index, anchor, Ghost(fuel))
    } else if node.type_ == YamlNodeTypeT::YamlMappingNode {
        yaml_emitter_dump_mapping(emitter, document, index, anchor, Ghost(fuel))
    } else {
        proof {
            assert(!(nodes[i as int].content is Empty));
        }
        Success { ok: true }
    }
}

fn serialize_entry(a: YamlAnchorsT) -> (r: YamlAnchorsT)
    ensures
        r == serialize(a),
{
    YamlAnchorsT { references: a.references, anchor: a.anchor, serialized: true }
}

/// No entry satisfies `f`: the count is zero.
pub proof fn lemma_count_none(s: Seq<YamlAnchorsT>, f: spec_fn(YamlAnchorsT) -> bool)
    requires
        forall|i: int| 0 <= i < s.len() ==> !f(#[trigger] s[i]),
    ensures
        count_where(s, f) == 0,
    decreases s.len(),
{
    if s.len() > 0 {
        lemma_count_none(s.drop_last(), f);
    }
}

/// Start a YAML stream: emit stream-start, once.
pub fn yaml_emitter_open(emitter: &mut YamlEmitterT) -> (r: Success)
    ensures
        old(emitter).opened ==> r.ok && *final(emitter) == *old(emitter),
        !old(emitter).opened && old(emitter).closed ==> !r.ok && final(emitter).events
            == old(emitter).events && !final(emitter).opened && final(emitter).error
            == YamlErrorTypeT::YamlEmitterError,
        !old(emitter).opened && !old(emitter).closed ==> r.ok && final(emitter).opened && appended(
            *old(emitter),
            *final(emitter),
            seq![EventView::StreamStart { encoding: YamlEncodingT::YamlAnyEncoding }],
        ),
        final(emitter).closed == old(emitter).closed,
        final(emitter).anchors == old(emitter).anchors,
        final(emitter).last_anchor_id == old(emitter).last_anchor_id,
{
    if emitter.opened {
        return Success { ok: true };
    }
    if emitter.closed {
        return yaml_emitter_emit(
            emitter,
            yaml_stream_start_event_initialize(YamlEncodingT::YamlAnyEncoding),
        );
    }
    let r = yaml_emitter_emit_synthesized(
        emitter,
        yaml_stream_start_event_initialize(YamlEncodingT::YamlAnyEncoding),
    );
    emitter.opened = true;
    r
}

/// Finish a YAML stream: emit stream-end, once.
pub fn yaml_emitter_close(emitter: &mut YamlEmitterT) -> (r: Success)
    requires
        old(emitter).opened,
    ensures
        r.ok,
        final(emitter).opened,
        final(emitter).closed,
        old(emitter).closed ==> *final(emitter) == *old(emitter),
        !old(emitter).closed ==> appended(
            *old(emitter),
            *final(emitter),
            seq![EventView::StreamEnd],
        ),
        final(emitter).anchors == old(emitter).anchors,
        final(emitter).last_anchor_id == old(emitter).last_anchor_id,
{
    if emitter.closed {
        return Success { ok: true };
    }
    let r = yaml_emitter_emit_synthesized(emitter, yaml_stream_end_event_initialize());
    emitter.closed = true;
    r
}

fn yaml_emitter_delete_document_and_anchors(
    emitter: &mut YamlEmitterT,
    document: &mut YamlDocumentT,
)
    ensures
        final(document)@ == empty_document(),
        final(emitter).anchors@.len() == 0,
        final(emitter).last_anchor_id == 0,
        final(emitter).events == old(emitter).events,
        final(emitter).opened == old(emitter).opened,
        final(emitter).closed == old(emitter).closed,
        final(emitter).error == old(emitter).error,
        final(emitter).problem == old(emitter).problem,
{
    emitter.anchors = Vec::new();
    emitter.last_anchor_id = 0;
    yaml_document_delete(document);
}

/// What decomposing a document emits after the stream is open.
pub open spec fn dump_tail(d: DocumentView, closed: bool) -> Seq<EventView> {
    if d.nodes.len() == 0 {
        if closed {
            Seq::empty()
        } else {
            seq![EventView::StreamEnd]
        }
    } else {
        document_events(d)
    }
}

/// Emit a YAML document, opening the stream first if needed.
///
/// A document with no nodes closes the stream instead. The document is
/// consumed: it comes back empty whether the call succeeds or fails.
pub fn yaml_emitter_dump(emitter: &mut YamlEmitterT, document: &mut YamlDocumentT) -> (r: Success)
    requires
        old(document)@.wf(),
        old(emitter).closed ==> old(emitter).opened,
    ensures
        ({
            let d = old(document)@;
            let opening = if old(emitter).opened {
                Seq::empty()
            } else {
                seq![EventView::StreamStart { encoding: YamlEncodingT::YamlAnyEncoding }]
            };
            &&& final(document)@ == empty_document()
            &&& final(emitter).opened
            &&& r.ok == (d.nodes.len() == 0 || !old(emitter).closed)
            &&& r.ok ==> appended(*old(emitter), *final(emitter), opening + dump_tail(d, old(emitter).closed))
            &&& !r.ok ==> final(emitter).events == old(emitter).events && final(emitter).error
                == YamlErrorTypeT::YamlEmitterError
            &&& final(emitter).closed == (old(emitter).closed || d.nodes.len() == 0)
            &&& final(emitter).anchors@.len() == 0
            &&& final(emitter).last_anchor_id == 0
        }),
{
    let ghost d = document@;
    let ghost e0 = *emitter;
    yaml_emitter_open(emitter);
    let ghost e1 = *emitter;
    proof {
        if e0.opened {
            lemma_appended_none(e0);
        }
    }
    if document.nodes.items.len() == 0 {
        let ghost before = *emitter;
        let r = yaml_emitter_close(emitter);
        proof {
            if before.closed {
                lemma_appended_none(before);
            }
            if e0.opened {
                lemma_appended_trans(e0, before, *emitter, Seq::empty(), dump_tail(d, e0.closed));
                assert(Seq::<EventView>::empty() + dump_tail(d, e0.closed) =~= dump_tail(d, e0.closed));
            } else {
                lemma_appended_trans(
                    e0,
                    before,
                    *emitter,
                    seq![EventView::StreamStart { encoding: YamlEncodingT::YamlAnyEncoding }],
                    dump_tail(d, e0.closed),
                );
            }
        }
        yaml_emitter_delete_document_and_anchors(emitter, document);
        return r;
    }
    let n = document.nodes.items.len();
    let mut tags: Vec<YamlTagDirectiveT> = Vec::new();
    std::mem::swap(&mut tags, &mut document.tag_directives.items);
    let start = yaml_document_start_event_initialize(
        document.version_directive,
        tags,
        document.start_implicit,
    );
    if emitter.closed {
        let r = yaml_emitter_emit(emitter, start);
        yaml_emitter_delete_document_and_anchors(emitter, document);
        return r;
    }
    let mut anchors: Vec<YamlAnchorsT> = Vec::new();
    let mut k: usize = 0;
    while k < n
        invariant
            k <= n,
            anchors@ == initial_anchors(k as nat),
        decreases n - k,
    {
        anchors.push(YamlAnchorsT { references: 0, anchor: 0, serialized: false });
        k = k + 1;
        proof {
            assert(anchors@ =~= initial_anchors(k as nat));
        }
    }
    emitter.anchors = anchors;
    emitter.last_anchor_id = 0;
    let ghost e2 = *emitter;
    proof {
        lemma_appended_none(e1);
    }
    yaml_emitter_emit_synthesized(emitter, start);
    let ghost e3 = *emitter;
    proof {
        lemma_count_none(emitter.anchors@, labeled());
        lemma_count_bound(emitter.anchors@, unvisited());
    }
    yaml_emitter_anchor_node(emitter, document, 1, Ghost((n + 1) as nat));
    let ghost e4 = *emitter;
    proof {
        lemma_count_bound(emitter.anchors@, unserialized());
        assert(document@.nodes == d.nodes);
    }
    yaml_emitter_dump_node(emitter, document, 1, Ghost((n + 1) as nat));
    let ghost e5 = *emitter;
    let end = yaml_document_end_event_initialize(document.end_implicit);
    yaml_emitter_emit_synthesized(emitter, end);
    proof {
        let head = seq![start@];
        let body = node_events(d.nodes);
        let tail = seq![end@];
        assert(e3.events == e4.events);
        assert(appended(e3, e4, Seq::empty())) by {
            lemma_appended_none(e3);
        }
        lemma_appended_trans(e3, e4, e5, Seq::empty(), body);
        assert(Seq::<EventView>::empty() + body =~= body);
        lemma_appended_trans(e3, e5, *emitter, body, tail);
        lemma_appended_trans(e2, e3, *emitter, head, body + tail);
        assert(e1.events == e2.events);
        lemma_appended_none(e1);
        assert(appended(e1, e2, Seq::empty()));
        lemma_appended_trans(e1, e2, *emitter, Seq::empty(), head + (body + tail));
        assert(Seq::<EventView>::empty() + (head + (body + tail)) =~= document_events(d));
        let opening = if e0.opened {
            Seq::empty()
        } else {
            seq![EventView::StreamStart { encoding: YamlEncodingT::YamlAnyEncoding }]
        };
        lemma_appended_trans(e0, e1, *emitter, opening, document_events(d));
    }
    yaml_emitter_delete_document_and_anchors(emitter, document);
    Success { ok: true }
}

} // verus!
