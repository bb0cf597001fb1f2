//! The invariant that composition keeps, and why a composed document is
//! well formed.
use vstd::prelude::*;

use crate::dumper::lemma_pair_children_index;
use crate::loader::{
    add_node, attach, close, compose_event, compose_run, pending_key, ComposeState,
    Step,
};
use crate::yaml::{children, pair_children, DocumentView, EventView, NodeContent, NodeView, YamlNodeItemT, YamlNodePairT};

verus! {

/// Is node `i` (counted from 0) among the collections still open?
pub open spec fn is_open(st: ComposeState, i: int) -> bool {
    exists|p: int| 0 <= p < st.parents.len() && st.parents[p] == i + 1
}

/// Does `id` name a node of the state?
pub open spec fn names_node(st: ComposeState, id: YamlNodeItemT) -> bool {
    1 <= id <= st.nodes.len()
}

/// Node `i` is a scalar or collection whose children name nodes; only the
/// last pair of a mapping still open may wait for its value.
pub open spec fn node_ok(st: ComposeState, i: int) -> bool {
    match st.nodes[i].content {
        NodeContent::Empty => false,
        NodeContent::Scalar { .. } => true,
        NodeContent::Sequence { items, .. } => forall|j: int|
            0 <= j < items.len() ==> names_node(st, #[trigger] items[j]),
        NodeContent::Mapping { pairs, .. } => {
            &&& forall|j: int|
                0 <= j < pairs.len() ==> names_node(st, (#[trigger] pairs[j]).key) && (names_node(
                    st,
                    pairs[j].value,
                ) || (j == pairs.len() - 1 && pairs[j].value == 0))
            &&& pending_key(pairs) ==> is_open(st, i)
        },
    }
}

/// The invariant of composition.
pub open spec fn state_wf(st: ComposeState) -> bool {
    &&& st.nodes.len() < i32::MAX
    &&& forall|i: int| 0 <= i < st.nodes.len() ==> #[trigger] node_ok(st, i)
    &&& forall|p: int| 0 <= p < st.parents.len() ==> names_node(st, #[trigger] st.parents[p])
    &&& forall|a: int| 0 <= a < st.anchors.len() ==> names_node(st, #[trigger] st.anchors[a].index)
}

/// A node that keeps its content, in a state that keeps or grows its arena
/// and keeps every open collection open, stays in order.
proof fn lemma_node_ok_kept(st: ComposeState, t: ComposeState, i: int)
    requires
        0 <= i < st.nodes.len(),
        st.nodes.len() <= t.nodes.len(),
        i < t.nodes.len(),
        t.nodes[i].content == st.nodes[i].content,
        node_ok(st, i),
        is_open(st, i) ==> is_open(t, i),
    ensures
        node_ok(t, i),
{
    match st.nodes[i].content {
        NodeContent::Sequence { items, .. } => {
            assert forall|j: int| 0 <= j < items.len() implies names_node(t, #[trigger] items[j]) by {
                assert(names_node(st, items[j]));
            }
        },
        NodeContent::Mapping { pairs, .. } => {
            assert forall|j: int| 0 <= j < pairs.len() implies names_node(t, (#[trigger] pairs[j]).key)
                && (names_node(t, pairs[j].value) || (j == pairs.len() - 1 && pairs[j].value == 0)) by {
                assert(names_node(st, pairs[j].key));
            }
        },
        _ => {},
    }
}

proof fn lemma_attach_wf(st: ComposeState, index: YamlNodeItemT)
    requires
        state_wf(st),
        names_node(st, index),
    ensures
        attach(st, index) is Continue ==> state_wf(attach(st, index)->Continue_0),
{
    if attach(st, index) is Continue && st.parents.len() > 0 {
        let t = attach(st, index)->Continue_0;
        let p = st.parents.last();
        assert(is_open(st, p - 1)) by {
            assert(st.parents[st.parents.len() - 1] == p);
        }
        assert forall|i: int| 0 <= i < t.nodes.len() implies #[trigger] node_ok(t, i) by {
            assert(node_ok(st, i));
            if i != p - 1 {
                lemma_node_ok_kept(st, t, i);
            } else {
                match st.nodes[i].content {
                    NodeContent::Sequence { items, .. } => {
                        let items2 = t.nodes[i].content->Sequence_items;
                        assert forall|j: int| 0 <= j < items2.len() implies names_node(t, #[trigger] items2[j]) by {
                            if j < items.len() {
                                assert(items2[j] == items[j]);
                                assert(names_node(st, items[j]));
                            }
                        }
                    },
                    NodeContent::Mapping { pairs, .. } => {
                        let pairs2 = t.nodes[i].content->Mapping_pairs;
                        assert forall|j: int| 0 <= j < pairs2.len() implies names_node(t, (#[trigger] pairs2[j]).key)
                            && (names_node(t, pairs2[j].value) || (j == pairs2.len() - 1 && pairs2[j].value == 0)) by {
                            if j < pairs.len() {
                                assert(names_node(st, pairs[j].key));
                                if j < pairs.len() - 1 || !pending_key(pairs) {
                                    assert(pairs2[j] == pairs[j]);
                                }
                            }
                        }
                    },
                    _ => {},
                }
            }
        }
        assert forall|q: int| 0 <= q < t.parents.len() implies names_node(t, #[trigger] t.parents[q]) by {
            assert(names_node(st, st.parents[q]));
        }
        assert forall|a: int| 0 <= a < t.anchors.len() implies names_node(t, #[trigger] t.anchors[a].index) by {
            assert(names_node(st, st.anchors[a].index));
        }
    }
}

proof fn lemma_add_node_wf(st: ComposeState, node: NodeView, anchor: Option<Seq<u8>>, opens: bool)
    requires
        state_wf(st),
        node.content is Scalar || node.content == (NodeContent::Sequence {
            items: Seq::empty(),
            style: node.content->Sequence_style,
        }) || node.content == (NodeContent::Mapping {
            pairs: Seq::empty(),
            style: node.content->Mapping_style,
        }),
    ensures
        add_node(st, node, anchor, opens) is Continue ==> state_wf(
            add_node(st, node, anchor, opens)->Continue_0,
        ),
{
    if add_node(st, node, anchor, opens) is Continue {
        let index = (st.nodes.len() + 1) as i32;
        let anchors = match anchor {
            Some(a) => st.anchors.push(crate::loader::AnchorView { name: a, index, mark: node.start_mark }),
            None => st.anchors,
        };
        let added = ComposeState { nodes: st.nodes.push(node), parents: st.parents, anchors };
        assert forall|i: int| 0 <= i < added.nodes.len() implies #[trigger] node_ok(added, i) by {
            if i < st.nodes.len() {
                assert(node_ok(st, i));
                assert(added.nodes[i] == st.nodes[i]);
                lemma_node_ok_kept(st, added, i);
            }
        }
        assert forall|q: int| 0 <= q < added.parents.len() implies names_node(added, #[trigger] added.parents[q]) by {
            assert(names_node(st, st.parents[q]));
        }
        assert forall|a: int| 0 <= a < added.anchors.len() implies names_node(added, #[trigger] added.anchors[a].index) by {
            if a < st.anchors.len() {
                assert(names_node(st, st.anchors[a].index));
            }
        }
        assert(state_wf(added));
        lemma_attach_wf(added, index);
        if opens {
            let s = attach(added, index)->Continue_0;
            let t = add_node(st, node, anchor, opens)->Continue_0;
            assert forall|i: int| 0 <= i < t.nodes.len() implies #[trigger] node_ok(t, i) by {
                assert(node_ok(s, i));
                if is_open(s, i) {
                    let p = choose|p: int| 0 <= p < s.parents.len() && s.parents[p] == i + 1;
                    assert(t.parents[p] == i + 1);
                }
                lemma_node_ok_kept(s, t, i);
            }
            assert forall|q: int| 0 <= q < t.parents.len() implies names_node(t, #[trigger] t.parents[q]) by {
                if q < s.parents.len() {
                    assert(names_node(s, s.parents[q]));
                }
            }
            assert forall|a: int| 0 <= a < t.anchors.len() implies names_node(t, #[trigger] t.anchors[a].index) by {
                assert(names_node(s, s.anchors[a].index));
            }
        }
    }
}

proof fn lemma_close_wf(st: ComposeState, mark: crate::yaml::YamlMarkT, mapping: bool)
    requires
        state_wf(st),
    ensures
        close(st, mark, mapping) is Continue ==> state_wf(close(st, mark, mapping)->Continue_0),
{
    if close(st, mark, mapping) is Continue {
        let t = close(st, mark, mapping)->Continue_0;
        let p = st.parents.last();
        assert forall|i: int| 0 <= i < t.nodes.len() implies #[trigger] node_ok(t, i) by {
            assert(node_ok(st, i));
            if i == p - 1 {
                match st.nodes[i].content {
                    NodeContent::Sequence { items, .. } => {
                        assert forall|j: int| 0 <= j < items.len() implies names_node(t, #[trigger] items[j]) by {
                            assert(names_node(st, items[j]));
                        }
                    },
                    NodeContent::Mapping { pairs, .. } => {
                        assert forall|j: int| 0 <= j < pairs.len() implies names_node(t, (#[trigger] pairs[j]).key)
                            && (names_node(t, pairs[j].value) || (j == pairs.len() - 1 && pairs[j].value == 0)) by {
                            assert(names_node(st, pairs[j].key));
                        }
                    },
                    _ => {},
                }
            } else {
                if is_open(st, i) {
                    let q = choose|q: int| 0 <= q < st.parents.len() && st.parents[q] == i + 1;
                    assert(q != st.parents.len() - 1);
                    assert(t.parents[q] == i + 1);
                }
                lemma_node_ok_kept(st, t, i);
            }
        }
        assert forall|q: int| 0 <= q < t.parents.len() implies names_node(t, #[trigger] t.parents[q]) by {
            assert(names_node(st, st.parents[q]));
        }
        assert forall|a: int| 0 <= a < t.anchors.len() implies names_node(t, #[trigger] t.anchors[a].index) by {
            assert(names_node(st, st.anchors[a].index));
        }
    }
}

/// Composing one event keeps the invariant; finishing leaves nothing open.
pub proof fn lemma_compose_event_wf(st: ComposeState, ev: crate::yaml::YamlEventT)
    requires
        state_wf(st),
    ensures
        compose_event(st, ev) is Continue ==> state_wf(compose_event(st, ev)->Continue_0),
        compose_event(st, ev) is Finished ==> state_wf(compose_event(st, ev)->Finished_0)
            && compose_event(st, ev)->Finished_0.parents.len() == 0,
{
    match ev@ {
        EventView::Alias { anchor } => {
            let i = crate::loader::anchor_from(st.anchors, anchor, 0);
            if i >= 0 {
                crate::laws::lemma_anchor_from_range(st.anchors, anchor, 0);
                assert(names_node(st, st.anchors[i].index));
                lemma_attach_wf(st, st.anchors[i].index);
            }
        },
        EventView::Scalar { anchor, tag, value, style, .. } => {
            lemma_add_node_wf(st, NodeView {
                tag: crate::loader::resolve_tag(tag, crate::yaml::str_tag()),
                content: NodeContent::Scalar { value, style },
                start_mark: ev.start_mark,
                end_mark: ev.end_mark,
            }, anchor, false);
        },
        EventView::SequenceStart { anchor, tag, style, .. } => {
            lemma_add_node_wf(st, NodeView {
                tag: crate::loader::resolve_tag(tag, crate::yaml::seq_tag()),
                content: NodeContent::Sequence { items: Seq::empty(), style },
                start_mark: ev.start_mark,
                end_mark: ev.end_mark,
            }, anchor, true);
        },
        EventView::MappingStart { anchor, tag, style, .. } => {
            lemma_add_node_wf(st, NodeView {
                tag: crate::loader::resolve_tag(tag, crate::yaml::map_tag()),
                content: NodeContent::Mapping { pairs: Seq::empty(), style },
                start_mark: ev.start_mark,
                end_mark: ev.end_mark,
            }, anchor, true);
        },
        EventView::SequenceEnd => lemma_close_wf(st, ev.end_mark, false),
        EventView::MappingEnd => lemma_close_wf(st, ev.end_mark, true),
        _ => {},
    }
}

/// A body that composes completely ends in a state that keeps the invariant
/// with nothing left open.
pub proof fn lemma_compose_run_wf(st: ComposeState, events: Seq<crate::yaml::YamlEventT>)
    requires
        state_wf(st),
    ensures
        compose_run(st, events).0 is Finished ==> state_wf(compose_run(st, events).0->Finished_0)
            && compose_run(st, events).0->Finished_0.parents.len() == 0,
    decreases events.len(),
{
    if events.len() > 0 {
        lemma_compose_event_wf(st, events[0]);
        if let Step::Continue(next) = compose_event(st, events[0]) {
            lemma_compose_run_wf(next, events.drop_first());
        }
    }
}

/// A mapping has two children per pair.
proof fn lemma_pair_children_len(pairs: Seq<YamlNodePairT>)
    ensures
        pair_children(pairs).len() == 2 * pairs.len(),
    decreases pairs.len(),
{
    if pairs.len() > 0 {
        lemma_pair_children_len(pairs.drop_last());
    }
}

/// A finished state is a well-formed document.
pub proof fn lemma_finished_document_wf(st: ComposeState, d: DocumentView)
    requires
        state_wf(st),
        st.parents.len() == 0,
        d.nodes == st.nodes,
    ensures
        d.wf(),
{
    assert forall|i: int| 0 <= i < d.nodes.len() implies !((#[trigger] d.nodes[i]).content is Empty) by {
        assert(node_ok(st, i));
    }
    assert forall|i: int, j: int|
        0 <= i < d.nodes.len() && 0 <= j < children(d.nodes[i]).len() implies 1
        <= #[trigger] children(d.nodes[i])[j] <= d.nodes.len() by {
        assert(node_ok(st, i));
        match d.nodes[i].content {
            NodeContent::Sequence { items, .. } => {
                assert(names_node(st, items[j]));
            },
            NodeContent::Mapping { pairs, .. } => {
                let k = j / 2;
                lemma_pair_children_len(pairs);
                lemma_pair_children_index(pairs, k);
                assert(names_node(st, pairs[k].key));
                if pending_key(pairs) {
                    assert(!is_open(st, i));
                }
                if j % 2 == 0 {
                    assert(children(d.nodes[i])[j] == pairs[k].key);
                } else {
                    assert(children(d.nodes[i])[j] == pairs[k].value);
                }
            },
            _ => {},
        }
    }
}

} // verus!
