//! Properties of composition and decomposition, proved over their
//! specifications.
use vstd::prelude::*;

use crate::dumper::{
    anchor_name, anchor_of, count_where, dump_items, dump_node, dump_pairs, serialize, labeled, lemma_count_bound, lemma_count_none, lemma_count_update,
    lemma_pair_children_index, mark_items, mark_node, mark_pairs, visit, MarkState,
};
use crate::composed::{names_node, state_wf};
use crate::fmt::{decimal, zero_padded};
use crate::loader::{anchor_from, attach, compose_event, compose_run, initial_state, resolve_tag, AnchorView, ComposeError, ComposeState, Step};
use crate::yaml::{
    bang_tag, children, map_tag, seq_tag, str_tag, DocumentView, EventView,
    NodeContent, NodeView, YamlAnchorsT, YamlEventT, YamlNodeItemT, YamlNodePairT,
};

verus! {

/// Attaching a node changes the content of one collection and nothing else:
/// the arena keeps its length and every node keeps its tag.
pub proof fn lemma_attach_keeps_tags(st: ComposeState, index: YamlNodeItemT)
    ensures
        attach(st, index) is Continue ==> {
            let s = attach(st, index)->Continue_0;
            &&& s.nodes.len() == st.nodes.len()
            &&& forall|i: int| 0 <= i < st.nodes.len() ==> #[trigger] s.nodes[i].tag == st.nodes[i].tag
            &&& s.parents == st.parents
            &&& s.anchors == st.anchors
        },
{
}

/// The tag that a node event asks for when it names none.
pub open spec fn core_default_tag(ev: EventView) -> Seq<u8> {
    match ev {
        EventView::Scalar { .. } => str_tag(),
        EventView::SequenceStart { .. } => seq_tag(),
        _ => map_tag(),
    }
}

/// The tag an event names, if it is a node event.
pub open spec fn event_tag(ev: EventView) -> Option<Seq<u8>> {
    match ev {
        EventView::Scalar { tag, .. } => tag,
        EventView::SequenceStart { tag, .. } => tag,
        EventView::MappingStart { tag, .. } => tag,
        _ => None,
    }
}

/// Default tagging when composing: a scalar, sequence-start or mapping-start
/// event whose tag is missing or the non-specific `!`, once accepted, adds a
/// node whose tag is the core string, sequence or mapping tag.
pub proof fn law_default_tag_composed(st: ComposeState, ev: YamlEventT)
    requires
        ev@ is Scalar || ev@ is SequenceStart || ev@ is MappingStart,
        event_tag(ev@) is None || event_tag(ev@) == Some(bang_tag()),
        compose_event(st, ev) is Continue,
    ensures
        compose_event(st, ev)->Continue_0.nodes.len() == st.nodes.len() + 1,
        compose_event(st, ev)->Continue_0.nodes[st.nodes.len() as int].tag == core_default_tag(ev@),
{
    let default = core_default_tag(ev@);
    assert(resolve_tag(event_tag(ev@), default) == default);
    let index = (st.nodes.len() + 1) as i32;
    match ev@ {
        EventView::Scalar { anchor, .. } | EventView::SequenceStart { anchor, .. }
        | EventView::MappingStart { anchor, .. } => {
            let anchors = match anchor {
                Some(a) => st.anchors.push(
                    AnchorView { name: a, index, mark: ev.start_mark },
                ),
                None => st.anchors,
            };
            let node = match ev@ {
                EventView::Scalar { value, style, .. } => NodeView {
                    tag: default,
                    content: NodeContent::Scalar { value, style },
                    start_mark: ev.start_mark,
                    end_mark: ev.end_mark,
                },
                EventView::SequenceStart { style, .. } => NodeView {
                    tag: default,
                    content: NodeContent::Sequence { items: Seq::empty(), style },
                    start_mark: ev.start_mark,
                    end_mark: ev.end_mark,
                },
                _ => NodeView {
                    tag: default,
                    content: NodeContent::Mapping {
                        pairs: Seq::empty(),
                        style: ev.data.mapping_start.style,
                    },
                    start_mark: ev.start_mark,
                    end_mark: ev.end_mark,
                },
            };
            let added = ComposeState { nodes: st.nodes.push(node), parents: st.parents, anchors };
            lemma_attach_keeps_tags(added, index);
            assert(added.nodes[st.nodes.len() as int].tag == default);
        },
        _ => {},
    }
}

/// Default tagging when decomposing: the first event of a node not emitted
/// yet is implicit exactly when the node's tag is the core default of its
/// kind; for a scalar both implicit flags agree.
pub proof fn law_default_tag_implicit(
    nodes: Seq<NodeView>,
    st: Seq<YamlAnchorsT>,
    index: int,
    fuel: nat,
)
    requires
        1 <= index <= nodes.len(),
        index <= st.len(),
        !st[index - 1].serialized,
        fuel > 0,
    ensures
        ({
            let n = nodes[index - 1];
            let first = dump_node(nodes, st, index, fuel).0[0];
            &&& n.content is Scalar ==> first is Scalar && first->Scalar_plain_implicit == (n.tag
                == str_tag()) && first->Scalar_quoted_implicit == (n.tag == str_tag())
            &&& n.content is Sequence ==> first is SequenceStart && first->SequenceStart_implicit
                == (n.tag == seq_tag())
            &&& n.content is Mapping ==> first is MappingStart && first->MappingStart_implicit == (
            n.tag == map_tag())
        }),
{
}

/// Every node of `nodes` that refers to children names nodes of `nodes`.
pub open spec fn children_in_range(nodes: Seq<NodeView>) -> bool {
    forall|i: int, j: int|
        0 <= i < nodes.len() && 0 <= j < children(nodes[i]).len() ==> 1 <= #[trigger] children(
            nodes[i],
        )[j] <= nodes.len()
}

/// Nodes reached at most once carry no anchor id, nodes reached twice carry
/// one of the ids handed out so far, and counts stop at two.
pub open spec fn labels_exact(st: MarkState) -> bool {
    &&& st.last == count_where(st.anchors, labeled())
    &&& forall|i: int|
        0 <= i < st.anchors.len() ==> {
            &&& (#[trigger] st.anchors[i]).references <= 2
            &&& st.anchors[i].references < 2 ==> st.anchors[i].anchor == 0
            &&& st.anchors[i].references == 2 ==> 1 <= st.anchors[i].anchor <= st.last
        }
    &&& forall|i: int, j: int|
        0 <= i < st.anchors.len() && 0 <= j < st.anchors.len() && i != j
            && st.anchors[i].references == 2 && st.anchors[j].references == 2
            ==> #[trigger] st.anchors[i].anchor != #[trigger] st.anchors[j].anchor
}

proof fn lemma_visit_labels(st: MarkState, index: int)
    requires
        1 <= index <= st.anchors.len(),
        labels_exact(st),
        st.anchors.len() < i32::MAX,
    ensures
        labels_exact(visit(st, index)),
        visit(st, index).anchors.len() == st.anchors.len(),
{
    let r = visit(st, index);
    let a = st.anchors[index - 1];
    if a.references < 2 {
        lemma_count_update(st.anchors, index - 1, r.anchors[index - 1], labeled());
        lemma_count_bound(r.anchors, labeled());
    }
    assert forall|i: int| 0 <= i < r.anchors.len() implies {
        &&& (#[trigger] r.anchors[i]).references <= 2
        &&& r.anchors[i].references < 2 ==> r.anchors[i].anchor == 0
        &&& r.anchors[i].references == 2 ==> 1 <= r.anchors[i].anchor <= r.last
    } by {
        if i != index - 1 {
            assert(r.anchors[i] == st.anchors[i]);
        }
    }
    assert forall|i: int, j: int|
        0 <= i < r.anchors.len() && 0 <= j < r.anchors.len() && i != j
            && r.anchors[i].references == 2 && r.anchors[j].references == 2
            implies #[trigger] r.anchors[i].anchor != #[trigger] r.anchors[j].anchor by {
        if i != index - 1 {
            assert(r.anchors[i] == st.anchors[i]);
        }
        if j != index - 1 {
            assert(r.anchors[j] == st.anchors[j]);
        }
    }
}

proof fn lemma_mark_node_labels(nodes: Seq<NodeView>, st: MarkState, index: int, fuel: nat)
    requires
        children_in_range(nodes),
        nodes.len() < i32::MAX,
        st.anchors.len() == nodes.len(),
        1 <= index <= nodes.len(),
        labels_exact(st),
    ensures
        labels_exact(mark_node(nodes, st, index, fuel)),
        mark_node(nodes, st, index, fuel).anchors.len() == nodes.len(),
    decreases fuel, 0nat, 0nat,
{
    let first = st.anchors[index - 1].references == 0;
    let st1 = visit(st, index);
    lemma_visit_labels(st, index);
    if first && fuel > 0 {
        let n = nodes[index - 1];
        match n.content {
            NodeContent::Sequence { items, .. } => {
                assert forall|j: int| 0 <= j < items.len() implies 1 <= #[trigger] items[j] <= nodes.len() by {
                    assert(children(nodes[index - 1])[j] == items[j]);
                }
                lemma_mark_items_labels(nodes, st1, items, (fuel - 1) as nat);
            },
            NodeContent::Mapping { pairs, .. } => {
                assert forall|j: int| 0 <= j < pairs.len() implies 1 <= (#[trigger] pairs[j]).key <= nodes.len()
                    && 1 <= pairs[j].value <= nodes.len() by {
                    lemma_pair_children_index(pairs, j);
                    assert(children(nodes[index - 1])[2 * j] == pairs[j].key);
                    assert(children(nodes[index - 1])[2 * j + 1] == pairs[j].value);
                }
                lemma_mark_pairs_labels(nodes, st1, pairs, (fuel - 1) as nat);
            },
            _ => {},
        }
    }
}

proof fn lemma_mark_items_labels(
    nodes: Seq<NodeView>,
    st: MarkState,
    items: Seq<YamlNodeItemT>,
    fuel: nat,
)
    requires
        children_in_range(nodes),
        nodes.len() < i32::MAX,
        st.anchors.len() == nodes.len(),
        forall|j: int| 0 <= j < items.len() ==> 1 <= #[trigger] items[j] <= nodes.len(),
        labels_exact(st),
    ensures
        labels_exact(mark_items(nodes, st, items, fuel)),
        mark_items(nodes, st, items, fuel).anchors.len() == nodes.len(),
    decreases fuel, 1nat, items.len(),
{
    if items.len() > 0 {
        let rest = items.drop_last();
        assert forall|j: int| 0 <= j < rest.len() implies 1 <= #[trigger] rest[j] <= nodes.len() by {
            assert(rest[j] == items[j]);
        }
        lemma_mark_items_labels(nodes, st, rest, fuel);
        lemma_mark_node_labels(nodes, mark_items(nodes, st, rest, fuel), items.last() as int, fuel);
    }
}

proof fn lemma_mark_pairs_labels(
    nodes: Seq<NodeView>,
    st: MarkState,
    pairs: Seq<YamlNodePairT>,
    fuel: nat,
)
    requires
        children_in_range(nodes),
        nodes.len() < i32::MAX,
        st.anchors.len() == nodes.len(),
        forall|j: int|
            0 <= j < pairs.len() ==> 1 <= (#[trigger] pairs[j]).key <= nodes.len() && 1
                <= pairs[j].value <= nodes.len(),
        labels_exact(st),
    ensures
        labels_exact(mark_pairs(nodes, st, pairs, fuel)),
        mark_pairs(nodes, st, pairs, fuel).anchors.len() == nodes.len(),
    decreases fuel, 1nat, pairs.len(),
{
    if pairs.len() > 0 {
        let rest = pairs.drop_last();
        assert forall|j: int| 0 <= j < rest.len() implies 1 <= (#[trigger] rest[j]).key <= nodes.len()
            && 1 <= rest[j].value <= nodes.len() by {
            assert(rest[j] == pairs[j]);
        }
        lemma_mark_pairs_labels(nodes, st, rest, fuel);
        let s = mark_pairs(nodes, st, rest, fuel);
        lemma_mark_node_labels(nodes, s, pairs.last().key as int, fuel);
        lemma_mark_node_labels(
            nodes,
            mark_node(nodes, s, pairs.last().key as int, fuel),
            pairs.last().value as int,
            fuel,
        );
    }
}

/// The marking pass labels exactly the shared nodes: after it runs over a
/// well-formed document from a table where nothing is reached or labeled, a
/// node reached at most once has anchor id 0, a node reached twice or more
/// has a positive anchor id no larger than the last one handed out, and no
/// two nodes share an id.
pub proof fn law_marking_labels_shared_nodes(d: DocumentView, anchors: Seq<YamlAnchorsT>)
    requires
        d.wf(),
        d.nodes.len() > 0,
        anchors.len() == d.nodes.len(),
        forall|i: int| 0 <= i < anchors.len() ==> #[trigger] anchors[i].references == 0 && anchors[i].anchor == 0,
    ensures
        ({
            let n = d.nodes.len();
            let marked = mark_node(d.nodes, MarkState { anchors, last: 0 }, 1, n + 1);
            &&& marked.anchors.len() == n
            &&& forall|i: int|
                0 <= i < n ==> {
                    &&& (#[trigger] marked.anchors[i]).references < 2 ==> marked.anchors[i].anchor
                        == 0
                    &&& marked.anchors[i].references >= 2 ==> 1 <= marked.anchors[i].anchor
                        <= marked.last
                }
            &&& forall|i: int, j: int|
                0 <= i < n && 0 <= j < n && i != j && marked.anchors[i].references >= 2
                    && marked.anchors[j].references >= 2 ==> #[trigger] marked.anchors[i].anchor
                    != #[trigger] marked.anchors[j].anchor
        }),
{
    lemma_count_none(anchors, labeled());
    lemma_mark_node_labels(d.nodes, MarkState { anchors, last: 0 }, 1, d.nodes.len() + 1);
}

/// The anchor an event defines, if it is a node event with one.
pub open spec fn event_anchor(ev: EventView) -> Option<Seq<u8>> {
    match ev {
        EventView::Scalar { anchor, .. } => anchor,
        EventView::SequenceStart { anchor, .. } => anchor,
        EventView::MappingStart { anchor, .. } => anchor,
        _ => None,
    }
}

/// The state after composing all of `events`, when each of them lets
/// composition continue.
pub open spec fn compose_prefix(st: ComposeState, events: Seq<YamlEventT>) -> Option<ComposeState>
    decreases events.len(),
{
    if events.len() == 0 {
        Some(st)
    } else {
        match compose_prefix(st, events.drop_last()) {
            Some(s) => match compose_event(s, events.last()) {
                Step::Continue(t) => Some(t),
                _ => None,
            },
            None => None,
        }
    }
}

/// Composition goes on from where a prefix that composes leaves it.
pub proof fn lemma_run_split(st: ComposeState, events: Seq<YamlEventT>, k: int)
    requires
        0 <= k <= events.len(),
        compose_prefix(st, events.take(k)) is Some,
    ensures
        compose_run(st, events).0 == compose_run(
            compose_prefix(st, events.take(k))->Some_0,
            events.skip(k),
        ).0,
    decreases k,
{
    if k == 0 {
        assert(events.take(0) =~= Seq::<YamlEventT>::empty());
        assert(events.skip(0) =~= events);
    } else {
        assert(events.take(k).drop_last() =~= events.take(k - 1));
        lemma_run_split(st, events, k - 1);
        let prev = compose_prefix(st, events.take(k - 1))->Some_0;
        let rest = events.skip(k - 1);
        assert(rest[0] == events[k - 1]);
        assert(rest.drop_first() =~= events.skip(k));
    }
}

proof fn lemma_anchor_from_push(s: Seq<AnchorView>, x: AnchorView, a: Seq<u8>, i: int)
    requires
        0 <= i <= s.len(),
    ensures
        anchor_from(s.push(x), a, i) == if anchor_from(s, a, i) >= 0 {
            anchor_from(s, a, i)
        } else if x.name == a {
            s.len() as int
        } else {
            -1
        },
    decreases s.len() - i,
{
    if i < s.len() {
        assert(s.push(x)[i] == s[i]);
        lemma_anchor_from_push(s, x, a, i + 1);
    } else {
        assert(s.push(x)[i] == x);
        assert(anchor_from(s.push(x), a, i + 1) == -1);
    }
}

proof fn lemma_anchor_from_none(s: Seq<AnchorView>, a: Seq<u8>, i: int)
    requires
        0 <= i,
        forall|p: int| i <= p < s.len() ==> (#[trigger] s[p]).name != a,
    ensures
        anchor_from(s, a, i) == -1,
    decreases s.len() - i,
{
    if i < s.len() {
        lemma_anchor_from_none(s, a, i + 1);
    }
}

pub proof fn lemma_anchor_from_range(s: Seq<AnchorView>, a: Seq<u8>, i: int)
    requires
        0 <= i,
    ensures
        -1 <= anchor_from(s, a, i) < s.len(),
    decreases s.len() - i,
{
    if i < s.len() {
        lemma_anchor_from_range(s, a, i + 1);
    }
}

/// One accepted event adds at most one node, and registers exactly the
/// anchor it defines, which was not registered before.
proof fn lemma_step(s: ComposeState, e: YamlEventT)
    requires
        compose_event(s, e) is Continue,
    ensures
        ({
            let t = compose_event(s, e)->Continue_0;
            &&& t.nodes.len() <= s.nodes.len() + 1
            &&& event_anchor(e@) is None ==> t.anchors == s.anchors
            &&& event_anchor(e@) is Some ==> {
                &&& anchor_from(s.anchors, event_anchor(e@)->Some_0, 0) == -1
                &&& t.anchors.len() == s.anchors.len() + 1
                &&& t.anchors == s.anchors.push(t.anchors.last())
                &&& t.anchors.last().name == event_anchor(e@)->Some_0
                &&& t.anchors.last().mark == e.start_mark
            }
        }),
{
    let t = compose_event(s, e)->Continue_0;
    match e@ {
        EventView::Alias { anchor } => {
            let i = anchor_from(s.anchors, anchor, 0);
            lemma_attach_keeps_tags(s, s.anchors[i].index);
        },
        EventView::Scalar { anchor, .. } | EventView::SequenceStart { anchor, .. }
        | EventView::MappingStart { anchor, .. } => {
            let index = (s.nodes.len() + 1) as i32;
            let anchors = match anchor {
                Some(a) => s.anchors.push(AnchorView { name: a, index, mark: e.start_mark }),
                None => s.anchors,
            };
            let node = match e@ {
                EventView::Scalar { tag, value, style, .. } => NodeView {
                    tag: resolve_tag(tag, str_tag()),
                    content: NodeContent::Scalar { value, style },
                    start_mark: e.start_mark,
                    end_mark: e.end_mark,
                },
                EventView::SequenceStart { tag, style, .. } => NodeView {
                    tag: resolve_tag(tag, seq_tag()),
                    content: NodeContent::Sequence { items: Seq::empty(), style },
                    start_mark: e.start_mark,
                    end_mark: e.end_mark,
                },
                _ => NodeView {
                    tag: resolve_tag(event_tag(e@), map_tag()),
                    content: NodeContent::Mapping {
                        pairs: Seq::empty(),
                        style: e.data.mapping_start.style,
                    },
                    start_mark: e.start_mark,
                    end_mark: e.end_mark,
                },
            };
            let added = ComposeState { nodes: s.nodes.push(node), parents: s.parents, anchors };
            lemma_attach_keeps_tags(added, index);
            if let Some(a) = anchor {
                lemma_anchor_from_range(s.anchors, a, 0);
                assert(t.anchors == anchors);
                assert(anchors.last().name == a);
                assert(anchors.drop_last() =~= s.anchors);
            }
        },
        _ => {},
    }
}

/// Each accepted event adds at most one node.
proof fn lemma_prefix_nodes(events: Seq<YamlEventT>, k: int)
    requires
        0 <= k <= events.len(),
        compose_prefix(initial_state(), events.take(k)) is Some,
    ensures
        compose_prefix(initial_state(), events.take(k))->Some_0.nodes.len() <= k,
    decreases k,
{
    if k > 0 {
        assert(events.take(k).drop_last() =~= events.take(k - 1));
        lemma_prefix_nodes(events, k - 1);
        lemma_step(compose_prefix(initial_state(), events.take(k - 1))->Some_0, events[k - 1]);
    }
}

/// Is `name` defined by one of the first `k` events?
pub open spec fn defined_before(events: Seq<YamlEventT>, k: int, name: Seq<u8>) -> bool {
    exists|j: int| 0 <= j < k && event_anchor((#[trigger] events[j])@) == Some(name)
}

/// Every registered anchor was defined by an earlier event.
proof fn lemma_prefix_names(events: Seq<YamlEventT>, k: int)
    requires
        0 <= k <= events.len(),
        compose_prefix(initial_state(), events.take(k)) is Some,
    ensures
        ({
            let s = compose_prefix(initial_state(), events.take(k))->Some_0;
            forall|p: int| 0 <= p < s.anchors.len() ==> defined_before(events, k, #[trigger] s.anchors[p].name)
        }),
    decreases k,
{
    if k > 0 {
        assert(events.take(k).drop_last() =~= events.take(k - 1));
        lemma_prefix_names(events, k - 1);
        let prev = compose_prefix(initial_state(), events.take(k - 1))->Some_0;
        let s = compose_prefix(initial_state(), events.take(k))->Some_0;
        lemma_step(prev, events[k - 1]);
        assert forall|p: int| 0 <= p < s.anchors.len() implies defined_before(events, k, #[trigger] s.anchors[p].name) by {
            if p < prev.anchors.len() {
                assert(s.anchors[p] == prev.anchors[p]);
                let j = choose|j: int| 0 <= j < k - 1 && event_anchor((#[trigger] events[j])@) == Some(prev.anchors[p].name);
                assert(event_anchor(events[j]@) == Some(s.anchors[p].name));
            } else {
                assert(event_anchor(events[k - 1]@) == Some(s.anchors[p].name));
            }
        }
    }
}

/// Once event `j` registered anchor `a`, the registry finds `a` at the entry
/// made by event `j`.
proof fn lemma_prefix_anchor_found(events: Seq<YamlEventT>, j: int, k: int, a: Seq<u8>)
    requires
        0 <= j < k <= events.len(),
        event_anchor(events[j]@) == Some(a),
        compose_prefix(initial_state(), events.take(k)) is Some,
    ensures
        ({
            let s = compose_prefix(initial_state(), events.take(k))->Some_0;
            let p = anchor_from(s.anchors, a, 0);
            0 <= p < s.anchors.len() && s.anchors[p].mark == events[j].start_mark
        }),
    decreases k,
{
    assert(events.take(k).drop_last() =~= events.take(k - 1));
    let prev = compose_prefix(initial_state(), events.take(k - 1))->Some_0;
    let s = compose_prefix(initial_state(), events.take(k))->Some_0;
    lemma_step(prev, events[k - 1]);
    if k - 1 > j {
        lemma_prefix_anchor_found(events, j, k - 1, a);
        if event_anchor(events[k - 1]@) is Some {
            lemma_anchor_from_push(prev.anchors, s.anchors.last(), a, 0);
            assert(s.anchors[anchor_from(prev.anchors, a, 0)] == prev.anchors[anchor_from(prev.anchors, a, 0)]);
        }
    } else {
        lemma_anchor_from_push(prev.anchors, s.anchors.last(), a, 0);
    }
}

/// Duplicate anchors are rejected: when events `j` and `k` of a document's
/// body define the same anchor and the events before `k` compose, composing
/// the body fails with a duplicate-anchor error that names the marks of
/// both definitions.
pub proof fn law_duplicate_anchor_rejected(events: Seq<YamlEventT>, j: int, k: int)
    requires
        0 <= j < k < events.len(),
        k < i32::MAX - 1,
        event_anchor(events[j]@) is Some,
        event_anchor(events[k]@) == event_anchor(events[j]@),
        compose_prefix(initial_state(), events.take(k)) is Some,
    ensures
        compose_run(initial_state(), events).0 == Step::Failed(
            ComposeError::DuplicateAnchor { first: events[j].start_mark, second: events[k].start_mark },
        ),
{
    let a = event_anchor(events[j]@)->Some_0;
    let s = compose_prefix(initial_state(), events.take(k))->Some_0;
    lemma_run_split(initial_state(), events, k);
    lemma_prefix_anchor_found(events, j, k, a);
    lemma_prefix_nodes(events, k);
    let rest = events.skip(k);
    assert(rest[0] == events[k]);
}

/// Undefined aliases are rejected: when event `k` of a document's body is an
/// alias to a name that no earlier event of the body defines, and the events
/// before `k` compose, composing the body fails with an undefined-alias
/// error at the alias's mark.
pub proof fn law_undefined_alias_rejected(events: Seq<YamlEventT>, k: int)
    requires
        0 <= k < events.len(),
        events[k]@ is Alias,
        !defined_before(events, k, events[k]@->Alias_anchor),
        compose_prefix(initial_state(), events.take(k)) is Some,
    ensures
        compose_run(initial_state(), events).0 == Step::Failed(
            ComposeError::UndefinedAlias { mark: events[k].start_mark },
        ),
{
    let a = events[k]@->Alias_anchor;
    let s = compose_prefix(initial_state(), events.take(k))->Some_0;
    lemma_run_split(initial_state(), events, k);
    lemma_prefix_names(events, k);
    assert forall|p: int| 0 <= p < s.anchors.len() implies (#[trigger] s.anchors[p]).name != a by {
        if s.anchors[p].name == a {
            assert(defined_before(events, k, s.anchors[p].name));
        }
    }
    lemma_anchor_from_none(s.anchors, a, 0);
    let rest = events.skip(k);
    assert(rest[0] == events[k]);
}

/// The anchor an event defines, or the one an alias names.
pub open spec fn event_reference(ev: EventView) -> Option<Seq<u8>> {
    match ev {
        EventView::Alias { anchor } => Some(anchor),
        _ => event_anchor(ev),
    }
}

/// A labeled node is defined once and aliased after: the first time the
/// emitting pass reaches it, its first event carries its anchor and the node
/// is marked emitted; every later time, the pass emits only an alias to that
/// anchor.
pub proof fn law_labeled_node_defined_then_aliased(
    nodes: Seq<NodeView>,
    st: Seq<YamlAnchorsT>,
    index: int,
    fuel: nat,
)
    requires
        1 <= index <= nodes.len(),
        index <= st.len(),
        st[index - 1].anchor > 0,
        !(nodes[index - 1].content is Empty),
        fuel > 0,
    ensures
        ({
            let (evs, after) = dump_node(nodes, st, index, fuel);
            let name = anchor_name(st[index - 1].anchor);
            &&& st[index - 1].serialized ==> evs == seq![EventView::Alias { anchor: name }]
                && after == st
            &&& !st[index - 1].serialized ==> evs.len() > 0 && event_reference(evs[0]) == Some(
                name,
            ) && !(evs[0] is Alias)
        }),
{
    let (evs, after) = dump_node(nodes, st, index, fuel);
    let n = nodes[index - 1];
    if !st[index - 1].serialized {
        match n.content {
            NodeContent::Sequence { items, .. } => {
                let (body, s2) = dump_items(nodes, st.update(index - 1, serialize(st[index - 1])), items, (fuel - 1) as nat);
                assert(evs[0] == (seq![
                    EventView::SequenceStart {
                        anchor: anchor_of(st[index - 1]),
                        tag: Some(n.tag),
                        implicit: n.tag == seq_tag(),
                        style: n.content->Sequence_style,
                    },
                ] + body + seq![EventView::SequenceEnd])[0]);
            },
            NodeContent::Mapping { pairs, .. } => {
                let (body, s2) = dump_pairs(nodes, st.update(index - 1, serialize(st[index - 1])), pairs, (fuel - 1) as nat);
                assert(evs[0] == (seq![
                    EventView::MappingStart {
                        anchor: anchor_of(st[index - 1]),
                        tag: Some(n.tag),
                        implicit: n.tag == map_tag(),
                        style: n.content->Mapping_style,
                    },
                ] + body + seq![EventView::MappingEnd])[0]);
            },
            _ => {},
        }
    }
}

proof fn lemma_decimal_shape(n: nat)
    ensures
        decimal(n).len() >= 1,
        n >= 10 ==> decimal(n).len() >= 2,
        n >= 1 ==> decimal(n)[0] != 48u8,
    decreases n,
{
    if n >= 10 {
        lemma_decimal_shape(n / 10);
        assert(decimal(n)[0] == decimal(n / 10)[0]);
    }
}

proof fn lemma_decimal_injective(n: nat, m: nat)
    requires
        decimal(n) == decimal(m),
    ensures
        n == m,
    decreases n,
{
    lemma_decimal_shape(n);
    lemma_decimal_shape(m);
    if n >= 10 && m >= 10 {
        assert(decimal(n).drop_last() =~= decimal(n / 10));
        assert(decimal(m).drop_last() =~= decimal(m / 10));
        lemma_decimal_injective(n / 10, m / 10);
        assert(decimal(n).last() == (48 + n % 10) as u8);
        assert(decimal(m).last() == (48 + m % 10) as u8);
        assert(n % 10 == m % 10);
        assert(n == 10 * (n / 10) + n % 10);
        assert(m == 10 * (m / 10) + m % 10);
    } else if n < 10 && m < 10 {
        assert(decimal(n)[0] == (48 + n) as u8);
        assert(decimal(m)[0] == (48 + m) as u8);
    } else if n < 10 {
        assert(decimal(n).len() == 1);
    } else {
        assert(decimal(m).len() == 1);
    }
}

proof fn lemma_zero_padded_injective(n: nat, m: nat, width: nat)
    requires
        n >= 1,
        m >= 1,
        zero_padded(n, width) == zero_padded(m, width),
    ensures
        n == m,
{
    lemma_decimal_shape(n);
    lemma_decimal_shape(m);
    let dn = decimal(n);
    let dm = decimal(m);
    let kn: int = if dn.len() >= width { 0 } else { width - dn.len() };
    let km: int = if dm.len() >= width { 0 } else { width - dm.len() };
    let p = zero_padded(n, width);
    assert(p.len() == kn + dn.len());
    assert(forall|i: int| 0 <= i < dn.len() ==> p[kn + i] == dn[i]);
    assert(forall|i: int| 0 <= i < kn ==> p[i] == 48u8);
    assert(forall|i: int| 0 <= i < dm.len() ==> zero_padded(m, width)[km + i] == dm[i]);
    assert(forall|i: int| 0 <= i < km ==> zero_padded(m, width)[i] == 48u8);
    if kn < km {
        assert(p[kn] == dn[0]);
    } else if km < kn {
        assert(p[km] == dm[0]);
    }
    assert(dn =~= dm);
    lemma_decimal_injective(n, m);
}

/// Distinct anchor ids give distinct anchor names, so each alias names the
/// one node that carries its anchor.
pub proof fn law_anchor_names_distinct(a: i32, b: i32)
    requires
        a > 0,
        b > 0,
        a != b,
    ensures
        anchor_name(a) != anchor_name(b),
{
    if anchor_name(a) == anchor_name(b) {
        assert(anchor_name(a).skip(2) =~= zero_padded(a as nat, 3));
        assert(anchor_name(b).skip(2) =~= zero_padded(b as nat, 3));
        lemma_zero_padded_injective(a as nat, b as nat, 3);
    }
}

/// A node's content with its children left out: what composing its first
/// event rebuilds before the children's events arrive.
pub open spec fn shell(c: NodeContent) -> NodeContent {
    match c {
        NodeContent::Sequence { style, .. } => NodeContent::Sequence { items: Seq::empty(), style },
        NodeContent::Mapping { style, .. } => NodeContent::Mapping { pairs: Seq::empty(), style },
        _ => c,
    }
}

/// The node step of the round trip: when the first event that decomposition
/// emits for a node not emitted yet is composed and accepted, the node it
/// adds has the original's tag, and its value and style (for a collection,
/// its style with no children yet). The non-specific tag `!` is left out:
/// composition replaces it by a default tag.
pub proof fn law_node_first_event_recomposes(
    nodes: Seq<NodeView>,
    anchors: Seq<YamlAnchorsT>,
    index: int,
    fuel: nat,
    st: ComposeState,
    ev: YamlEventT,
)
    requires
        1 <= index <= nodes.len(),
        index <= anchors.len(),
        !anchors[index - 1].serialized,
        !(nodes[index - 1].content is Empty),
        nodes[index - 1].tag != bang_tag(),
        fuel > 0,
        ev@ == dump_node(nodes, anchors, index, fuel).0[0],
        state_wf(st),
        compose_event(st, ev) is Continue,
    ensures
        ({
            let t = compose_event(st, ev)->Continue_0;
            let n = nodes[index - 1];
            &&& t.nodes.len() == st.nodes.len() + 1
            &&& t.nodes[st.nodes.len() as int].tag == n.tag
            &&& t.nodes[st.nodes.len() as int].content == shell(n.content)
        }),
{
    let n = nodes[index - 1];
    let a = anchors[index - 1];
    let first = dump_node(nodes, anchors, index, fuel).0[0];
    match n.content {
        NodeContent::Sequence { items, style } => {
            let (body, s2) = dump_items(nodes, anchors.update(index - 1, serialize(a)), items, (fuel - 1) as nat);
            assert(first == (seq![
                EventView::SequenceStart { anchor: anchor_of(a), tag: Some(n.tag), implicit: n.tag == seq_tag(), style },
            ] + body + seq![EventView::SequenceEnd])[0]);
        },
        NodeContent::Mapping { pairs, style } => {
            let (body, s2) = dump_pairs(nodes, anchors.update(index - 1, serialize(a)), pairs, (fuel - 1) as nat);
            assert(first == (seq![
                EventView::MappingStart { anchor: anchor_of(a), tag: Some(n.tag), implicit: n.tag == map_tag(), style },
            ] + body + seq![EventView::MappingEnd])[0]);
        },
        _ => {},
    }
    let index2 = (st.nodes.len() + 1) as i32;
    let anchor = event_anchor(ev@);
    let anchors2 = match anchor {
        Some(x) => st.anchors.push(AnchorView { name: x, index: index2, mark: ev.start_mark }),
        None => st.anchors,
    };
    let node = NodeView {
        tag: n.tag,
        content: shell(n.content),
        start_mark: ev.start_mark,
        end_mark: ev.end_mark,
    };
    assert(resolve_tag(Some(n.tag), str_tag()) == n.tag);
    assert(resolve_tag(Some(n.tag), seq_tag()) == n.tag);
    assert(resolve_tag(Some(n.tag), map_tag()) == n.tag);
    let added = ComposeState { nodes: st.nodes.push(node), parents: st.parents, anchors: anchors2 };
    lemma_attach_keeps_tags(added, index2);
    if st.parents.len() > 0 {
        assert(names_node(st, st.parents[st.parents.len() - 1]));
    }
    lemma_attach_keeps_content_of_new(added, index2);
}

/// Attaching a node changes only the open collection it is attached to,
/// which comes before the new node.
proof fn lemma_attach_keeps_content_of_new(st: ComposeState, index: YamlNodeItemT)
    ensures
        attach(st, index) is Continue && st.nodes.len() > 0 && (st.parents.len() == 0
            || st.parents.last() != st.nodes.len()) ==> attach(st, index)->Continue_0.nodes[st.nodes.len() - 1]
            == st.nodes[st.nodes.len() - 1],
{
}

} // verus!
