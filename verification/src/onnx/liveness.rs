//! Which nodes of a graph nothing needs any more once one node stops reading
//! its inputs.

use crate::onnx::constants::{DOWNSAMPLE_RATIO_INPUT, SRC_INPUT};
use crate::onnx::node::{contains_text, NodeInfo, NodeModel};
use crate::onnx::proto::ProtoField;
use crate::text::text_is;
use vstd::prelude::*;

verus! {

/// A node and where it stands in its graph.
#[verifier::ext_equal]
pub struct GraphNode {
    pub start: int,
    pub node: NodeModel,
}

pub open spec fn graph_node_views(nodes: Seq<(ProtoField, NodeInfo)>) -> Seq<GraphNode> {
    Seq::new(
        nodes.len(),
        |i: int| GraphNode { start: nodes[i].0.start as int, node: nodes[i].1@ },
    )
}

/// No two nodes stand at the same place.
pub open spec fn distinct_starts(nodes: Seq<GraphNode>) -> bool {
    forall|i: int, j: int|
        0 <= i < j < nodes.len() ==> (#[trigger] nodes[i]).start != (#[trigger] nodes[j]).start
}

/// A value that is dead from the beginning, or that a removed node reads. The
/// graph's own inputs stay.
pub open spec fn is_dead_value(
    nodes: Seq<GraphNode>,
    initial: Seq<Seq<char>>,
    removed: Set<int>,
    value: Seq<char>,
) -> bool {
    initial.contains(value) || (value != SRC_INPUT@ && value != DOWNSAMPLE_RATIO_INPUT@ && exists|
        k: int,
    |
        0 <= k < nodes.len() && removed.contains((#[trigger] nodes[k]).start)
            && nodes[k].node.inputs.contains(value))
}

/// A node that produces a dead value.
pub open spec fn produces_dead(
    nodes: Seq<GraphNode>,
    initial: Seq<Seq<char>>,
    removed: Set<int>,
    at: int,
) -> bool {
    exists|j: int|
        0 <= j < nodes[at].node.outputs.len() && is_dead_value(
            nodes,
            initial,
            removed,
            #[trigger] nodes[at].node.outputs[j],
        )
}

/// Every node that produces a dead value is removed, but for the one at
/// `kept_start`.
pub open spec fn is_closed(
    nodes: Seq<GraphNode>,
    kept_start: int,
    initial: Seq<Seq<char>>,
    removed: Set<int>,
) -> bool {
    forall|k: int|
        0 <= k < nodes.len() && (#[trigger] nodes[k]).start != kept_start && produces_dead(
            nodes,
            initial,
            removed,
            k,
        ) ==> removed.contains(nodes[k].start)
}

/// The places of the nodes that go: the least set that is closed.
pub open spec fn dead_starts(
    nodes: Seq<GraphNode>,
    kept_start: int,
    initial: Seq<Seq<char>>,
) -> Set<int> {
    Set::new(
        |start: int|
            forall|removed: Set<int>| #[trigger]
                is_closed(nodes, kept_start, initial, removed) ==> removed.contains(start),
    )
}

/// The places in a list.
pub open spec fn starts_of(starts: Seq<usize>) -> Set<int> {
    Set::new(|start: int| exists|t: int| 0 <= t < starts.len() && #[trigger] starts[t] == start)
}

proof fn lemma_starts_push(starts: Seq<usize>, start: usize)
    ensures
        starts_of(starts.push(start)) == starts_of(starts).insert(start as int),
{
    let more = starts.push(start);
    assert forall|s: int| starts_of(more).contains(s) == starts_of(starts).insert(
        start as int,
    ).contains(s) by {
        if starts_of(starts).contains(s) {
            let t = choose|t: int| 0 <= t < starts.len() && #[trigger] starts[t] == s;
            assert(more[t] == s);
        }
        if s == start {
            assert(more[starts.len() as int] == s);
        }
        if starts_of(more).contains(s) && s != start {
            let t = choose|t: int| 0 <= t < more.len() && #[trigger] more[t] == s;
            assert(starts[t] == s);
        }
    }
    assert(starts_of(more) =~= starts_of(starts).insert(start as int));
}

proof fn lemma_dead_values_grow(
    nodes: Seq<GraphNode>,
    initial: Seq<Seq<char>>,
    removed: Set<int>,
    at: int,
    value: Seq<char>,
)
    requires
        distinct_starts(nodes),
        0 <= at < nodes.len(),
    ensures
        is_dead_value(nodes, initial, removed.insert(nodes[at].start), value) <==> (is_dead_value(
            nodes,
            initial,
            removed,
            value,
        ) || (nodes[at].node.inputs.contains(value) && value != SRC_INPUT@ && value
            != DOWNSAMPLE_RATIO_INPUT@)),
{
    let more = removed.insert(nodes[at].start);
    if is_dead_value(nodes, initial, removed, value) && !initial.contains(value) {
        let k = choose|k: int|
            0 <= k < nodes.len() && removed.contains((#[trigger] nodes[k]).start)
                && nodes[k].node.inputs.contains(value);
        assert(more.contains(nodes[k].start));
    }
    if is_dead_value(nodes, initial, more, value) && !initial.contains(value) {
        let k = choose|k: int|
            0 <= k < nodes.len() && more.contains((#[trigger] nodes[k]).start)
                && nodes[k].node.inputs.contains(value);
        if nodes[k].start == nodes[at].start {
            assert(k == at) by {
                if k < at {
                    assert(nodes[k].start != nodes[at].start);
                }
                if at < k {
                    assert(nodes[at].start != nodes[k].start);
                }
            }
        } else {
            assert(removed.contains(nodes[k].start));
        }
    }
    if nodes[at].node.inputs.contains(value) {
        assert(more.contains(nodes[at].start));
    }
}

proof fn lemma_dead_values_monotone(
    nodes: Seq<GraphNode>,
    initial: Seq<Seq<char>>,
    removed: Set<int>,
    more: Set<int>,
    value: Seq<char>,
)
    requires
        removed.subset_of(more),
        is_dead_value(nodes, initial, removed, value),
    ensures
        is_dead_value(nodes, initial, more, value),
{
    if !initial.contains(value) {
        let k = choose|k: int|
            0 <= k < nodes.len() && removed.contains((#[trigger] nodes[k]).start)
                && nodes[k].node.inputs.contains(value);
        assert(more.contains(nodes[k].start));
    }
}

/// A node stands at this place.
spec fn is_start(nodes: Seq<GraphNode>, start: int) -> bool {
    exists|k: int| 0 <= k < nodes.len() && (#[trigger] nodes[k]).start == start
}

/// A list without repetition of the places of some nodes is no longer than
/// the nodes are many.
proof fn lemma_starts_are_few(nodes: Seq<GraphNode>, starts: Seq<usize>)
    requires
        starts.no_duplicates(),
        forall|t: int| 0 <= t < starts.len() ==> is_start(nodes, #[trigger] starts[t] as int),
    ensures
        starts.len() <= nodes.len(),
    decreases nodes.len(),
{
    if starts.len() > 0 {
        let last = starts.last();
        assert(starts[starts.len() - 1] == last);
        assert(is_start(nodes, last as int));
        let k = choose|k: int| 0 <= k < nodes.len() && (#[trigger] nodes[k]).start == last as int;
        let fewer = nodes.remove(k);
        let shorter = starts.drop_last();
        assert forall|t: int| 0 <= t < shorter.len() implies is_start(
            fewer,
            #[trigger] shorter[t] as int,
        ) by {
            assert(is_start(nodes, starts[t] as int));
            let i = choose|i: int|
                0 <= i < nodes.len() && (#[trigger] nodes[i]).start == starts[t] as int;
            assert(starts[t] != starts[starts.len() - 1]);
            if i < k {
                assert(fewer[i] == nodes[i]);
            } else {
                assert(fewer[i - 1] == nodes[i]);
            }
        }
        lemma_starts_are_few(fewer, shorter);
    }
}

/// Whether two lists have a text in common.
fn shares_text(texts: &Vec<String>, others: &Vec<String>) -> (shared: bool)
    ensures
        shared == exists|j: int|
            0 <= j < texts@.len() && others.deep_view().contains(#[trigger] texts.deep_view()[j]),
{
    let mut at: usize = 0;
    while at < texts.len()
        invariant
            at <= texts@.len(),
            forall|j: int|
                0 <= j < at ==> !others.deep_view().contains(#[trigger] texts.deep_view()[j]),
        decreases texts@.len() - at,
    {
        if contains_text(others, texts[at].as_str()) {
            assert(others.deep_view().contains(texts.deep_view()[at as int]));
            return true;
        }
        at = at + 1;
    }
    false
}

/// Whether a place is in a list.
pub fn contains_start(starts: &Vec<usize>, start: usize) -> (found: bool)
    ensures
        found == starts@.contains(start),
        found == starts_of(starts@).contains(start as int),
{
    let mut at: usize = 0;
    while at < starts.len()
        invariant
            at <= starts@.len(),
            forall|i: int| 0 <= i < at ==> starts@[i] != start,
        decreases starts@.len() - at,
    {
        if starts[at] == start {
            assert(starts@[at as int] == start);
            return true;
        }
        at = at + 1;
    }
    false
}

proof fn lemma_push_contains(texts: Seq<Seq<char>>, text: Seq<char>, value: Seq<char>)
    ensures
        texts.push(text).contains(value) <==> texts.contains(value) || value == text,
{
    let more = texts.push(text);
    if texts.contains(value) {
        let i = texts.index_of(value);
        assert(more[i] == value);
    }
    if value == text {
        assert(more[texts.len() as int] == value);
    }
    if more.contains(value) && value != text {
        let i = more.index_of(value);
        assert(texts[i] == value);
    }
}

/// Adds the values that a removed node reads.
fn add_dead_inputs(dead_values: &mut Vec<String>, inputs: &Vec<String>)
    ensures
        forall|value: Seq<char>|
            #[trigger] final(dead_values).deep_view().contains(value) <==> (old(
                dead_values,
            ).deep_view().contains(value) || (inputs.deep_view().contains(value) && value
                != SRC_INPUT@ && value != DOWNSAMPLE_RATIO_INPUT@)),
{
    let ghost before = dead_values.deep_view();
    let ghost all = inputs.deep_view();
    let mut at: usize = 0;
    while at < inputs.len()
        invariant
            at <= inputs@.len(),
            all == inputs.deep_view(),
            forall|value: Seq<char>|
                dead_values.deep_view().contains(value) <==> (before.contains(value) || (all.take(
                    at as int,
                ).contains(value) && value != SRC_INPUT@ && value != DOWNSAMPLE_RATIO_INPUT@)),
        decreases inputs@.len() - at,
    {
        let input = &inputs[at];
        let ghost current = dead_values.deep_view();
        let ghost text = all[at as int];
        let fresh = !text_is(input, SRC_INPUT) && !text_is(input, DOWNSAMPLE_RATIO_INPUT)
            && !contains_text(dead_values, input.as_str());
        if fresh {
            dead_values.push(input.clone());
            assert(dead_values.deep_view() =~= current.push(text));
        }
        proof {
            let now = dead_values.deep_view();
            let taken = all.take(at as int);
            let more = all.take(at + 1);
            assert(more =~= taken.push(text));
            assert forall|value: Seq<char>| now.contains(value) <==> (before.contains(value) || (
            more.contains(value) && value != SRC_INPUT@ && value != DOWNSAMPLE_RATIO_INPUT@)) by {
                lemma_push_contains(taken, text, value);
                lemma_push_contains(current, text, value);
                assert(current.contains(value) <==> (before.contains(value) || (taken.contains(
                    value,
                ) && value != SRC_INPUT@ && value != DOWNSAMPLE_RATIO_INPUT@)));
                assert(current.contains(text) ==> !fresh);
            }
        }
        at = at + 1;
    }
    assert(all.take(at as int) =~= all);
}

/// Finds the nodes that go when the node at `resize_node_start` stops reading
/// `initial_dead_values`: those that produce a dead value, where a node that
/// goes makes the values it reads dead in turn.
pub fn dead_producer_node_starts(
    nodes: &Vec<(ProtoField, NodeInfo)>,
    resize_node_start: usize,
    initial_dead_values: Vec<String>,
) -> (starts: Vec<usize>)
    requires
        distinct_starts(graph_node_views(nodes@)),
    ensures
        starts@.no_duplicates(),
        starts_of(starts@) == dead_starts(
            graph_node_views(nodes@),
            resize_node_start as int,
            initial_dead_values.deep_view(),
        ),
{
    let ghost views = graph_node_views(nodes@);
    let ghost initial = initial_dead_values.deep_view();
    let ghost kept_start = resize_node_start as int;
    let mut dead_values = initial_dead_values;
    let mut removed: Vec<usize> = Vec::new();
    let mut changed = true;
    while changed
        invariant
            views == graph_node_views(nodes@),
            distinct_starts(views),
            kept_start == resize_node_start,
            removed@.no_duplicates(),
            removed@.len() <= nodes@.len(),
            forall|t: int| 0 <= t < removed@.len() ==> is_start(views, #[trigger] removed@[t] as int),
            forall|value: Seq<char>|
                dead_values.deep_view().contains(value) <==> #[trigger] is_dead_value(
                    views,
                    initial,
                    starts_of(removed@),
                    value,
                ),
            forall|set: Set<int>| #[trigger]
                is_closed(views, kept_start, initial, set) ==> starts_of(removed@).subset_of(set),
            !changed ==> is_closed(views, kept_start, initial, starts_of(removed@)),
        decreases
                nodes@.len() - removed@.len(),
                if changed {
                    1int
                } else {
                    0int
                },
    {
        changed = false;
        let ghost removed_before = removed@.len();
        let mut at: usize = 0;
        while at < nodes.len()
            invariant
                at <= nodes@.len(),
                views == graph_node_views(nodes@),
                distinct_starts(views),
                kept_start == resize_node_start,
                removed@.no_duplicates(),
                removed@.len() <= nodes@.len(),
                forall|t: int|
                    0 <= t < removed@.len() ==> is_start(views, #[trigger] removed@[t] as int),
                forall|value: Seq<char>|
                    dead_values.deep_view().contains(value) <==> #[trigger] is_dead_value(
                        views,
                        initial,
                        starts_of(removed@),
                        value,
                    ),
                forall|set: Set<int>| #[trigger]
                    is_closed(views, kept_start, initial, set) ==> starts_of(removed@).subset_of(
                        set,
                    ),
                if changed {
                    removed@.len() > removed_before
                } else {
                    removed@.len() == removed_before
                },
                !changed ==> forall|k: int|
                    0 <= k < at && (#[trigger] views[k]).start != kept_start && produces_dead(
                        views,
                        initial,
                        starts_of(removed@),
                        k,
                    ) ==> starts_of(removed@).contains(views[k].start),
            decreases nodes@.len() - at,
        {
            let start: usize = nodes[at].0.start;
            let info: &NodeInfo = &nodes[at].1;
            assert(views[at as int].start == start);
            assert(views[at as int].node == info@);
            if start != resize_node_start && !contains_start(&removed, start) {
                let ghost removed_seq = removed@;
                let ghost set = starts_of(removed@);
                let hit = shares_text(&info.outputs, &dead_values);
                assert(hit == produces_dead(views, initial, set, at as int)) by {
                    let outputs = views[at as int].node.outputs;
                    if hit {
                        let j = choose|j: int|
                            0 <= j < outputs.len() && dead_values.deep_view().contains(
                                #[trigger] info.outputs.deep_view()[j],
                            );
                        assert(is_dead_value(views, initial, set, outputs[j]));
                    }
                    if produces_dead(views, initial, set, at as int) {
                        let j = choose|j: int|
                            0 <= j < outputs.len() && is_dead_value(
                                views,
                                initial,
                                set,
                                #[trigger] views[at as int].node.outputs[j],
                            );
                        assert(dead_values.deep_view().contains(info.outputs.deep_view()[j]));
                    }
                }
                if hit {
                    let ghost dead_before = dead_values.deep_view();
                    removed.push(start);
                    add_dead_inputs(&mut dead_values, &info.inputs);
                    changed = true;
                    proof {
                        lemma_starts_push(removed_seq, start);
                        assert forall|value: Seq<char>|
                            dead_values.deep_view().contains(
                                value,
                            ) <==> #[trigger] is_dead_value(
                                views,
                                initial,
                                starts_of(removed@),
                                value,
                            ) by {
                            lemma_dead_values_grow(views, initial, set, at as int, value);
                            assert(dead_values.deep_view().contains(value) <==> (
                            dead_before.contains(value) || (info.inputs.deep_view().contains(value)
                                && value != SRC_INPUT@ && value != DOWNSAMPLE_RATIO_INPUT@)));
                            assert(dead_before.contains(value) <==> is_dead_value(
                                views,
                                initial,
                                set,
                                value,
                            ));
                        }
                        assert forall|other: Set<int>| #[trigger]
                            is_closed(views, kept_start, initial, other) implies starts_of(
                            removed@,
                        ).subset_of(other) by {
                            let j = choose|j: int|
                                0 <= j < views[at as int].node.outputs.len() && is_dead_value(
                                    views,
                                    initial,
                                    set,
                                    #[trigger] views[at as int].node.outputs[j],
                                );
                            lemma_dead_values_monotone(
                                views,
                                initial,
                                set,
                                other,
                                views[at as int].node.outputs[j],
                            );
                            assert(produces_dead(views, initial, other, at as int));
                        }
                        assert forall|t: int| 0 <= t < removed@.len() implies is_start(
                            views,
                            #[trigger] removed@[t] as int,
                        ) by {
                            if t < removed_seq.len() {
                                assert(removed@[t] == removed_seq[t]);
                            } else {
                                assert(views[at as int].start == removed@[t]);
                            }
                        }
                        lemma_starts_are_few(views, removed@);
                    }
                }
            }
            at = at + 1;
        }
    }
    assert(starts_of(removed@) =~= dead_starts(views, kept_start, initial)) by {
        assert forall|s: int| starts_of(removed@).contains(s) == dead_starts(
            views,
            kept_start,
            initial,
        ).contains(s) by {
            assert(is_closed(views, kept_start, initial, starts_of(removed@)));
        }
    }
    removed
}

/// A node gives another something to read, which is neither the picture nor the ratio.
pub open spec fn feeds(node: NodeModel, other: NodeModel) -> bool {
    exists|value: Seq<char>| #[trigger]
        node.outputs.contains(value) && other.inputs.contains(value) && value != "src"@ && value
            != "downsample_ratio"@
}

/// A node gives one of some values.
pub open spec fn gives_any(node: NodeModel, values: Seq<Seq<char>>) -> bool {
    exists|value: Seq<char>| #[trigger] node.outputs.contains(value) && values.contains(value)
}

/// Nodes of which each feeds the next, and the last gives one of some values. The one at
/// `kept_start` is none of them.
pub open spec fn is_feeding_chain(
    nodes: Seq<GraphNode>,
    kept_start: int,
    values: Seq<Seq<char>>,
    chain: Seq<int>,
) -> bool
    decreases chain.len(),
{
    &&& chain.len() > 0
    &&& 0 <= chain[0] < nodes.len()
    &&& nodes[chain[0]].start != kept_start
    &&& if chain.len() == 1 {
        gives_any(nodes[chain[0]].node, values)
    } else {
        &&& is_feeding_chain(nodes, kept_start, values, chain.drop_first())
        &&& feeds(nodes[chain[0]].node, nodes[chain[1]].node)
    }
}

/// The nodes that go are those from which something leads to the values that are not needed any
/// more, node by node, and no others.
pub proof fn law_dead_nodes_lead_to_dead_values(
    nodes: Seq<GraphNode>,
    kept_start: int,
    values: Seq<Seq<char>>,
    at: int,
)
    requires
        distinct_starts(nodes),
        0 <= at < nodes.len(),
    ensures
        dead_starts(nodes, kept_start, values).contains(nodes[at].start) <==> exists|
            chain: Seq<int>,
        | #[trigger] is_feeding_chain(nodes, kept_start, values, chain) && chain[0] == at,
{
    if exists|chain: Seq<int>| #[trigger]
        is_feeding_chain(nodes, kept_start, values, chain) && chain[0] == at {
        let chain = choose|chain: Seq<int>| #[trigger]
            is_feeding_chain(nodes, kept_start, values, chain) && chain[0] == at;
        assert forall|removed: Set<int>| #[trigger]
            is_closed(nodes, kept_start, values, removed) implies removed.contains(
            nodes[at].start,
        ) by {
            lemma_chain_is_removed(nodes, kept_start, values, removed, chain);
        }
    }
    if dead_starts(nodes, kept_start, values).contains(nodes[at].start) {
        let reached = Set::new(
            |start: int|
                exists|chain: Seq<int>| #[trigger]
                    is_feeding_chain(nodes, kept_start, values, chain) && nodes[chain[0]].start
                        == start,
        );
        assert forall|k: int|
            0 <= k < nodes.len() && (#[trigger] nodes[k]).start != kept_start && produces_dead(
                nodes,
                values,
                reached,
                k,
            ) implies reached.contains(nodes[k].start) by {
            lemma_reached_grows(nodes, kept_start, values, reached, k);
        }
        assert(is_closed(nodes, kept_start, values, reached));
        assert(reached.contains(nodes[at].start));
        let chain = choose|chain: Seq<int>| #[trigger]
            is_feeding_chain(nodes, kept_start, values, chain) && nodes[chain[0]].start
                == nodes[at].start;
        lemma_same_start(nodes, chain[0], at);
    }
}

proof fn lemma_same_start(nodes: Seq<GraphNode>, a: int, b: int)
    requires
        distinct_starts(nodes),
        0 <= a < nodes.len(),
        0 <= b < nodes.len(),
        nodes[a].start == nodes[b].start,
    ensures
        a == b,
{
    if a < b {
        assert(nodes[a].start != nodes[b].start);
    }
    if b < a {
        assert(nodes[b].start != nodes[a].start);
    }
}

proof fn lemma_chain_is_removed(
    nodes: Seq<GraphNode>,
    kept_start: int,
    values: Seq<Seq<char>>,
    removed: Set<int>,
    chain: Seq<int>,
)
    requires
        is_closed(nodes, kept_start, values, removed),
        is_feeding_chain(nodes, kept_start, values, chain),
    ensures
        removed.contains(nodes[chain[0]].start),
    decreases chain.len(),
{
    let first = chain[0];
    let node = nodes[first].node;
    if chain.len() == 1 {
        let value = choose|value: Seq<char>| #[trigger]
            node.outputs.contains(value) && values.contains(value);
        let j = choose|j: int| 0 <= j < node.outputs.len() && node.outputs[j] == value;
        assert(is_dead_value(nodes, values, removed, nodes[first].node.outputs[j]));
        assert(produces_dead(nodes, values, removed, first));
    } else {
        let rest = chain.drop_first();
        lemma_chain_is_removed(nodes, kept_start, values, removed, rest);
        let next = chain[1];
        assert(rest[0] == next);
        let value = choose|value: Seq<char>| #[trigger]
            node.outputs.contains(value) && nodes[next].node.inputs.contains(value) && value
                != "src"@ && value != "downsample_ratio"@;
        let j = choose|j: int| 0 <= j < node.outputs.len() && node.outputs[j] == value;
        assert(removed.contains(nodes[next].start));
        assert(is_dead_value(nodes, values, removed, nodes[first].node.outputs[j]));
        assert(produces_dead(nodes, values, removed, first));
    }
}

proof fn lemma_reached_grows(
    nodes: Seq<GraphNode>,
    kept_start: int,
    values: Seq<Seq<char>>,
    reached: Set<int>,
    at: int,
)
    requires
        distinct_starts(nodes),
        reached == Set::new(
            |start: int|
                exists|chain: Seq<int>| #[trigger]
                    is_feeding_chain(nodes, kept_start, values, chain) && nodes[chain[0]].start
                        == start,
        ),
        0 <= at < nodes.len(),
        nodes[at].start != kept_start,
        produces_dead(nodes, values, reached, at),
    ensures
        reached.contains(nodes[at].start),
{
    let node = nodes[at].node;
    let j = choose|j: int|
        0 <= j < nodes[at].node.outputs.len() && is_dead_value(
            nodes,
            values,
            reached,
            #[trigger] nodes[at].node.outputs[j],
        );
    let value = node.outputs[j];
    assert(node.outputs.contains(value));
    if values.contains(value) {
        let chain = seq![at];
        assert(gives_any(node, values));
        assert(is_feeding_chain(nodes, kept_start, values, chain));
        assert(nodes[chain[0]].start == nodes[at].start);
    } else {
        let k = choose|k: int|
            0 <= k < nodes.len() && reached.contains((#[trigger] nodes[k]).start)
                && nodes[k].node.inputs.contains(value);
        let rest = choose|chain: Seq<int>| #[trigger]
            is_feeding_chain(nodes, kept_start, values, chain) && nodes[chain[0]].start
                == nodes[k].start;
        lemma_same_start(nodes, rest[0], k);
        let chain = seq![at] + rest;
        assert(chain.drop_first() =~= rest);
        assert(chain[1] == k);
        assert(feeds(node, nodes[k].node));
        assert(is_feeding_chain(nodes, kept_start, values, chain));
        assert(nodes[chain[0]].start == nodes[at].start);
    }
}

} // verus!
