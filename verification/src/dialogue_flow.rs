//! The conversation-flow graph of a yarn dialogue file: one node per title,
//! player option and ending, an edge for each way the talk can go on, each
//! edge weighted by the indentation level of the line that made it.

use petgraph::graph::Graph;
use vstd::prelude::*;

use crate::petgraph_specs::{
    graph_add_node, graph_append_label, graph_edges, graph_label, graph_labels, graph_new,
    graph_node_count, graph_out_degree, graph_update_edge, indexable, links, out_degree,
    updated_edges,
};
use crate::text::{
    chars_equal, chars_of, chars_start_with, copy_range, is_white_space, is_whitespace, lines, lines_of,
    split, split_chars, starts_with, string_of, trim, trim_chars,
};

verus! {

/// What separates a node's label from the attributes that the graph's
/// drawing should give it.
pub const ATTR_DELIMETER: &'static str = "|BREAK|";

/// The colour of a node that no edge leaves.
pub const LEAF_NODE_COLOR: &'static str = "red";

/// The line style of a title node.
pub const TITLE_NODE_STYLE: &'static str = "bold";

/// The shape of a title node.
pub const TITLE_NODE_SHAPE: &'static str = "diamond";

/// The number of indentation levels that player options can nest.
pub const OPTION_SLOTS: usize = 10;

/// The number of white-space characters at the start of `s`.
pub open spec fn leading_white_space(s: Seq<char>) -> nat
    decreases s.len(),
{
    if s.len() > 0 && is_white_space(s[0]) {
        1 + leading_white_space(s.drop_first())
    } else {
        0
    }
}

/// The indentation level of a line: four white-space characters a level.
pub open spec fn level(l: Seq<char>) -> int {
    leading_white_space(l) as int / 4
}

/// Whether a line opens a node of the dialogue (`title: ...`).
pub open spec fn is_title_line(l: Seq<char>) -> bool {
    starts_with(trim(l), "title: "@)
}

/// Whether a line is a player option (`-> ...`).
pub open spec fn is_option_line(l: Seq<char>) -> bool {
    starts_with(trim(l), "-> "@)
}

/// Whether a line jumps to another node (`<<jump ...>>`).
pub open spec fn is_jump_line(l: Seq<char>) -> bool {
    starts_with(trim(l), "<<jump "@)
}

/// Whether a line ends the game (`<<trigger_ending ...>>`).
pub open spec fn is_ending_line(l: Seq<char>) -> bool {
    starts_with(trim(l), "<<trigger_ending "@)
}

/// The second space-separated word of a jump line: the target followed by
/// `>>`.
pub open spec fn jump_word(l: Seq<char>) -> Seq<char> {
    split(trim(l), ' ')[1]
}

/// The title line that a jump line leads to.
pub open spec fn jump_target(l: Seq<char>) -> Seq<char> {
    let w = jump_word(l);
    "title: "@ + w.take(w.len() - 2)
}

/// The trimmed title lines of `lines`, in order.
pub open spec fn title_list(lines: Seq<Seq<char>>) -> Seq<Seq<char>>
    decreases lines.len(),
{
    if lines.len() == 0 {
        Seq::empty()
    } else if is_title_line(lines.last()) {
        title_list(lines.drop_last()).push(trim(lines.last()))
    } else {
        title_list(lines.drop_last())
    }
}

/// Whether no two of `ts` are equal.
pub open spec fn all_distinct(ts: Seq<Seq<char>>) -> bool {
    forall|i: int, j: int| 0 <= i < j < ts.len() ==> ts[i] != ts[j]
}

/// Where `t` stands among `titles`.
pub open spec fn title_index(titles: Seq<Seq<char>>, t: Seq<char>) -> int {
    choose|i: int| 0 <= i < titles.len() && titles[i] == t
}

/// The state of the graph while the lines are read: the node labels, the
/// edges, the node of the current title, and for each indentation level the
/// player option last seen there.
pub struct FlowState {
    pub labels: Seq<Seq<char>>,
    pub edges: Seq<(int, int, int)>,
    pub title: usize,
    pub options: Seq<Option<usize>>,
}

/// The options with every level from `from` on forgotten.
pub open spec fn cleared(options: Seq<Option<usize>>, from: int) -> Seq<Option<usize>> {
    Seq::new(options.len(), |i: int| if i >= from { None } else { options[i] })
}

/// The option of the deepest level below `level` that holds one.
pub open spec fn last_option(options: Seq<Option<usize>>, level: int) -> Option<usize>
    decreases level,
{
    if level <= 0 {
        None
    } else {
        match options[level - 1] {
            Some(r) => Some(r),
            None => last_option(options, level - 1),
        }
    }
}

/// The node that a player option at `level` hangs from: the option one
/// level up, or the title.
pub open spec fn option_parent(st: FlowState, level: int) -> usize {
    if level == 0 {
        st.title
    } else {
        match st.options[level - 1] {
            Some(r) => r,
            None => st.title,
        }
    }
}

/// The state after a player-option line (its options already cleared).
pub open spec fn after_option(st: FlowState, l: Seq<char>) -> FlowState {
    let end = st.labels.len() as int;
    let ind = level(l);
    FlowState {
        labels: st.labels.push(trim(l)),
        edges: updated_edges(st.edges, option_parent(st, ind) as int, end, ind),
        title: st.title,
        options: st.options.update(ind, Some(end as usize)),
    }
}

/// The state after a jump line (its options already cleared).
pub open spec fn after_jump(titles: Seq<Seq<char>>, st: FlowState, l: Seq<char>) -> FlowState {
    let ind = level(l);
    let from = match last_option(st.options, ind) {
        Some(r) => r,
        None => st.title,
    };
    FlowState {
        labels: st.labels,
        edges: updated_edges(st.edges, from as int, title_index(titles, jump_target(l)), ind),
        title: st.title,
        options: st.options,
    }
}

/// The state after an ending line (its options already cleared).
pub open spec fn after_ending(st: FlowState, l: Seq<char>) -> FlowState {
    let ind = level(l);
    let start = if ind == 0 {
        st.title
    } else {
        last_option(st.options, ind)->Some_0
    };
    let end = st.labels.len() as int;
    FlowState {
        labels: st.labels.push("Fin"@),
        edges: updated_edges(st.edges, start as int, end, ind),
        title: st.title,
        options: st.options,
    }
}

/// The state after one line.
pub open spec fn flow_step(titles: Seq<Seq<char>>, st: FlowState, l: Seq<char>) -> FlowState {
    let st1 = FlowState { options: cleared(st.options, level(l)), ..st };
    if is_title_line(l) {
        FlowState { title: title_index(titles, l) as usize, ..st1 }
    } else if is_option_line(l) {
        after_option(st1, l)
    } else if is_jump_line(l) {
        after_jump(titles, st1, l)
    } else if is_ending_line(l) {
        after_ending(st1, l)
    } else {
        st1
    }
}

/// Whether reading the line `l` in the state `st` succeeds: the
/// indentation is whole levels, a title is known by its exact text, an
/// option level has a slot, a jump names a known title and ends in `>>`,
/// and an indented ending follows an option.
pub open spec fn flow_step_ok(titles: Seq<Seq<char>>, st: FlowState, l: Seq<char>) -> bool {
    let ind = level(l);
    let opts = cleared(st.options, ind);
    &&& leading_white_space(l) % 4 == 0
    &&& is_title_line(l) ==> titles.contains(l)
    &&& !is_title_line(l) && is_option_line(l) ==> ind < OPTION_SLOTS
    &&& !is_title_line(l) && !is_option_line(l) && is_jump_line(l) ==> {
        &&& ind <= OPTION_SLOTS
        &&& jump_word(l).len() >= 2
        &&& jump_word(l).skip(jump_word(l).len() - 2) == ">>"@
        &&& titles.contains(jump_target(l))
    }
    &&& !is_title_line(l) && !is_option_line(l) && !is_jump_line(l) && is_ending_line(l) ==> {
        &&& ind <= OPTION_SLOTS
        &&& ind > 0 ==> last_option(opts, ind) is Some
    }
}

/// The state after the lines `lines`, read from `st`.
pub open spec fn flow_run(titles: Seq<Seq<char>>, lines: Seq<Seq<char>>, st: FlowState) -> FlowState
    decreases lines.len(),
{
    if lines.len() == 0 {
        st
    } else {
        flow_step(titles, flow_run(titles, lines.drop_last(), st), lines.last())
    }
}

/// Whether every line of `lines`, read from `st`, succeeds.
pub open spec fn flow_run_ok(titles: Seq<Seq<char>>, lines: Seq<Seq<char>>, st: FlowState) -> bool
    decreases lines.len(),
{
    if lines.len() == 0 {
        true
    } else {
        flow_run_ok(titles, lines.drop_last(), st) && flow_step_ok(
            titles,
            flow_run(titles, lines.drop_last(), st),
            lines.last(),
        )
    }
}

/// How many of `lines` satisfy `p`.
pub open spec fn count_lines(lines: Seq<Seq<char>>, p: spec_fn(Seq<char>) -> bool) -> nat
    decreases lines.len(),
{
    if lines.len() == 0 {
        0
    } else {
        count_lines(lines.drop_last(), p) + if p(lines.last()) {
            1nat
        } else {
            0nat
        }
    }
}

/// Whether a line adds a node once the titles are in place.
pub open spec fn adds_node(l: Seq<char>) -> bool {
    !is_title_line(l) && (is_option_line(l) || (!is_jump_line(l) && is_ending_line(l)))
}

/// Whether a line may add an edge.
pub open spec fn may_add_edge(l: Seq<char>) -> bool {
    !is_title_line(l) && (is_option_line(l) || is_jump_line(l) || is_ending_line(l))
}

/// The state in which the lines are read: the titles are the first nodes,
/// there is no edge, the current title is node 0 and no option is open.
pub open spec fn initial_flow(titles: Seq<Seq<char>>) -> FlowState {
    FlowState {
        labels: titles,
        edges: Seq::empty(),
        title: 0,
        options: Seq::new(OPTION_SLOTS as nat, |i: int| None),
    }
}

/// The state after all lines of `lines`.
pub open spec fn final_flow(lines: Seq<Seq<char>>) -> FlowState {
    flow_run(title_list(lines), lines, initial_flow(title_list(lines)))
}

/// Whether `construct_graph` builds a graph from the yarn text `contents`:
/// no title occurs twice, every line can be read, and the node and edge
/// counts stay within `u32` indices.
pub open spec fn flow_input_ok(contents: Seq<char>) -> bool {
    let ls = lines(contents);
    let titles = title_list(ls);
    &&& all_distinct(titles)
    &&& flow_run_ok(titles, ls, initial_flow(titles))
    &&& titles.len() + count_lines(ls, |l: Seq<char>| adds_node(l)) <= u32::MAX
    &&& count_lines(ls, |l: Seq<char>| may_add_edge(l)) <= u32::MAX
}

/// The text that marks a node that no edge leaves.
pub open spec fn leaf_attributes() -> Seq<char> {
    ATTR_DELIMETER@ + "color="@ + LEAF_NODE_COLOR@
}

/// The text that marks a title node.
pub open spec fn title_attributes() -> Seq<char> {
    ATTR_DELIMETER@ + "style="@ + TITLE_NODE_STYLE@ + ATTR_DELIMETER@ + "shape="@
        + TITLE_NODE_SHAPE@
}

/// A node's label with the attributes for its drawing appended.
pub open spec fn decorated_label(label: Seq<char>, out_edges: nat) -> Seq<char> {
    label + (if out_edges == 0 {
        leaf_attributes()
    } else {
        Seq::empty()
    }) + (if starts_with(label, "title: "@) {
        title_attributes()
    } else {
        Seq::empty()
    })
}

/// All labels of a graph with their attributes appended.
pub open spec fn decorated_labels(labels: Seq<Seq<char>>, edges: Seq<(int, int, int)>) -> Seq<
    Seq<char>,
> {
    Seq::new(labels.len(), |i: int| decorated_label(labels[i], out_degree(edges, i)))
}

/// The invariant of the state while lines are read.
pub open spec fn flow_inv(titles: Seq<Seq<char>>, st: FlowState) -> bool {
    &&& st.options.len() == OPTION_SLOTS
    &&& forall|k: int|
        0 <= k < OPTION_SLOTS ==> (#[trigger] st.options[k] matches Some(r) ==> (r as int)
            < st.labels.len())
    &&& st.title == 0 || (st.title as int) < st.labels.len()
    &&& titles.len() <= st.labels.len()
    &&& st.labels.take(titles.len() as int) == titles
    &&& edges_valid(st.labels.len(), st.edges)
}

/// Every edge joins existing nodes, weighs at most the deepest level, and
/// no two edges join the same pair of nodes in the same direction.
pub open spec fn edges_valid(nodes: nat, edges: Seq<(int, int, int)>) -> bool {
    &&& forall|k: int|
        0 <= k < edges.len() ==> 0 <= (#[trigger] edges[k]).0 < nodes && 0 <= edges[k].1 < nodes
            && 0 <= edges[k].2 <= OPTION_SLOTS
    &&& forall|j: int, k: int|
        0 <= j < k < edges.len() ==> !links(#[trigger] edges[j], (#[trigger] edges[k]).0, edges[k].1)
}

} // verus!

verus! {

proof fn lemma_last_option(options: Seq<Option<usize>>, level: int)
    requires
        level <= options.len(),
    ensures
        match last_option(options, level) {
            Some(r) => exists|k: int| 0 <= k < level && options[k] == Some(r),
            None => forall|k: int| 0 <= k < level ==> options[k] is None,
        },
    decreases level,
{
    if level > 0 {
        lemma_last_option(options, level - 1);
        if options[level - 1] is Some {
            assert(options[level - 1] == Some(options[level - 1]->Some_0));
        }
    }
}

proof fn lemma_title_index(titles: Seq<Seq<char>>, t: Seq<char>, k: int)
    requires
        all_distinct(titles),
        0 <= k < titles.len(),
        titles[k] == t,
    ensures
        title_index(titles, t) == k,
{
    let c = title_index(titles, t);
    assert(0 <= c < titles.len() && titles[c] == t);
    if c < k {
        assert(titles[c] != titles[k]);
    } else if k < c {
        assert(titles[k] != titles[c]);
    }
}

proof fn lemma_title_index_in_range(titles: Seq<Seq<char>>, t: Seq<char>)
    requires
        titles.contains(t),
    ensures
        0 <= title_index(titles, t) < titles.len(),
        titles[title_index(titles, t)] == t,
{
}

/// `updated_edges` keeps the edges valid and grows them by at most one.
proof fn lemma_updated_edges(
    nodes: nat,
    grown: nat,
    edges: Seq<(int, int, int)>,
    a: int,
    b: int,
    w: int,
)
    requires
        edges_valid(nodes, edges),
        nodes <= grown,
        0 <= a < grown,
        0 <= b < grown,
        0 <= w <= OPTION_SLOTS,
    ensures
        edges_valid(grown, updated_edges(edges, a, b, w)),
        updated_edges(edges, a, b, w).len() <= edges.len() + 1,
        updated_edges(edges, a, b, w).contains((a, b, w)),
{
    let r = updated_edges(edges, a, b, w);
    if exists|k: int| 0 <= k < edges.len() && links(#[trigger] edges[k], a, b) {
        let k0 = choose|k: int| 0 <= k < edges.len() && links(#[trigger] edges[k], a, b);
        assert forall|j: int| k0 < j < edges.len() implies !links(#[trigger] edges[j], a, b) by {
            assert(!links(edges[k0], edges[j].0, edges[j].1));
        }
        let k = choose|k: int|
            0 <= k < edges.len() && links(#[trigger] edges[k], a, b) && forall|j: int|
                k < j < edges.len() ==> !links(#[trigger] edges[j], a, b);
        assert(r == edges.update(k, (a, b, w)));
        assert(r[k] == (a, b, w));
        assert forall|j: int, m: int| 0 <= j < m < r.len() implies !links(
            #[trigger] r[j],
            (#[trigger] r[m]).0,
            r[m].1,
        ) by {
            assert(!links(edges[j], edges[m].0, edges[m].1));
        }
    } else {
        assert(r == edges.push((a, b, w)));
        assert(r[edges.len() as int] == (a, b, w));
        assert forall|j: int, m: int| 0 <= j < m < r.len() implies !links(
            #[trigger] r[j],
            (#[trigger] r[m]).0,
            r[m].1,
        ) by {
            if m < edges.len() {
                assert(!links(edges[j], edges[m].0, edges[m].1));
            } else {
                assert(!links(edges[j], a, b));
            }
        }
    }
}

/// Clearing options keeps the invariant.
proof fn lemma_cleared_inv(titles: Seq<Seq<char>>, st: FlowState, from: int)
    requires
        flow_inv(titles, st),
    ensures
        flow_inv(titles, FlowState { options: cleared(st.options, from), ..st }),
{
    let st1 = FlowState { options: cleared(st.options, from), ..st };
    assert forall|k: int| 0 <= k < OPTION_SLOTS implies (#[trigger] st1.options[k] matches Some(
        r,
    ) ==> (r as int) < st1.labels.len()) by {
        assert(st.options[k] matches Some(r) ==> (r as int) < st.labels.len());
    }
}

/// One line keeps the invariant, adds a node exactly when it is an option
/// or an ending, and adds at most one edge, only where it may.
proof fn lemma_flow_step(titles: Seq<Seq<char>>, st: FlowState, l: Seq<char>)
    requires
        flow_inv(titles, st),
        flow_step_ok(titles, st, l),
    ensures
        flow_inv(titles, flow_step(titles, st, l)),
        flow_step(titles, st, l).labels.len() == st.labels.len() + if adds_node(l) {
            1nat
        } else {
            0nat
        },
        flow_step(titles, st, l).edges.len() <= st.edges.len() + if may_add_edge(l) {
            1nat
        } else {
            0nat
        },
{
    let ind = level(l);
    let st1 = FlowState { options: cleared(st.options, ind), ..st };
    lemma_cleared_inv(titles, st, ind);
    let r = flow_step(titles, st, l);
    if is_title_line(l) {
        lemma_title_index_in_range(titles, l);
    } else if is_option_line(l) {
        let end = st.labels.len() as int;
        let p = option_parent(st1, ind);
        if ind > 0 {
            assert(st1.options[ind - 1] matches Some(q) ==> (q as int) < st1.labels.len());
        }
        lemma_updated_edges(st.labels.len(), st.labels.len() + 1, st.edges, p as int, end, ind);
        assert(r.labels.take(titles.len() as int) =~= st.labels.take(titles.len() as int));
        assert forall|k: int| 0 <= k < OPTION_SLOTS implies (#[trigger] r.options[k] matches Some(
            q,
        ) ==> (q as int) < r.labels.len()) by {
            if k != ind {
                assert(st1.options[k] matches Some(q) ==> (q as int) < st1.labels.len());
            }
        }
    } else if is_jump_line(l) {
        lemma_last_option(st1.options, ind);
        lemma_title_index_in_range(titles, jump_target(l));
        let from = match last_option(st1.options, ind) {
            Some(q) => q,
            None => st1.title,
        };
        if last_option(st1.options, ind) is Some {
            let k = choose|k: int|
                0 <= k < ind && st1.options[k] == Some(last_option(st1.options, ind)->Some_0);
            assert(st1.options[k] matches Some(q) ==> (q as int) < st1.labels.len());
        }
        lemma_updated_edges(
            st.labels.len(),
            st.labels.len(),
            st.edges,
            from as int,
            title_index(titles, jump_target(l)),
            ind,
        );
    } else if is_ending_line(l) {
        lemma_last_option(st1.options, ind);
        let end = st.labels.len() as int;
        let start = if ind == 0 {
            st1.title
        } else {
            last_option(st1.options, ind)->Some_0
        };
        if ind > 0 {
            let k = choose|k: int| 0 <= k < ind && st1.options[k] == Some(start);
            assert(st1.options[k] matches Some(q) ==> (q as int) < st1.labels.len());
        }
        lemma_updated_edges(st.labels.len(), st.labels.len() + 1, st.edges, start as int, end, ind);
        assert(r.labels.take(titles.len() as int) =~= st.labels.take(titles.len() as int));
    }
}

pub proof fn lemma_count_take(lines: Seq<Seq<char>>, p: spec_fn(Seq<char>) -> bool, i: int)
    requires
        0 <= i < lines.len(),
    ensures
        count_lines(lines.take(i + 1), p) == count_lines(lines.take(i), p) + if p(lines[i]) {
            1nat
        } else {
            0nat
        },
{
    assert(lines.take(i + 1).drop_last() =~= lines.take(i));
}

pub proof fn lemma_count_mono(lines: Seq<Seq<char>>, p: spec_fn(Seq<char>) -> bool, i: int)
    requires
        0 <= i <= lines.len(),
    ensures
        count_lines(lines.take(i), p) <= count_lines(lines, p),
    decreases lines.len(),
{
    if i == lines.len() {
        assert(lines.take(i) =~= lines);
    } else {
        assert(lines.drop_last().take(i) =~= lines.take(i));
        lemma_count_mono(lines.drop_last(), p, i);
    }
}

proof fn lemma_title_list_take(lines: Seq<Seq<char>>, i: int)
    requires
        0 <= i < lines.len(),
    ensures
        title_list(lines.take(i + 1)) == if is_title_line(lines[i]) {
            title_list(lines.take(i)).push(trim(lines[i]))
        } else {
            title_list(lines.take(i))
        },
{
    assert(lines.take(i + 1).drop_last() =~= lines.take(i));
}

proof fn lemma_title_list_mono(lines: Seq<Seq<char>>, i: int)
    requires
        0 <= i <= lines.len(),
    ensures
        title_list(lines.take(i)).len() <= title_list(lines).len(),
    decreases lines.len(),
{
    if i == lines.len() {
        assert(lines.take(i) =~= lines);
    } else {
        assert(lines.drop_last().take(i) =~= lines.take(i));
        lemma_title_list_mono(lines.drop_last(), i);
    }
}

proof fn lemma_run_take(titles: Seq<Seq<char>>, lines: Seq<Seq<char>>, st: FlowState, i: int)
    requires
        0 <= i < lines.len(),
    ensures
        flow_run(titles, lines.take(i + 1), st) == flow_step(
            titles,
            flow_run(titles, lines.take(i), st),
            lines[i],
        ),
        flow_run_ok(titles, lines.take(i + 1), st) == (flow_run_ok(titles, lines.take(i), st)
            && flow_step_ok(titles, flow_run(titles, lines.take(i), st), lines[i])),
{
    assert(lines.take(i + 1).drop_last() =~= lines.take(i));
}

proof fn lemma_run_ok_prefix(titles: Seq<Seq<char>>, lines: Seq<Seq<char>>, st: FlowState, i: int)
    requires
        0 <= i <= lines.len(),
        flow_run_ok(titles, lines, st),
    ensures
        flow_run_ok(titles, lines.take(i), st),
    decreases lines.len(),
{
    if i == lines.len() {
        assert(lines.take(i) =~= lines);
    } else {
        assert(lines.drop_last().take(i) =~= lines.take(i));
        lemma_run_ok_prefix(titles, lines.drop_last(), st, i);
    }
}

} // verus!

verus! {

proof fn lemma_leading_skip(s: Seq<char>, k: int)
    requires
        0 <= k <= s.len(),
        forall|j: int| 0 <= j < k ==> is_white_space(#[trigger] s[j]),
    ensures
        leading_white_space(s) == k + leading_white_space(s.skip(k)),
    decreases k,
{
    if k > 0 {
        assert(s.drop_first().skip(k - 1) =~= s.skip(k));
        lemma_leading_skip(s.drop_first(), k - 1);
    } else {
        assert(s.skip(0) =~= s);
    }
}

/// The number of white-space characters at the start of `line`.
pub fn count_whitespaces(line: &[char]) -> (n: usize)
    ensures
        n == leading_white_space(line@),
{
    let mut k: usize = 0;
    while k < line.len() && is_whitespace(line[k])
        invariant
            k <= line@.len(),
            forall|j: int| 0 <= j < k ==> is_white_space(#[trigger] line@[j]),
        decreases line@.len() - k,
    {
        k = k + 1;
    }
    proof {
        lemma_leading_skip(line@, k as int);
        if k < line@.len() {
            assert(line@.skip(k as int)[0] == line@[k as int]);
        }
    }
    k
}

/// The indentation level of `line`, whose indentation must be whole levels
/// of four white-space characters.
pub fn index_from_whitespaces(line: &[char]) -> (n: usize)
    requires
        leading_white_space(line@) % 4 == 0,
    ensures
        n == level(line@),
{
    let whitespaces = count_whitespaces(line);
    whitespaces / 4
}

/// The graph while the lines of a dialogue are read.
struct Container {
    title: usize,
    player_options: Vec<Option<usize>>,
    graph: Graph<String, usize>,
    titles: Vec<Vec<char>>,
}

impl Container {
    spec fn state(&self) -> FlowState {
        FlowState {
            labels: graph_labels(self.graph),
            edges: graph_edges(self.graph),
            title: self.title,
            options: self.player_options@,
        }
    }

    spec fn title_seq(&self) -> Seq<Seq<char>> {
        self.titles@.map_values(|t: Vec<char>| t@)
    }

}

/// Where `t` stands among the titles; `t` must be one of them.
fn find_title(titles: &Vec<Vec<char>>, t: &[char]) -> (k: usize)
    requires
        titles@.map_values(|x: Vec<char>| x@).contains(t@),
        all_distinct(titles@.map_values(|x: Vec<char>| x@)),
    ensures
        k == title_index(titles@.map_values(|x: Vec<char>| x@), t@),
        k < titles@.len(),
{
    let ghost ts = titles@.map_values(|x: Vec<char>| x@);
    let mut k: usize = 0;
    while k < titles.len()
        invariant
            ts == titles@.map_values(|x: Vec<char>| x@),
            ts.contains(t@),
            all_distinct(ts),
            k <= titles@.len(),
            forall|j: int| 0 <= j < k ==> ts[j] != t@,
        decreases titles@.len() - k,
    {
        assert(ts[k as int] == titles@[k as int]@);
        if chars_equal(&titles[k], t) {
            proof {
                lemma_title_index(ts, t@, k as int);
            }
            return k;
        }
        k = k + 1;
    }
    proof {
        let w = choose|w: int| 0 <= w < ts.len() && ts[w] == t@;
        assert(ts[w] != t@);
    }
    0
}

/// Forgets the player options at `line`'s level and deeper.
fn clear_player_options(container: &mut Container, line: &[char])
    requires
        old(container).player_options@.len() == OPTION_SLOTS,
        leading_white_space(line@) % 4 == 0,
    ensures
        final(container).state() == (FlowState {
            options: cleared(old(container).state().options, level(line@)),
            ..old(container).state()
        }),
        final(container).titles == old(container).titles,
{
    let index = index_from_whitespaces(line);
    let len = container.player_options.len();
    let first = if index < len {
        index
    } else {
        len
    };
    let mut i = len;
    while i > first
        invariant
            first <= i <= len,
            first == index || first == len,
            index >= len ==> first == len,
            len == OPTION_SLOTS,
            container.player_options@.len() == len,
            container.graph == old(container).graph,
            container.title == old(container).title,
            container.titles == old(container).titles,
            forall|k: int|
                0 <= k < len ==> #[trigger] container.player_options@[k] == if k >= i {
                    None
                } else {
                    old(container).player_options@[k]
                },
        decreases i,
    {
        i = i - 1;
        container.player_options.set(i, None);
    }
    assert(container.player_options@ =~= cleared(old(container).player_options@, index as int));
}

/// Adds the node of a player option and the edge that leads to it, from the
/// option one level up or from the title.
fn handle_player_option(container: &mut Container, line: &[char])
    requires
        flow_inv(old(container).title_seq(), old(container).state()),
        leading_white_space(line@) % 4 == 0,
        level(line@) < OPTION_SLOTS,
        graph_labels(old(container).graph).len() < u32::MAX,
        graph_edges(old(container).graph).len() < u32::MAX,
    ensures
        final(container).state() == after_option(old(container).state(), line@),
        final(container).titles == old(container).titles,
{
    let index = index_from_whitespaces(line);
    let label = string_of(&trim_chars(line));
    let end = graph_add_node(&mut container.graph, label);
    let start = if index == 0 {
        container.title
    } else {
        match container.player_options[index - 1] {
            Some(r) => r,
            None => container.title,
        }
    };
    proof {
        let st = old(container).state();
        if index > 0 {
            assert(st.options[index - 1] matches Some(q) ==> (q as int) < st.labels.len());
        }
    }
    graph_update_edge(&mut container.graph, start, end, index);
    container.player_options.set(index, Some(end));
    assert(container.state().labels =~= after_option(old(container).state(), line@).labels);
    assert(container.state().options =~= after_option(old(container).state(), line@).options);
}

/// The node that the option, or else the title, at a jump's level leads
/// from.
fn last_option_before(options: &Vec<Option<usize>>, index: usize) -> (r: Option<usize>)
    requires
        index <= options@.len(),
    ensures
        r == last_option(options@, index as int),
{
    let mut k = index;
    while k > 0
        invariant
            k <= index <= options@.len(),
            last_option(options@, index as int) == last_option(options@, k as int),
        decreases k,
    {
        match options[k - 1] {
            Some(r) => {
                return Some(r);
            },
            None => {
                k = k - 1;
            },
        }
    }
    None
}

} // verus!

verus! {

/// Adds the edge of a jump: from the option at the jump's level or above,
/// or else from the title, to the title that the jump names.
fn handle_jump_command(container: &mut Container, line: &[char])
    requires
        flow_inv(old(container).title_seq(), old(container).state()),
        all_distinct(old(container).title_seq()),
        is_jump_line(line@),
        leading_white_space(line@) % 4 == 0,
        level(line@) <= OPTION_SLOTS,
        jump_word(line@).len() >= 2,
        jump_word(line@).skip(jump_word(line@).len() - 2) == ">>"@,
        old(container).title_seq().contains(jump_target(line@)),
        graph_edges(old(container).graph).len() < u32::MAX,
        indexable(old(container).graph),
    ensures
        final(container).state() == after_jump(
            old(container).title_seq(),
            old(container).state(),
            line@,
        ),
        final(container).titles == old(container).titles,
{
    let trimmed = trim_chars(line);
    proof {
        reveal_strlit("<<jump ");
        assert(trimmed@.take(7)[6] == ' ');
        crate::text::lemma_split_two(trimmed@, ' ', 6);
    }
    let parts = split_chars(&trimmed, ' ');
    assert(parts@.map_values(|p: Vec<char>| p@)[1] == parts@[1]@);
    let word = &parts[1];
    let cut = word.len() - 2;
    let mut title = chars_of("title: ");
    let mut name = copy_range(word, 0, cut);
    title.append(&mut name);
    assert(title@ =~= jump_target(line@));
    let title_node = find_title(&container.titles, &title);
    let index = index_from_whitespaces(line);
    let found = last_option_before(&container.player_options, index);
    let option_node = match found {
        Some(r) => r,
        None => container.title,
    };
    proof {
        let st = old(container).state();
        lemma_last_option(st.options, index as int);
        if found is Some {
            let k = choose|k: int| 0 <= k < index && st.options[k] == found;
            assert(st.options[k] matches Some(q) ==> (q as int) < st.labels.len());
        }
        assert(old(container).title_seq().len() > 0);
    }
    graph_update_edge(&mut container.graph, option_node, title_node, index);
}

/// Adds an ending node and the edge to it: from the title at level zero,
/// else from the option at the ending's level or above, which must exist.
fn handle_ending_command(container: &mut Container, line: &[char])
    requires
        flow_inv(old(container).title_seq(), old(container).state()),
        leading_white_space(line@) % 4 == 0,
        level(line@) <= OPTION_SLOTS,
        level(line@) > 0 ==> last_option(old(container).state().options, level(line@)) is Some,
        graph_labels(old(container).graph).len() < u32::MAX,
        graph_edges(old(container).graph).len() < u32::MAX,
    ensures
        final(container).state() == after_ending(old(container).state(), line@),
        final(container).titles == old(container).titles,
{
    let weight = index_from_whitespaces(line);
    let start = if weight == 0 {
        container.title
    } else {
        last_option_before(&container.player_options, weight).unwrap()
    };
    proof {
        let st = old(container).state();
        lemma_last_option(st.options, weight as int);
        if weight > 0 {
            let k = choose|k: int| 0 <= k < weight && st.options[k] == Some(start);
            assert(st.options[k] matches Some(q) ==> (q as int) < st.labels.len());
        }
    }
    let end = graph_add_node(&mut container.graph, "Fin".to_string());
    graph_update_edge(&mut container.graph, start, end, weight);
}

} // verus!

verus! {

/// The characters of `a`, `b` and `c` in a row, as a `String`.
fn joined(a: &str, b: &str, c: &str) -> (s: String)
    ensures
        s@ == a@ + b@ + c@,
{
    let mut v = chars_of(a);
    let mut w = chars_of(b);
    let mut x = chars_of(c);
    v.append(&mut w);
    v.append(&mut x);
    string_of(&v)
}

/// Marks every node for its drawing: a node that no edge leaves gets the
/// leaf colour, a title node the title style and shape.
fn label_graph_with_attributes(container: &mut Container)
    requires
        indexable(old(container).graph),
    ensures
        graph_labels(final(container).graph) == decorated_labels(
            graph_labels(old(container).graph),
            graph_edges(old(container).graph),
        ),
        graph_edges(final(container).graph) == graph_edges(old(container).graph),
        final(container).title == old(container).title,
        final(container).player_options == old(container).player_options,
        final(container).titles == old(container).titles,
{
    let ghost labels0 = graph_labels(container.graph);
    let ghost edges0 = graph_edges(container.graph);
    let leaf_text = joined(ATTR_DELIMETER, "color=", LEAF_NODE_COLOR);
    let style = joined(ATTR_DELIMETER, "style=", TITLE_NODE_STYLE);
    let shape = joined(ATTR_DELIMETER, "shape=", TITLE_NODE_SHAPE);
    let title_text = joined(style.as_str(), shape.as_str(), "");
    proof {
        reveal_strlit("");
        assert(title_text@ =~= title_attributes());
    }
    let title_prefix = chars_of("title: ");
    let n = graph_node_count(&container.graph);
    let mut i: usize = 0;
    while i < n
        invariant
            n == labels0.len(),
            i <= n,
            n <= u32::MAX,
            leaf_text@ == leaf_attributes(),
            title_text@ == title_attributes(),
            title_prefix@ == "title: "@,
            graph_edges(container.graph) == edges0,
            graph_labels(container.graph) == Seq::new(
                n as nat,
                |j: int|
                    if j < i {
                        decorated_label(labels0[j], out_degree(edges0, j))
                    } else {
                        labels0[j]
                    },
            ),
            container.title == old(container).title,
            container.player_options == old(container).player_options,
            container.titles == old(container).titles,
        decreases n - i,
    {
        let leaf = graph_out_degree(&container.graph, i) == 0;
        let label = graph_label(&container.graph, i);
        let title = chars_start_with(&chars_of(label.as_str()), &title_prefix);
        let ghost before = graph_labels(container.graph);
        if leaf {
            graph_append_label(&mut container.graph, i, leaf_text.as_str());
        }
        if title {
            graph_append_label(&mut container.graph, i, title_text.as_str());
        }
        i = i + 1;
        assert(graph_labels(container.graph) =~= Seq::new(
            n as nat,
            |j: int|
                if j < i {
                    decorated_label(labels0[j], out_degree(edges0, j))
                } else {
                    labels0[j]
                },
        ));
    }
    assert(graph_labels(container.graph) =~= decorated_labels(labels0, edges0));
}

/// Builds the conversation-flow graph of the yarn text `contents`: first a
/// node for each title, then, line by line, a node for each player option
/// and ending and an edge for each option, jump and ending; at last each
/// node is marked for its drawing.
pub fn construct_graph(contents: String) -> (graph: Graph<String, usize>)
    requires
        flow_input_ok(contents@),
    ensures
        graph_labels(graph) == decorated_labels(
            final_flow(lines(contents@)).labels,
            final_flow(lines(contents@)).edges,
        ),
        graph_edges(graph) == final_flow(lines(contents@)).edges,
        edges_valid(graph_labels(graph).len(), graph_edges(graph)),
        title_list(lines(contents@)).len() <= graph_labels(graph).len(),
        final_flow(lines(contents@)).labels.take(title_list(lines(contents@)).len() as int)
            == title_list(lines(contents@)),
{
    let chars = chars_of(contents.as_str());
    let dialogue_lines = lines_of(&chars);
    let ghost ls = lines(contents@);
    let n = dialogue_lines.len();
    let mut container = Container {
        title: 0,
        player_options: vec![None; OPTION_SLOTS],
        graph: graph_new(),
        titles: Vec::new(),
    };
    let title_prefix = chars_of("title: ");
    let mut i: usize = 0;
    while i < n
        invariant
            n == ls.len(),
            dialogue_lines@.map_values(|l: Vec<char>| l@) == ls,
            i <= n,
            title_prefix@ == "title: "@,
            flow_input_ok(contents@),
            ls == lines(contents@),
            container.title_seq() == title_list(ls.take(i as int)),
            graph_labels(container.graph) == container.title_seq(),
            graph_edges(container.graph) == Seq::<(int, int, int)>::empty(),
            container.title == 0,
            container.player_options@ == Seq::new(OPTION_SLOTS as nat, |k: int| None::<usize>),
        decreases n - i,
    {
        assert(dialogue_lines@.map_values(|l: Vec<char>| l@)[i as int] == dialogue_lines@[i as int]@);
        let trimmed = trim_chars(&dialogue_lines[i]);
        proof {
            lemma_title_list_take(ls, i as int);
            lemma_title_list_mono(ls, i + 1);
        }
        if chars_start_with(&trimmed, &title_prefix) {
            let label = string_of(&trimmed);
            graph_add_node(&mut container.graph, label);
            let ghost before = container.title_seq();
            container.titles.push(trimmed);
            assert(container.title_seq() =~= before.push(trim(ls[i as int])));
        }
        i = i + 1;
    }
    assert(ls.take(n as int) =~= ls);
    let ghost titles = title_list(ls);
    let ghost init = initial_flow(titles);
    assert(container.state() =~= init);
    proof {
        assert(ls.take(0) =~= Seq::<Seq<char>>::empty());
        assert(titles.take(titles.len() as int) =~= titles);
        assert(flow_inv(titles, init));
    }
    let option_prefix = chars_of("-> ");
    let jump_prefix = chars_of("<<jump ");
    let ending_prefix = chars_of("<<trigger_ending ");
    let mut i: usize = 0;
    while i < n
        invariant
            n == ls.len(),
            dialogue_lines@.map_values(|l: Vec<char>| l@) == ls,
            i <= n,
            title_prefix@ == "title: "@,
            option_prefix@ == "-> "@,
            jump_prefix@ == "<<jump "@,
            ending_prefix@ == "<<trigger_ending "@,
            flow_input_ok(contents@),
            ls == lines(contents@),
            titles == title_list(ls),
            init == initial_flow(titles),
            container.title_seq() == titles,
            container.state() == flow_run(titles, ls.take(i as int), init),
            flow_inv(titles, container.state()),
            graph_labels(container.graph).len() == titles.len() + count_lines(
                ls.take(i as int),
                |l: Seq<char>| adds_node(l),
            ),
            graph_edges(container.graph).len() <= count_lines(
                ls.take(i as int),
                |l: Seq<char>| may_add_edge(l),
            ),
        decreases n - i,
    {
        let ghost st = container.state();
        let ghost l = ls[i as int];
        proof {
            lemma_run_ok_prefix(titles, ls, init, i + 1);
            lemma_run_take(titles, ls, init, i as int);
            lemma_count_take(ls, |l: Seq<char>| adds_node(l), i as int);
            lemma_count_take(ls, |l: Seq<char>| may_add_edge(l), i as int);
            lemma_count_mono(ls, |l: Seq<char>| adds_node(l), i + 1);
            lemma_count_mono(ls, |l: Seq<char>| may_add_edge(l), i + 1);
            lemma_flow_step(titles, st, l);
            lemma_cleared_inv(titles, st, level(l));
            assert(dialogue_lines@.map_values(|l: Vec<char>| l@)[i as int] == dialogue_lines@[i as int]@);
        }
        let line = &dialogue_lines[i];
        clear_player_options(&mut container, line);
        let trimmed = trim_chars(line);
        if chars_start_with(&trimmed, &title_prefix) {
            container.title = find_title(&container.titles, line);
        } else if chars_start_with(&trimmed, &option_prefix) {
            handle_player_option(&mut container, line);
        } else if chars_start_with(&trimmed, &jump_prefix) {
            handle_jump_command(&mut container, line);
        } else if chars_start_with(&trimmed, &ending_prefix) {
            handle_ending_command(&mut container, line);
        }
        i = i + 1;
    }
    assert(ls.take(n as int) =~= ls);
    label_graph_with_attributes(&mut container);
    container.graph
}

} // verus!

verus! {

/// The views of character vectors.
pub open spec fn views(v: Seq<Vec<char>>) -> Seq<Seq<char>> {
    v.map_values(|t: Vec<char>| t@)
}

proof fn lemma_not_ok(titles: Seq<Seq<char>>, lines: Seq<Seq<char>>, st: FlowState, i: int)
    requires
        0 <= i < lines.len(),
        !flow_step_ok(titles, flow_run(titles, lines.take(i), st), lines[i]),
    ensures
        !flow_run_ok(titles, lines, st),
{
    if flow_run_ok(titles, lines, st) {
        lemma_run_ok_prefix(titles, lines, st, i + 1);
        lemma_run_take(titles, lines, st, i);
    }
}

/// Whether reading a jump line succeeds in a state with the given titles;
/// see `flow_step_ok`.
fn jump_ok(titles: &Vec<Vec<char>>, line: &[char], level: usize) -> (ok: bool)
    requires
        is_jump_line(line@),
    ensures
        ok == {
            &&& level <= OPTION_SLOTS
            &&& jump_word(line@).len() >= 2
            &&& jump_word(line@).skip(jump_word(line@).len() - 2) == ">>"@
            &&& views(titles@).contains(jump_target(line@))
        },
{
    if level > OPTION_SLOTS {
        return false;
    }
    let trimmed = trim_chars(line);
    proof {
        reveal_strlit("<<jump ");
        assert(trimmed@.take(7)[6] == ' ');
        crate::text::lemma_split_two(trimmed@, ' ', 6);
    }
    let parts = split_chars(&trimmed, ' ');
    assert(parts@.map_values(|p: Vec<char>| p@)[1] == parts@[1]@);
    let word = &parts[1];
    if word.len() < 2 {
        return false;
    }
    let cut = word.len() - 2;
    let tail = copy_range(word, cut, word.len());
    if !chars_equal(&tail, &chars_of(">>")) {
        assert(tail@ =~= jump_word(line@).skip(jump_word(line@).len() - 2));
        return false;
    }
    assert(tail@ =~= jump_word(line@).skip(jump_word(line@).len() - 2));
    let mut title = chars_of("title: ");
    let mut name = copy_range(word, 0, cut);
    title.append(&mut name);
    assert(title@ =~= jump_target(line@));
    let ghost ts = views(titles@);
    let mut k: usize = 0;
    while k < titles.len()
        invariant
            k <= titles@.len(),
            ts == views(titles@),
            title@ == jump_target(line@),
            level <= OPTION_SLOTS,
            jump_word(line@).len() >= 2,
            jump_word(line@).skip(jump_word(line@).len() - 2) == ">>"@,
            forall|j: int| 0 <= j < k ==> ts[j] != title@,
        decreases titles@.len() - k,
    {
        assert(ts[k as int] == titles@[k as int]@);
        if chars_equal(&titles[k], &title) {
            assert(ts.contains(title@));
            return true;
        }
        k = k + 1;
    }
    false
}

/// Whether `line` is one of `titles`.
fn is_known_title(titles: &Vec<Vec<char>>, line: &[char]) -> (b: bool)
    ensures
        b == views(titles@).contains(line@),
{
    let ghost ts = views(titles@);
    let mut k: usize = 0;
    while k < titles.len()
        invariant
            k <= titles@.len(),
            ts == views(titles@),
            forall|j: int| 0 <= j < k ==> ts[j] != line@,
        decreases titles@.len() - k,
    {
        assert(ts[k as int] == titles@[k as int]@);
        if chars_equal(&titles[k], line) {
            assert(ts.contains(line@));
            return true;
        }
        k = k + 1;
    }
    false
}

/// The titles of the lines `ls` (trimmed) and how many of the lines add a
/// node and may add an edge.
fn scan_titles(dialogue_lines: &Vec<Vec<char>>) -> (r: (Vec<Vec<char>>, u64, u64))
    ensures
        views(r.0@) == title_list(views(dialogue_lines@)),
        r.1 == count_lines(views(dialogue_lines@), |l: Seq<char>| adds_node(l)),
        r.2 == count_lines(views(dialogue_lines@), |l: Seq<char>| may_add_edge(l)),
{
    let ghost ls = views(dialogue_lines@);
    let n = dialogue_lines.len();
    let title_prefix = chars_of("title: ");
    let option_prefix = chars_of("-> ");
    let jump_prefix = chars_of("<<jump ");
    let ending_prefix = chars_of("<<trigger_ending ");
    let mut titles: Vec<Vec<char>> = Vec::new();
    let mut adds: u64 = 0;
    let mut edge_lines: u64 = 0;
    let mut i: usize = 0;
    assert(ls.take(0) =~= Seq::<Seq<char>>::empty());
    while i < n
        invariant
            n == ls.len(),
            views(dialogue_lines@) == ls,
            i <= n,
            title_prefix@ == "title: "@,
            option_prefix@ == "-> "@,
            jump_prefix@ == "<<jump "@,
            ending_prefix@ == "<<trigger_ending "@,
            views(titles@) == title_list(ls.take(i as int)),
            adds == count_lines(ls.take(i as int), |l: Seq<char>| adds_node(l)),
            edge_lines == count_lines(ls.take(i as int), |l: Seq<char>| may_add_edge(l)),
            adds <= i,
            edge_lines <= i,
        decreases n - i,
    {
        assert(views(dialogue_lines@)[i as int] == dialogue_lines@[i as int]@);
        proof {
            lemma_title_list_take(ls, i as int);
            lemma_count_take(ls, |l: Seq<char>| adds_node(l), i as int);
            lemma_count_take(ls, |l: Seq<char>| may_add_edge(l), i as int);
        }
        let trimmed = trim_chars(&dialogue_lines[i]);
        let title = chars_start_with(&trimmed, &title_prefix);
        let option = chars_start_with(&trimmed, &option_prefix);
        let jump = chars_start_with(&trimmed, &jump_prefix);
        let ending = chars_start_with(&trimmed, &ending_prefix);
        if title {
            let ghost before = views(titles@);
            titles.push(trimmed);
            assert(views(titles@) =~= before.push(trim(ls[i as int])));
        } else {
            if option || (!jump && ending) {
                adds = adds + 1;
            }
            if option || jump || ending {
                edge_lines = edge_lines + 1;
            }
        }
        i = i + 1;
    }
    assert(ls.take(n as int) =~= ls);
    (titles, adds, edge_lines)
}

/// Whether no two of `titles` are equal.
fn titles_distinct(titles: &Vec<Vec<char>>) -> (ok: bool)
    ensures
        ok == all_distinct(views(titles@)),
{
    let ghost ts = views(titles@);
    let mut a: usize = 0;
    while a < titles.len()
        invariant
            a <= titles@.len(),
            ts == views(titles@),
            forall|x: int, y: int| 0 <= x < y < titles@.len() && x < a ==> ts[x] != ts[y],
        decreases titles@.len() - a,
    {
        let mut b: usize = a + 1;
        while b < titles.len()
            invariant
                a < b <= titles@.len(),
                ts == views(titles@),
                forall|x: int, y: int| 0 <= x < y < titles@.len() && x < a ==> ts[x] != ts[y],
                forall|y: int| a < y < b ==> ts[a as int] != ts[y],
            decreases titles@.len() - b,
        {
            assert(ts[a as int] == titles@[a as int]@ && ts[b as int] == titles@[b as int]@);
            if chars_equal(&titles[a], &titles[b]) {
                assert(ts[a as int] == ts[b as int]);
                return false;
            }
            b = b + 1;
        }
        a = a + 1;
    }
    true
}

/// Whether every line of `dialogue_lines` can be read, from the first state
/// of `titles`: the flow is followed on the option slots and the node count
/// alone, which is all that decides it.
fn lines_readable(dialogue_lines: &Vec<Vec<char>>, titles: &Vec<Vec<char>>) -> (ok: bool)
    requires
        views(titles@) == title_list(views(dialogue_lines@)),
        all_distinct(views(titles@)),
        views(titles@).len() + count_lines(views(dialogue_lines@), |l: Seq<char>| adds_node(l))
            <= u32::MAX,
    ensures
        ok == flow_run_ok(
            views(titles@),
            views(dialogue_lines@),
            initial_flow(views(titles@)),
        ),
{
    let ghost ls = views(dialogue_lines@);
    let ghost ts = views(titles@);
    let ghost init = initial_flow(ts);
    let n = dialogue_lines.len();
    let title_prefix = chars_of("title: ");
    let option_prefix = chars_of("-> ");
    let jump_prefix = chars_of("<<jump ");
    let ending_prefix = chars_of("<<trigger_ending ");
    let mut options: Vec<Option<usize>> = vec![None; OPTION_SLOTS];
    let mut nodes: usize = titles.len();
    let mut i: usize = 0;
    assert(ls.take(0) =~= Seq::<Seq<char>>::empty());
    assert(flow_run(ts, ls.take(0), init) == init);
    assert(flow_run_ok(ts, ls.take(0), init));
    assert(options@ =~= init.options);
    assert(ts.take(ts.len() as int) =~= ts);
    assert(flow_inv(ts, init));
    assert(count_lines(ls.take(0), |l: Seq<char>| adds_node(l)) == 0);
    while i < n
        invariant
            n == ls.len(),
            views(dialogue_lines@) == ls,
            i <= n,
            title_prefix@ == "title: "@,
            option_prefix@ == "-> "@,
            jump_prefix@ == "<<jump "@,
            ending_prefix@ == "<<trigger_ending "@,
            ts == views(titles@),
            init == initial_flow(ts),
            all_distinct(ts),
            ts.len() + count_lines(ls, |l: Seq<char>| adds_node(l)) <= u32::MAX,
            flow_run_ok(ts, ls.take(i as int), init),
            options@ == flow_run(ts, ls.take(i as int), init).options,
            nodes == flow_run(ts, ls.take(i as int), init).labels.len(),
            flow_inv(ts, flow_run(ts, ls.take(i as int), init)),
            nodes == ts.len() + count_lines(ls.take(i as int), |l: Seq<char>| adds_node(l)),
        decreases n - i,
    {
        let ghost st = flow_run(ts, ls.take(i as int), init);
        let ghost l = ls[i as int];
        assert(views(dialogue_lines@)[i as int] == dialogue_lines@[i as int]@);
        proof {
            lemma_run_take(ts, ls, init, i as int);
            lemma_count_take(ls, |l: Seq<char>| adds_node(l), i as int);
            lemma_count_mono(ls, |l: Seq<char>| adds_node(l), i + 1);
        }
        let line = &dialogue_lines[i];
        let ws = count_whitespaces(line);
        if ws % 4 != 0 {
            proof {
                lemma_not_ok(ts, ls, init, i as int);
            }
            return false;
        }
        let level = ws / 4;
        let mut j: usize = level;
        while j < OPTION_SLOTS
            invariant
                level <= j,
                options@.len() == OPTION_SLOTS,
                forall|k: int|
                    0 <= k < OPTION_SLOTS ==> #[trigger] options@[k] == if k >= level && k < j {
                        None
                    } else {
                        st.options[k]
                    },
            decreases OPTION_SLOTS - j,
        {
            options.set(j, None);
            j = j + 1;
        }
        assert(options@ =~= cleared(st.options, level as int));
        let trimmed = trim_chars(line);
        if chars_start_with(&trimmed, &title_prefix) {
            if !is_known_title(titles, line) {
                proof {
                    lemma_not_ok(ts, ls, init, i as int);
                }
                return false;
            }
        } else if chars_start_with(&trimmed, &option_prefix) {
            if level >= OPTION_SLOTS {
                proof {
                    lemma_not_ok(ts, ls, init, i as int);
                }
                return false;
            }
            options.set(level, Some(nodes));
            nodes = nodes + 1;
        } else if chars_start_with(&trimmed, &jump_prefix) {
            if !jump_ok(titles, line, level) {
                proof {
                    lemma_not_ok(ts, ls, init, i as int);
                }
                return false;
            }
        } else if chars_start_with(&trimmed, &ending_prefix) {
            let found = if level <= OPTION_SLOTS {
                last_option_before(&options, level)
            } else {
                None
            };
            if level > OPTION_SLOTS || (level > 0 && found.is_none()) {
                proof {
                    lemma_not_ok(ts, ls, init, i as int);
                }
                return false;
            }
            nodes = nodes + 1;
        }
        proof {
            lemma_flow_step(ts, st, l);
        }
        assert(options@ =~= flow_run(ts, ls.take(i + 1), init).options);
        i = i + 1;
    }
    assert(ls.take(n as int) =~= ls);
    true
}

/// Whether `construct_graph` builds a graph from `contents` (see
/// `flow_input_ok`): the titles are distinct, every line can be read, and
/// the node and edge counts stay within `u32` indices.
pub fn check_dialogue_flow(contents: &str) -> (ok: bool)
    ensures
        ok == flow_input_ok(contents@),
{
    let chars = chars_of(contents);
    let dialogue_lines = lines_of(&chars);
    assert(views(dialogue_lines@) == lines(contents@));
    let (titles, adds, edge_lines) = scan_titles(&dialogue_lines);
    if (titles.len() as u128) + (adds as u128) > u32::MAX as u128 || edge_lines > u32::MAX as u64 {
        return false;
    }
    if !titles_distinct(&titles) {
        return false;
    }
    lines_readable(&dialogue_lines, &titles)
}

} // verus!
