//! What the graph tool writes: the drawing attributes that travel inside a
//! node's label are turned into DOT attributes, and a header notes how many
//! nodes end the conversation.

use petgraph::graph::Graph;
use vstd::prelude::*;

use crate::dialogue_flow::ATTR_DELIMETER;
use crate::petgraph_specs::{graph_edges, graph_labels, graph_node_count, graph_out_degree, indexable, out_degree};
use crate::text::{
    chars_of, contains_text, decimal, decimal_chars, find_text, split, split_chars, split_text,
    split_text_chars, string_of,
};

verus! {

/// The DOT attributes ` [ a ]` for each of `attrs`, in order.
pub open spec fn appendix(attrs: Seq<Seq<char>>) -> Seq<char>
    decreases attrs.len(),
{
    if attrs.len() == 0 {
        Seq::empty()
    } else {
        appendix(attrs.drop_last()) + " [ "@ + attrs.last() + " ]"@
    }
}

/// Whether a line of DOT text can be rewritten: a line that holds the
/// delimiter has exactly one quoted label, and the label holds it.
pub open spec fn dot_line_ok(line: Seq<char>) -> bool {
    contains_text(line, ATTR_DELIMETER@) ==> {
        &&& split(line, '"').len() == 3
        &&& contains_text(split(line, '"')[1], ATTR_DELIMETER@)
    }
}

/// A line of DOT text, rewritten and ended by `\n`: where its label carries
/// attributes after the delimiter, the label keeps its first part and the
/// others follow the line as DOT attributes.
pub open spec fn relabeled_line(line: Seq<char>) -> Seq<char> {
    if !contains_text(line, ATTR_DELIMETER@) {
        line + "\n"@
    } else {
        let parts = split(line, '"');
        let attrs = split_text(parts[1], ATTR_DELIMETER@);
        parts[0] + "\""@ + attrs[0] + "\""@ + parts[2] + appendix(attrs.drop_first()) + "\n"@
    }
}

/// The rewritten lines of `ls`, one after the other.
pub open spec fn relabeled_lines(ls: Seq<Seq<char>>) -> Seq<char>
    decreases ls.len(),
{
    if ls.len() == 0 {
        Seq::empty()
    } else {
        relabeled_lines(ls.drop_last()) + relabeled_line(ls.last())
    }
}

/// Whether every line of the DOT text `content` can be rewritten.
pub open spec fn dot_content_ok(content: Seq<char>) -> bool {
    forall|i: int| 0 <= i < split(content, '\n').len() ==> dot_line_ok(#[trigger] split(content, '\n')[i])
}

/// Rewrites one line; see `relabeled_line`.
fn relabel_line(line: &[char], delim: &[char]) -> (out: Vec<char>)
    requires
        delim@ == ATTR_DELIMETER@,
        dot_line_ok(line@),
    ensures
        out@ == relabeled_line(line@),
{
    proof {
        reveal_strlit("|BREAK|");
    }
    let mut out: Vec<char> = Vec::new();
    let newline = chars_of("\n");
    if find_text(line, delim, 0).is_none() {
        out.extend_from_slice(line);
        out.extend_from_slice(&newline);
        return out;
    }
    let parts = split_chars(line, '"');
    assert(parts@.map_values(|p: Vec<char>| p@)[0] == parts@[0]@);
    assert(parts@.map_values(|p: Vec<char>| p@)[1] == parts@[1]@);
    assert(parts@.map_values(|p: Vec<char>| p@)[2] == parts@[2]@);
    let attrs = split_text_chars(&parts[1], delim);
    assert(attrs@.map_values(|p: Vec<char>| p@)[0] == attrs@[0]@);
    let ghost av = attrs@.map_values(|p: Vec<char>| p@);
    let quote = chars_of("\"");
    out.extend_from_slice(&parts[0]);
    out.extend_from_slice(&quote);
    out.extend_from_slice(&attrs[0]);
    out.extend_from_slice(&quote);
    out.extend_from_slice(&parts[2]);
    let ghost head = out@;
    let open = chars_of(" [ ");
    let close = chars_of(" ]");
    let mut k: usize = 1;
    assert(av.subrange(1, 1) =~= Seq::<Seq<char>>::empty());
    while k < attrs.len()
        invariant
            1 <= k <= attrs@.len(),
            av == attrs@.map_values(|p: Vec<char>| p@),
            open@ == " [ "@,
            close@ == " ]"@,
            out@ == head + appendix(av.subrange(1, k as int)),
        decreases attrs@.len() - k,
    {
        assert(av[k as int] == attrs@[k as int]@);
        out.extend_from_slice(&open);
        out.extend_from_slice(&attrs[k]);
        out.extend_from_slice(&close);
        assert(av.subrange(1, k + 1).drop_last() =~= av.subrange(1, k as int));
        k = k + 1;
        assert(out@ =~= head + appendix(av.subrange(1, k as int)));
    }
    assert(av.subrange(1, av.len() as int) =~= av.drop_first());
    out.extend_from_slice(&newline);
    out
}

/// Rewrites DOT text whose node labels carry drawing attributes after the
/// delimiter: each label keeps the text before the first delimiter, the
/// other parts become DOT attributes at the end of the line, and every line
/// is ended by `\n`.
pub fn relabel_dot_content(content: &str) -> (out: String)
    requires
        dot_content_ok(content@),
    ensures
        out@ == relabeled_lines(split(content@, '\n')),
{
    let chars = chars_of(content);
    let delim = chars_of(ATTR_DELIMETER);
    let lines = split_chars(&chars, '\n');
    let ghost ls = split(content@, '\n');
    let mut out: Vec<char> = Vec::new();
    let mut i: usize = 0;
    assert(ls.take(0) =~= Seq::<Seq<char>>::empty());
    while i < lines.len()
        invariant
            i <= lines@.len(),
            lines@.map_values(|p: Vec<char>| p@) == ls,
            ls == split(content@, '\n'),
            delim@ == ATTR_DELIMETER@,
            dot_content_ok(content@),
            out@ == relabeled_lines(ls.take(i as int)),
        decreases lines@.len() - i,
    {
        assert(ls[i as int] == lines@[i as int]@);
        assert(dot_line_ok(ls[i as int]));
        let mut piece = relabel_line(&lines[i], &delim);
        out.append(&mut piece);
        assert(ls.take(i + 1).drop_last() =~= ls.take(i as int));
        i = i + 1;
    }
    assert(ls.take(i as int) =~= ls);
    string_of(&out)
}

/// The number of the first `n` nodes that no edge leaves.
pub open spec fn leaf_count(n: nat, edges: Seq<(int, int, int)>) -> nat
    decreases n,
{
    if n == 0 {
        0
    } else {
        leaf_count((n - 1) as nat, edges) + if out_degree(edges, n - 1) == 0 {
            1nat
        } else {
            0nat
        }
    }
}

/// The number of nodes of `graph` that no edge leaves.
pub fn leaf_node_count(graph: &Graph<String, usize>) -> (count: usize)
    requires
        indexable(*graph),
    ensures
        count == leaf_count(graph_labels(*graph).len(), graph_edges(*graph)),
{
    let n = graph_node_count(graph);
    let mut count: usize = 0;
    let mut i: usize = 0;
    while i < n
        invariant
            i <= n,
            n == graph_labels(*graph).len(),
            indexable(*graph),
            count == leaf_count(i as nat, graph_edges(*graph)),
            count <= i,
        decreases n - i,
    {
        if graph_out_degree(graph, i) == 0 {
            count = count + 1;
        }
        i = i + 1;
    }
    count
}

/// The header that opens the DOT file of a graph with `leaves` leaf nodes.
pub open spec fn metadata_text(leaves: nat) -> Seq<char> {
    "/*\n"@ + "--- START METADATA ---\n"@ + "Leaf Nodes: "@ + decimal(leaves) + "\n"@
        + "--- END   METADATA ---\n"@ + "*/\n\n"@
}

/// The header that opens the DOT file of a graph with `leaf_node_count`
/// leaf nodes.
pub fn metadata_header(leaf_node_count: usize) -> (header: String)
    ensures
        header@ == metadata_text(leaf_node_count as nat),
{
    let mut out = chars_of("/*\n");
    out.extend_from_slice(&chars_of("--- START METADATA ---\n"));
    out.extend_from_slice(&chars_of("Leaf Nodes: "));
    out.extend_from_slice(&decimal_chars(leaf_node_count));
    out.extend_from_slice(&chars_of("\n"));
    out.extend_from_slice(&chars_of("--- END   METADATA ---\n"));
    out.extend_from_slice(&chars_of("*/\n\n"));
    string_of(&out)
}

} // verus!

verus! {

/// Whether every line of the DOT text `content` can be rewritten; see
/// `dot_line_ok`.
pub fn dot_content_valid(content: &str) -> (ok: bool)
    ensures
        ok == dot_content_ok(content@),
{
    proof {
        reveal_strlit("|BREAK|");
    }
    let chars = chars_of(content);
    let delim = chars_of(ATTR_DELIMETER);
    let lines = split_chars(&chars, '\n');
    let ghost ls = split(content@, '\n');
    let mut i: usize = 0;
    while i < lines.len()
        invariant
            i <= lines@.len(),
            lines@.map_values(|p: Vec<char>| p@) == ls,
            ls == split(content@, '\n'),
            delim@ == ATTR_DELIMETER@,
            delim@.len() > 0,
            forall|j: int| 0 <= j < i ==> dot_line_ok(#[trigger] ls[j]),
        decreases lines@.len() - i,
    {
        assert(ls[i as int] == lines@[i as int]@);
        let line = &lines[i];
        if find_text(line, &delim, 0).is_some() {
            let parts = split_chars(line, '"');
            if parts.len() != 3 {
                return false;
            }
            assert(parts@.map_values(|p: Vec<char>| p@)[1] == parts@[1]@);
            if find_text(&parts[1], &delim, 0).is_none() {
                return false;
            }
        }
        i = i + 1;
    }
    true
}

} // verus!
