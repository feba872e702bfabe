//! The library's stated laws, proved against the model.

use vstd::prelude::*;

use crate::model::DefV;
use crate::model::FootV;
use crate::model::StV;
use crate::model::def_line;
use crate::model::feet_lines;
use crate::model::fresh_row_st;
use crate::model::fresh_table_st;
use crate::model::join_nl;
use crate::model::render_spec;
use crate::model::step;
use crate::model::steps;
use crate::node::Node;
use crate::node::spec_children;
use crate::text::normalize;

verus! {

/// A childless root renders as the empty string; together with the absence of
/// any precondition on `State::render`, every tree renders.
pub proof fn law_total_childless(s: StV, t: Node)
    requires
        spec_children(t) is None,
    ensures
        render_spec(s, t).out == Seq::<char>::empty(),
        render_spec(s, t).st == s,
{
}

/// Rendering is deterministic: the output and the final state are a function
/// of the starting state and the tree alone.
pub proof fn law_deterministic(s1: StV, s2: StV, t1: Node, t2: Node)
    requires
        s1 == s2,
        t1 == t2,
    ensures
        render_spec(s1, t1) == render_spec(s2, t2),
{
}

/// An unsupported node contributes the empty string, records exactly one
/// diagnostic line, and leaves the rest of the state untouched.
pub proof fn law_unsupported_node(s: StV, n: Node)
    requires
        n is MdxTextExpression || n is MdxFlowExpression || n is MdxJsxFlowElement || n is MdxjsEsm
            || n is MdxJsxTextElement,
    ensures
        step(s, n).out == Seq::<char>::empty(),
        step(s, n).st.diags.len() == s.diags.len() + 1,
        step(s, n).st.tbl == s.tbl,
        step(s, n).st.row == s.row,
        step(s, n).st.defs == s.defs,
        step(s, n).st.feet == s.feet,
{
}

/// Inside a table or row context, inline code and inline math are emitted as
/// their literal text, without the monospace wrapper.
pub proof fn law_inline_unwrapped_in_cell(s: StV, v: String, w: String)
    requires
        s.tbl is Some || s.row is Some,
    ensures
        step(s, Node::InlineCode { value: v }).out == v@,
        step(s, Node::InlineMath { value: w }).out == w@,
{
}

/// The definitions that a top-level pass captures from one node, in document
/// order: definitions inside table subtrees, inside rows and cells, and
/// inside footnote bodies are discarded by the pass and so do not appear.
pub open spec fn all_defs(n: Node) -> Seq<DefV>
    decreases n,
{
    match n {
        Node::Definition { def } => seq![def@],
        Node::Root { children } => all_defs_seq(children@),
        Node::Paragraph { children } => all_defs_seq(children@),
        Node::BlockQuote { children } => all_defs_seq(children@),
        Node::List { children, .. } => all_defs_seq(children@),
        Node::ListItem { children } => all_defs_seq(children@),
        Node::Heading { children, .. } => all_defs_seq(children@),
        Node::Emphasis { children } => all_defs_seq(children@),
        Node::Strong { children } => all_defs_seq(children@),
        Node::Delete { children } => all_defs_seq(children@),
        Node::Link { children, .. } => all_defs_seq(children@),
        Node::LinkReference { children, .. } => all_defs_seq(children@),
        _ => Seq::empty(),
    }
}

/// The definitions captured from a node sequence, in document order.
pub open spec fn all_defs_seq(ns: Seq<Node>) -> Seq<DefV>
    decreases ns,
{
    if ns.len() == 0 {
        Seq::empty()
    } else {
        all_defs(ns[0]) + all_defs_seq(ns.drop_first())
    }
}

/// The footnotes that a top-level pass captures from one node, in document
/// order, under the same visibility caveats as `all_defs`.
pub open spec fn all_feet(n: Node) -> Seq<FootV>
    decreases n,
{
    match n {
        Node::FootnoteDefinition { note } => seq![note@],
        Node::Root { children } => all_feet_seq(children@),
        Node::Paragraph { children } => all_feet_seq(children@),
        Node::BlockQuote { children } => all_feet_seq(children@),
        Node::List { children, .. } => all_feet_seq(children@),
        Node::ListItem { children } => all_feet_seq(children@),
        Node::Heading { children, .. } => all_feet_seq(children@),
        Node::Emphasis { children } => all_feet_seq(children@),
        Node::Strong { children } => all_feet_seq(children@),
        Node::Delete { children } => all_feet_seq(children@),
        Node::Link { children, .. } => all_feet_seq(children@),
        Node::LinkReference { children, .. } => all_feet_seq(children@),
        _ => Seq::empty(),
    }
}

/// The footnotes captured from a node sequence, in document order.
pub open spec fn all_feet_seq(ns: Seq<Node>) -> Seq<FootV>
    decreases ns,
{
    if ns.len() == 0 {
        Seq::empty()
    } else {
        all_feet(ns[0]) + all_feet_seq(ns.drop_first())
    }
}

/// In a top-level pass (no table or row accumulator), dispatching one node
/// appends exactly its captured definitions and footnotes, in document order,
/// and opens no accumulator.
pub proof fn lemma_step_captures(s: StV, n: Node)
    requires
        s.tbl is None,
        s.row is None,
    ensures
        step(s, n).st.tbl is None,
        step(s, n).st.row is None,
        step(s, n).st.defs == s.defs + all_defs(n),
        step(s, n).st.feet == s.feet + all_feet(n),
    decreases n,
{
    match n {
        Node::Root { children } => {
            lemma_steps_captures(s, children@);
        },
        Node::Paragraph { children } => {
            lemma_steps_captures(s, children@);
        },
        Node::BlockQuote { children } => {
            lemma_steps_captures(s, children@);
        },
        Node::List { children, .. } => {
            lemma_steps_captures(s, children@);
        },
        Node::ListItem { children } => {
            lemma_steps_captures(s, children@);
        },
        Node::Heading { children, .. } => {
            lemma_steps_captures(s, children@);
        },
        Node::Emphasis { children } => {
            lemma_steps_captures(s, children@);
        },
        Node::Strong { children } => {
            lemma_steps_captures(s, children@);
        },
        Node::Delete { children } => {
            lemma_steps_captures(s, children@);
        },
        Node::Link { children, .. } => {
            lemma_steps_captures(s, children@);
        },
        Node::LinkReference { children, .. } => {
            lemma_steps_captures(s, children@);
        },
        Node::Definition { def } => {
            assert(s.defs.push(def@) =~= s.defs + seq![def@]);
            assert(s.feet + Seq::<FootV>::empty() =~= s.feet);
        },
        Node::FootnoteDefinition { note } => {
            assert(s.feet.push(note@) =~= s.feet + seq![note@]);
            assert(s.defs + Seq::<DefV>::empty() =~= s.defs);
        },
        _ => {
            assert(s.defs + Seq::<DefV>::empty() =~= s.defs);
            assert(s.feet + Seq::<FootV>::empty() =~= s.feet);
        },
    }
}

/// `lemma_step_captures`, folded over a node sequence.
pub proof fn lemma_steps_captures(s: StV, ns: Seq<Node>)
    requires
        s.tbl is None,
        s.row is None,
    ensures
        steps(s, ns).st.tbl is None,
        steps(s, ns).st.row is None,
        steps(s, ns).st.defs == s.defs + all_defs_seq(ns),
        steps(s, ns).st.feet == s.feet + all_feet_seq(ns),
    decreases ns,
{
    if ns.len() == 0 {
        assert(s.defs + Seq::<DefV>::empty() =~= s.defs);
        assert(s.feet + Seq::<FootV>::empty() =~= s.feet);
    } else {
        lemma_step_captures(s, ns[0]);
        let s1 = step(s, ns[0]).st;
        lemma_steps_captures(s1, ns.drop_first());
        assert((s.defs + all_defs(ns[0])) + all_defs_seq(ns.drop_first()) =~= s.defs + (all_defs(
            ns[0],
        ) + all_defs_seq(ns.drop_first())));
        assert((s.feet + all_feet(ns[0])) + all_feet_seq(ns.drop_first()) =~= s.feet + (all_feet(
            ns[0],
        ) + all_feet_seq(ns.drop_first())));
    }
}

/// Deferred-block ordering: a top-level pass over a tree captures exactly the
/// tree's visible definitions and footnotes, in document order, and the raw
/// output (before whitespace cleanup) is the rendered body, then one line per
/// captured definition, then one line per captured footnote, in those orders.
pub proof fn law_deferred_blocks(s: StV, tree: Node, c: Seq<Node>)
    requires
        spec_children(tree) == Some(c),
        s.tbl is None,
        s.row is None,
    ensures
        ({
            let r1 = steps(s, c);
            let lines = r1.st.defs.map_values(|d: DefV| def_line(d));
            let r2 = feet_lines(StV { defs: Seq::empty(), feet: Seq::empty(), ..r1.st }, r1.st.feet);
            r1.st.defs == s.defs + all_defs_seq(c) && r1.st.feet == s.feet + all_feet_seq(c)
                && render_spec(s, tree).out == normalize(r1.out + join_nl(lines) + r2.out)
        }),
{
    lemma_steps_captures(s, c);
}

/// Whether a node is a table row whose children are all table cells.
pub open spec fn row_of_cells(n: Node) -> bool {
    &&& n is TableRow
    &&& match spec_children(n) {
        Some(cs) => forall|j: int| 0 <= j < cs.len() ==> cs[j] is TableCell,
        None => false,
    }
}

/// The texts that a sequence of cells contributes to the open row: each is
/// its children rendered in the state as it then stands.
pub open spec fn cell_texts(s: StV, cs: Seq<Node>) -> Seq<Seq<char>>
    decreases cs,
{
    if cs.len() == 0 {
        Seq::empty()
    } else {
        seq![steps(s, spec_children(cs[0]).unwrap()).out] + cell_texts(
            step(s, cs[0]).st,
            cs.drop_first(),
        )
    }
}

/// In a state with an open row accumulator, a sequence of cells appends one
/// entry per cell, each holding that cell's rendered children, emits nothing,
/// and keeps the accumulator open.
pub proof fn lemma_cells_collect(s: StV, cs: Seq<Node>)
    requires
        s.row is Some,
        forall|i: int| 0 <= i < cs.len() ==> cs[i] is TableCell,
    ensures
        steps(s, cs).st.row is Some,
        steps(s, cs).st.row.unwrap() == s.row.unwrap() + cell_texts(s, cs),
        cell_texts(s, cs).len() == cs.len(),
        steps(s, cs).out == Seq::<char>::empty(),
    decreases cs,
{
    if cs.len() == 0 {
        assert(s.row.unwrap() + cell_texts(s, cs) =~= s.row.unwrap());
    } else {
        assert(cs[0] is TableCell);
        let s1 = step(s, cs[0]).st;
        let txt = steps(s, spec_children(cs[0]).unwrap()).out;
        assert(s1.row.unwrap() == s.row.unwrap().push(txt));
        assert forall|i: int| 0 <= i < cs.drop_first().len() implies cs.drop_first()[i]
            is TableCell by {
            assert(cs.drop_first()[i] == cs[i + 1]);
        }
        lemma_cells_collect(s1, cs.drop_first());
        assert(s.row.unwrap().push(txt) =~= s.row.unwrap() + seq![txt]);
        assert((s.row.unwrap() + seq![txt]) + cell_texts(s1, cs.drop_first()) =~= s.row.unwrap()
            + (seq![txt] + cell_texts(s1, cs.drop_first())));
        assert(Seq::<char>::empty() + steps(s1, cs.drop_first()).out =~= Seq::<char>::empty());
    }
}

/// In a state with an open table accumulator, a sequence of rows of cells
/// appends one row per node, each with one entry per cell, emits nothing, and
/// leaves the earlier rows as they were.
pub proof fn lemma_rows_collect(s: StV, rs: Seq<Node>)
    requires
        s.tbl is Some,
        forall|i: int| 0 <= i < rs.len() ==> row_of_cells(#[trigger] rs[i]),
    ensures
        steps(s, rs).st.tbl is Some,
        steps(s, rs).st.tbl.unwrap().len() == s.tbl.unwrap().len() + rs.len(),
        steps(s, rs).st.tbl.unwrap().take(s.tbl.unwrap().len() as int) == s.tbl.unwrap(),
        forall|i: int|
            0 <= i < rs.len() ==> #[trigger] steps(s, rs).st.tbl.unwrap()[s.tbl.unwrap().len() + i]
                == cell_texts(fresh_row_st(), spec_children(rs[i]).unwrap()),
        forall|i: int|
            0 <= i < rs.len() ==> #[trigger] steps(s, rs).st.tbl.unwrap()[s.tbl.unwrap().len() + i].len()
                == spec_children(rs[i]).unwrap().len(),
        steps(s, rs).out == Seq::<char>::empty(),
    decreases rs,
{
    if rs.len() == 0 {
        assert(steps(s, rs).st.tbl.unwrap().take(s.tbl.unwrap().len() as int) =~= s.tbl.unwrap());
    } else {
        assert(row_of_cells(rs[0]));
        let cs = spec_children(rs[0]).unwrap();
        lemma_cells_collect(fresh_row_st(), cs);
        let rr = steps(fresh_row_st(), cs);
        assert(rr.st.row.unwrap() =~= cell_texts(fresh_row_st(), cs));
        let s1 = step(s, rs[0]).st;
        assert(s1.tbl.unwrap() == s.tbl.unwrap().push(rr.st.row.unwrap()));
        assert forall|i: int| 0 <= i < rs.drop_first().len() implies row_of_cells(
            #[trigger] rs.drop_first()[i],
        ) by {
            assert(rs.drop_first()[i] == rs[i + 1]);
        }
        lemma_rows_collect(s1, rs.drop_first());
        let fin = steps(s, rs).st.tbl.unwrap();
        assert(fin.take(s1.tbl.unwrap().len() as int) == s1.tbl.unwrap());
        assert(fin.take(s.tbl.unwrap().len() as int) =~= s.tbl.unwrap());
        assert forall|i: int| 0 <= i < rs.len() implies #[trigger] fin[s.tbl.unwrap().len() + i]
            == cell_texts(fresh_row_st(), spec_children(rs[i]).unwrap()) by {
            if i == 0 {
                assert(fin[s.tbl.unwrap().len() as int] == s1.tbl.unwrap()[s.tbl.unwrap().len() as int]);
                assert(s1.tbl.unwrap()[s.tbl.unwrap().len() as int] == rr.st.row.unwrap());
            } else {
                assert(steps(s1, rs.drop_first()).st.tbl.unwrap()[s1.tbl.unwrap().len() + (i - 1)]
                    == cell_texts(fresh_row_st(), spec_children(rs.drop_first()[i - 1]).unwrap()));
                assert(rs.drop_first()[i - 1] == rs[i]);
            }
        }
        assert forall|i: int| 0 <= i < rs.len() implies #[trigger] fin[s.tbl.unwrap().len() + i].len()
            == spec_children(rs[i]).unwrap().len() by {
            assert(fin[s.tbl.unwrap().len() + i] == cell_texts(
                fresh_row_st(),
                spec_children(rs[i]).unwrap(),
            ));
            assert(row_of_cells(rs[i]));
            lemma_cells_collect(fresh_row_st(), spec_children(rs[i]).unwrap());
        }
        assert(Seq::<char>::empty() + steps(s1, rs.drop_first()).out =~= Seq::<char>::empty());
    }
}

/// Table shape: a table node whose children are R rows of cells renders, in
/// any state, as exactly one preformatted grid construct whose grid holds R
/// rows, the i-th with as many entries as the i-th row has cells.
pub proof fn law_table_shape(s: StV, children: Vec<Node>)
    requires
        forall|i: int| 0 <= i < children@.len() ==> row_of_cells(#[trigger] children@[i]),
    ensures
        ({
            let rows = steps(fresh_table_st(), children@).st.tbl.unwrap();
            &&& steps(fresh_table_st(), children@).st.tbl is Some
            &&& rows.len() == children@.len()
            &&& forall|i: int|
                0 <= i < children@.len() ==> #[trigger] rows[i].len() == spec_children(
                    children@[i],
                ).unwrap().len()
            &&& forall|i: int|
                0 <= i < children@.len() ==> #[trigger] rows[i] == cell_texts(
                    fresh_row_st(),
                    spec_children(children@[i]).unwrap(),
                )
            &&& step(s, Node::Table { children }).out == "[code]"@ + crate::grid::grid_text(
                crate::grid::strip_rows(rows),
            ) + "[/code]\n"@
        }),
{
    lemma_rows_collect(fresh_table_st(), children@);
    let rt = steps(fresh_table_st(), children@);
    assert(fresh_table_st().tbl.unwrap().len() == 0);
    assert forall|i: int| 0 <= i < children@.len() implies #[trigger] rt.st.tbl.unwrap()[i].len()
        == spec_children(children@[i]).unwrap().len() by {
        assert(rt.st.tbl.unwrap()[fresh_table_st().tbl.unwrap().len() + i].len() == spec_children(
            children@[i],
        ).unwrap().len());
    }
    assert forall|i: int| 0 <= i < children@.len() implies #[trigger] rt.st.tbl.unwrap()[i]
        == cell_texts(fresh_row_st(), spec_children(children@[i]).unwrap()) by {
        assert(rt.st.tbl.unwrap()[fresh_table_st().tbl.unwrap().len() + i] == cell_texts(
            fresh_row_st(),
            spec_children(children@[i]).unwrap(),
        ));
    }
}

/// Whether `w` occurs nowhere in `s` as a contiguous run.
pub open spec fn free_of(s: Seq<char>, w: Seq<char>) -> bool {
    forall|p: int|
        0 <= p <= s.len() - w.len() ==> #[trigger] s.subrange(p, p + w.len() as int) != w
}

/// Whether `s` begins with `w`.
pub open spec fn starts_with(s: Seq<char>, w: Seq<char>) -> bool {
    w.len() <= s.len() && s.take(w.len() as int) == w
}

/// A part of a `w`-free text is itself `w`-free.
pub proof fn lemma_free_of_subrange(s: Seq<char>, w: Seq<char>, i: int, j: int)
    requires
        free_of(s, w),
        0 <= i <= j <= s.len(),
    ensures
        free_of(s.subrange(i, j), w),
{
    let t = s.subrange(i, j);
    assert forall|p: int| 0 <= p <= t.len() - w.len() implies #[trigger] t.subrange(
        p,
        p + w.len() as int,
    ) != w by {
        assert(t.subrange(p, p + w.len() as int) =~= s.subrange(i + p, i + p + w.len() as int));
    }
}

/// Trimming leading whitespace keeps a text `w`-free.
pub proof fn lemma_trim_start_free(s: Seq<char>, w: Seq<char>)
    requires
        free_of(s, w),
    ensures
        free_of(crate::text::trim_start_s(s), w),
    decreases s.len(),
{
    if s.len() > 0 && crate::text::is_ws(s[0]) {
        lemma_free_of_subrange(s, w, 1, s.len() as int);
        assert(s.drop_first() =~= s.subrange(1, s.len() as int));
        lemma_trim_start_free(s.drop_first(), w);
    }
}

/// Trimming trailing whitespace keeps a text `w`-free.
pub proof fn lemma_trim_end_free(s: Seq<char>, w: Seq<char>)
    requires
        free_of(s, w),
    ensures
        free_of(crate::text::trim_end_s(s), w),
    decreases s.len(),
{
    if s.len() > 0 && crate::text::is_ws(s.last()) {
        lemma_free_of_subrange(s, w, 0, s.len() - 1);
        assert(s.drop_last() =~= s.subrange(0, s.len() - 1));
        lemma_trim_end_free(s.drop_last(), w);
    }
}

/// What the triple-newline collapse guarantees: the first two characters are
/// unchanged, a leading `]␊␊` or `*]␊␊` can only come from the input, the
/// result has no triple newline if the input had no quadruple one, and it
/// stays free of a marker before a blank line.
pub proof fn lemma_replace_triple(s: Seq<char>)
    ensures
        ({
            let out = crate::text::replace_s(s, "\n\n\n"@, "\n\n"@);
            &&& (out.len() > 0 ==> s.len() > 0 && out[0] == s[0])
            &&& (out.len() > 1 ==> s.len() > 1 && out[1] == s[1])
            &&& (starts_with(out, "]\n\n"@) ==> starts_with(s, "]\n\n"@))
            &&& (starts_with(out, "*]\n\n"@) ==> starts_with(s, "*]\n\n"@))
            &&& (free_of(s, "\n\n\n\n"@) ==> free_of(out, "\n\n\n"@))
            &&& (free_of(s, "\n\n\n\n"@) && free_of(s, "[*]\n\n"@) ==> free_of(out, "[*]\n\n"@))
        }),
    decreases s.len(),
{
    reveal_strlit("\n\n\n");
    reveal_strlit("\n\n");
    reveal_strlit("\n\n\n\n");
    reveal_strlit("[*]\n\n");
    reveal_strlit("]\n\n");
    reveal_strlit("*]\n\n");
    let n3 = "\n\n\n"@;
    let n2 = "\n\n"@;
    let n4 = "\n\n\n\n"@;
    let m2 = "[*]\n\n"@;
    let out = crate::text::replace_s(s, n3, n2);
    if s.len() < 3 {
    } else if s.take(3) == n3 {
        let t = s.skip(3);
        lemma_replace_triple(t);
        let rest = crate::text::replace_s(t, n3, n2);
        assert(s.take(3)[0] == s[0] && s.take(3)[1] == s[1] && s.take(3)[2] == s[2]);
        assert(s[0] == '\n' && s[1] == '\n' && s[2] == '\n');
        assert(out == n2 + rest);
        assert(out[0] == '\n' && out[1] == '\n');
        if starts_with(out, "]\n\n"@) {
            assert(out.take(3)[0] == out[0]);
            assert(false);
        }
        if starts_with(out, "*]\n\n"@) {
            assert(out.take(4)[0] == out[0]);
            assert(false);
        }
        if free_of(s, n4) {
            lemma_free_of_subrange(s, n4, 3, s.len() as int);
            assert(t =~= s.subrange(3, s.len() as int));
            if rest.len() > 0 && rest[0] == '\n' {
                assert(rest[0] == t[0]);
                assert(t[0] == s.skip(3)[0]);
                assert(s[3] == '\n');
                assert(s.subrange(0, 4) =~= n4);
                assert(s.subrange(0, 0 + n4.len() as int) == n4);
                assert(false);
            }
            assert forall|p: int| 0 <= p <= out.len() - 3 implies #[trigger] out.subrange(p, p + 3)
                != n3 by {
                if out.subrange(p, p + 3) == n3 {
                    if p >= 2 {
                        assert(out.subrange(p, p + 3) =~= rest.subrange(p - 2, p + 1));
                        assert(rest.subrange(p - 2, p - 2 + n3.len() as int) == n3);
                    } else {
                        assert(out.subrange(p, p + 3)[2 - p] == out[2]);
                        assert(out[2] == '\n');
                        assert(out[2] == rest[0]);
                    }
                }
            }
            if free_of(s, m2) {
                lemma_free_of_subrange(s, m2, 3, s.len() as int);
                assert forall|p: int| 0 <= p <= out.len() - 5 implies #[trigger] out.subrange(
                    p,
                    p + 5,
                ) != m2 by {
                    if out.subrange(p, p + 5) == m2 {
                        if p >= 2 {
                            assert(out.subrange(p, p + 5) =~= rest.subrange(p - 2, p + 3));
                            assert(rest.subrange(p - 2, p - 2 + m2.len() as int) == m2);
                        } else {
                            assert(out.subrange(p, p + 5)[0] == out[p]);
                            assert(out[p] == '[');
                        }
                    }
                }
            }
        }
    } else {
        let t = s.skip(1);
        lemma_replace_triple(t);
        let rest = crate::text::replace_s(t, n3, n2);
        assert(out == s.take(1) + rest);
        assert(out.len() > 0 && out[0] == s[0]);
        assert(t =~= s.subrange(1, s.len() as int));
        if starts_with(out, "]\n\n"@) {
            assert(out.take(3)[0] == out[0] && out.take(3)[1] == out[1] && out.take(3)[2]
                == out[2]);
            assert(out[1] == rest[0] && out[2] == rest[1]);
            assert(rest[0] == t[0] && rest[1] == t[1]);
            assert(t[0] == s[1] && t[1] == s[2]);
            assert(s.take(3) =~= "]\n\n"@);
        }
        if starts_with(out, "*]\n\n"@) {
            assert(out.take(4)[0] == out[0] && out.take(4)[1] == out[1] && out.take(4)[2] == out[2]
                && out.take(4)[3] == out[3]);
            assert(rest =~= out.skip(1));
            assert(rest.take(3) =~= "]\n\n"@);
            assert(starts_with(rest, "]\n\n"@));
            assert(t.take(3)[0] == t[0] && t.take(3)[1] == t[1] && t.take(3)[2] == t[2]);
            assert(starts_with(t, "]\n\n"@));
            assert(t[0] == s[1] && t[1] == s[2] && t[2] == s[3]);
            assert(s.take(4) =~= "*]\n\n"@);
        }
        if free_of(s, n4) {
            lemma_free_of_subrange(s, n4, 1, s.len() as int);
            assert forall|p: int| 0 <= p <= out.len() - 3 implies #[trigger] out.subrange(p, p + 3)
                != n3 by {
                if out.subrange(p, p + 3) == n3 {
                    if p >= 1 {
                        assert(out.subrange(p, p + 3) =~= rest.subrange(p - 1, p + 2));
                        assert(rest.subrange(p - 1, p - 1 + n3.len() as int) == n3);
                    } else {
                        assert(out.subrange(0, 3)[0] == out[0] && out.subrange(0, 3)[1] == out[1]
                            && out.subrange(0, 3)[2] == out[2]);
                        assert(out[1] == rest[0] && out[2] == rest[1]);
                        assert(rest[0] == t[0] && rest[1] == t[1]);
                        assert(t[0] == s[1] && t[1] == s[2]);
                        assert(s.take(3) =~= n3);
                    }
                }
            }
            if free_of(s, m2) {
                lemma_free_of_subrange(s, m2, 1, s.len() as int);
                assert forall|p: int| 0 <= p <= out.len() - 5 implies #[trigger] out.subrange(
                    p,
                    p + 5,
                ) != m2 by {
                    if out.subrange(p, p + 5) == m2 {
                        if p >= 1 {
                            assert(out.subrange(p, p + 5) =~= rest.subrange(p - 1, p + 4));
                            assert(rest.subrange(p - 1, p - 1 + m2.len() as int) == m2);
                        } else {
                            assert(out.subrange(0, 5)[0] == out[0] && out.subrange(0, 5)[1]
                                == out[1] && out.subrange(0, 5)[2] == out[2] && out.subrange(
                                0,
                                5,
                            )[3] == out[3] && out.subrange(0, 5)[4] == out[4]);
                            assert(out[0] == '[');
                            assert(rest =~= out.skip(1));
                            assert(rest.take(4) =~= "*]\n\n"@);
                            assert(starts_with(rest, "*]\n\n"@));
                            assert(t.take(4)[0] == t[0] && t.take(4)[1] == t[1] && t.take(4)[2]
                                == t[2] && t.take(4)[3] == t[3]);
                            assert(starts_with(t, "*]\n\n"@));
                            assert(t[0] == s[1] && t[1] == s[2] && t[2] == s[3] && t[3] == s[4]);
                            assert(s.subrange(0, 5) =~= m2);
                            assert(s.subrange(0, 0 + m2.len() as int) == m2);
                        }
                    }
                }
            }
        }
    }
}

/// What the marker-newline removal guarantees: the first three characters are
/// unchanged, the result keeps a triple newline out, and it has no marker
/// directly followed by a newline if the input had no marker before a blank
/// line.
pub proof fn lemma_replace_marker(s: Seq<char>)
    ensures
        ({
            let out = crate::text::replace_s(s, "[*]\n"@, "[*]"@);
            &&& (out.len() > 0 ==> s.len() > 0 && out[0] == s[0])
            &&& (out.len() > 1 ==> s.len() > 1 && out[1] == s[1])
            &&& (out.len() > 2 ==> s.len() > 2 && out[2] == s[2])
            &&& (free_of(s, "\n\n\n"@) ==> free_of(out, "\n\n\n"@))
            &&& (free_of(s, "[*]\n\n"@) ==> free_of(out, "[*]\n"@))
        }),
    decreases s.len(),
{
    reveal_strlit("[*]\n");
    reveal_strlit("[*]");
    reveal_strlit("\n\n\n");
    reveal_strlit("[*]\n\n");
    let m1 = "[*]\n"@;
    let mr = "[*]"@;
    let n3 = "\n\n\n"@;
    let m2 = "[*]\n\n"@;
    let out = crate::text::replace_s(s, m1, mr);
    if s.len() < 4 {
    } else if s.take(4) == m1 {
        let t = s.skip(4);
        lemma_replace_marker(t);
        let rest = crate::text::replace_s(t, m1, mr);
        assert(s.take(4)[0] == s[0] && s.take(4)[1] == s[1] && s.take(4)[2] == s[2] && s.take(4)[3]
            == s[3]);
        assert(s[0] == '[' && s[1] == '*' && s[2] == ']' && s[3] == '\n');
        assert(out == mr + rest);
        assert(out[0] == '[' && out[1] == '*' && out[2] == ']');
        assert(t =~= s.subrange(4, s.len() as int));
        if free_of(s, n3) {
            lemma_free_of_subrange(s, n3, 4, s.len() as int);
            assert forall|p: int| 0 <= p <= out.len() - 3 implies #[trigger] out.subrange(p, p + 3)
                != n3 by {
                if out.subrange(p, p + 3) == n3 {
                    if p >= 3 {
                        assert(out.subrange(p, p + 3) =~= rest.subrange(p - 3, p));
                        assert(rest.subrange(p - 3, p - 3 + n3.len() as int) == n3);
                    } else {
                        assert(out.subrange(p, p + 3)[0] == out[p]);
                        assert(out[p] == '\n');
                    }
                }
            }
        }
        if free_of(s, m2) {
            lemma_free_of_subrange(s, m2, 4, s.len() as int);
            assert forall|p: int| 0 <= p <= out.len() - 4 implies #[trigger] out.subrange(p, p + 4)
                != m1 by {
                if out.subrange(p, p + 4) == m1 {
                    if p >= 3 {
                        assert(out.subrange(p, p + 4) =~= rest.subrange(p - 3, p + 1));
                        assert(rest.subrange(p - 3, p - 3 + m1.len() as int) == m1);
                    } else if p == 0 {
                        assert(out.subrange(0, 4)[3] == out[3]);
                        assert(out[3] == '\n');
                        assert(out[3] == rest[0]);
                        assert(rest[0] == t[0]);
                        assert(t[0] == s[4]);
                        assert(s.subrange(0, 5) =~= m2);
                        assert(s.subrange(0, 0 + m2.len() as int) == m2);
                    } else {
                        assert(out.subrange(p, p + 4)[0] == out[p]);
                        assert(out[p] == '[');
                    }
                }
            }
        }
    } else {
        let t = s.skip(1);
        lemma_replace_marker(t);
        let rest = crate::text::replace_s(t, m1, mr);
        assert(out == s.take(1) + rest);
        assert(t =~= s.subrange(1, s.len() as int));
        if free_of(s, n3) {
            lemma_free_of_subrange(s, n3, 1, s.len() as int);
            assert forall|p: int| 0 <= p <= out.len() - 3 implies #[trigger] out.subrange(p, p + 3)
                != n3 by {
                if out.subrange(p, p + 3) == n3 {
                    if p >= 1 {
                        assert(out.subrange(p, p + 3) =~= rest.subrange(p - 1, p + 2));
                        assert(rest.subrange(p - 1, p - 1 + n3.len() as int) == n3);
                    } else {
                        assert(out.subrange(0, 3)[0] == out[0] && out.subrange(0, 3)[1] == out[1]
                            && out.subrange(0, 3)[2] == out[2]);
                        assert(out[0] == s[0] && out[1] == rest[0] && out[2] == rest[1]);
                        assert(rest[0] == t[0] && rest[1] == t[1]);
                        assert(t[0] == s[1] && t[1] == s[2]);
                        assert(s.subrange(0, 3) =~= n3);
                        assert(s.subrange(0, 0 + n3.len() as int) == n3);
                    }
                }
            }
        }
        if free_of(s, m2) {
            lemma_free_of_subrange(s, m2, 1, s.len() as int);
            assert forall|p: int| 0 <= p <= out.len() - 4 implies #[trigger] out.subrange(p, p + 4)
                != m1 by {
                if out.subrange(p, p + 4) == m1 {
                    if p >= 1 {
                        assert(out.subrange(p, p + 4) =~= rest.subrange(p - 1, p + 3));
                        assert(rest.subrange(p - 1, p - 1 + m1.len() as int) == m1);
                    } else {
                        assert(out.subrange(0, 4)[0] == out[0] && out.subrange(0, 4)[1] == out[1]
                            && out.subrange(0, 4)[2] == out[2] && out.subrange(0, 4)[3] == out[3]);
                        assert(out[0] == s[0] && out[1] == rest[0] && out[2] == rest[1] && out[3]
                            == rest[2]);
                        assert(rest[0] == t[0] && rest[1] == t[1] && rest[2] == t[2]);
                        assert(t[0] == s[1] && t[1] == s[2] && t[2] == s[3]);
                        assert(s.take(4) =~= m1);
                    }
                }
            }
        }
    }
}

/// Idempotent whitespace: if the raw rendered text holds no run of four
/// newlines and no list marker directly before a blank line, then its
/// normalized form holds no run of three newlines and no list marker directly
/// followed by a newline.
pub proof fn law_whitespace(s: Seq<char>)
    requires
        free_of(s, "\n\n\n\n"@),
        free_of(s, "[*]\n\n"@),
    ensures
        free_of(normalize(s), "\n\n\n"@),
        free_of(normalize(s), "[*]\n"@),
{
    let n4 = "\n\n\n\n"@;
    let m2 = "[*]\n\n"@;
    lemma_trim_start_free(s, n4);
    lemma_trim_start_free(s, m2);
    lemma_trim_end_free(crate::text::trim_start_s(s), n4);
    lemma_trim_end_free(crate::text::trim_start_s(s), m2);
    lemma_replace_triple(crate::text::trim_s(s));
    lemma_replace_marker(crate::text::replace_s(crate::text::trim_s(s), "\n\n\n"@, "\n\n"@));
}

/// `law_whitespace` at the whole-pass level: if the raw text assembled from
/// the body and the deferred blocks holds no four-newline run and no marker
/// before a blank line, the rendered output holds no three-newline run and no
/// marker followed by a newline.
pub proof fn law_render_whitespace(s: StV, tree: Node, c: Seq<Node>)
    requires
        spec_children(tree) == Some(c),
        ({
            let r1 = steps(s, c);
            let defs_block = join_nl(r1.st.defs.map_values(|d: DefV| def_line(d)));
            let r2 = feet_lines(
                StV { defs: Seq::empty(), feet: Seq::empty(), ..r1.st },
                r1.st.feet,
            );
            let raw = r1.out + defs_block + r2.out;
            free_of(raw, "\n\n\n\n"@) && free_of(raw, "[*]\n\n"@)
        }),
    ensures
        free_of(render_spec(s, tree).out, "\n\n\n"@),
        free_of(render_spec(s, tree).out, "[*]\n"@),
{
    let r1 = steps(s, c);
    let defs_block = join_nl(r1.st.defs.map_values(|d: DefV| def_line(d)));
    let r2 = feet_lines(StV { defs: Seq::empty(), feet: Seq::empty(), ..r1.st }, r1.st.feet);
    law_whitespace(r1.out + defs_block + r2.out);
}

} // verus!
