//! The renderer: a depth-first, left-to-right walk of the tree that emits the
//! dialect markup and threads the render state through the recursion.
//!
//! Each function's contract ties it to the model in `crate::model`: the
//! returned text and the state afterwards are exactly what `step`, `steps`
//! and `render_spec` say.

use vstd::prelude::*;

use crate::grid::grid_to_string;
use crate::grid::sanitize_rows;
use crate::model::DefV;
use crate::model::FootV;
use crate::model::StV;
use crate::model::def_line;
use crate::model::feet_lines;
use crate::model::fresh_row_st;
use crate::model::fresh_table_st;
use crate::model::init_st;
use crate::model::join_nl;
use crate::model::lemma_feet_lines_snoc;
use crate::model::lemma_join_nl_snoc;
use crate::model::lemma_steps_snoc;
use crate::model::render_spec;
use crate::model::step;
use crate::model::steps;
use crate::node::Definition;
use crate::node::FootnoteDefinition;
use crate::node::Node;
use crate::node::into_children;
use crate::text::normalize_text;

verus! {

broadcast use vstd::std_specs::vec::group_vec_axioms;

/// The state of one render pass: the optional table and row accumulators, the
/// deferred definition and footnote lists, and the diagnostics channel.
pub struct State {
    table: Option<Vec<Vec<String>>>,
    row: Option<Vec<String>>,
    definitions: Vec<Definition>,
    footnotes: Vec<FootnoteDefinition>,
    diagnostics: Vec<String>,
}

impl View for State {
    type V = StV;

    closed spec fn view(&self) -> StV {
        StV {
            tbl: match self.table {
                Some(t) => Some(t.deep_view()),
                None => None,
            },
            row: match self.row {
                Some(r) => Some(r.deep_view()),
                None => None,
            },
            defs: self.definitions@.map_values(|d: Definition| d@),
            feet: self.footnotes@.map_values(|f: FootnoteDefinition| f@),
            diags: self.diagnostics.deep_view(),
        }
    }
}

/// A copy of a vector of strings, with the same contents.
fn clone_string_vec(v: &Vec<String>) -> (r: Vec<String>)
    ensures
        r@ == v@,
{
    let mut r: Vec<String> = Vec::new();
    let mut i: usize = 0;
    while i < v.len()
        invariant
            i <= v.len(),
            r@ == v@.take(i as int),
        decreases v.len() - i,
    {
        r.push(v[i].clone());
        proof {
            assert(r@ =~= v@.take(i as int + 1));
        }
        i = i + 1;
    }
    proof {
        assert(v@.take(v@.len() as int) =~= v@);
    }
    r
}

impl State {
    /// A fresh render state.
    pub fn new() -> (s: State)
        ensures
            s@ == init_st(),
    {
        let s = State {
            table: None,
            row: None,
            definitions: Vec::new(),
            footnotes: Vec::new(),
            diagnostics: Vec::new(),
        };
        proof {
            assert(s@.defs =~= Seq::<DefV>::empty());
            assert(s@.feet =~= Seq::<FootV>::empty());
            assert(s@.diags =~= Seq::<Seq<char>>::empty());
        }
        s
    }

    /// The diagnostic lines recorded so far, one per unsupported node met.
    pub fn diagnostics(&self) -> (r: &Vec<String>)
        ensures
            r.deep_view() == self@.diags,
    {
        &self.diagnostics
    }

    /// Convert a single node to dialect markup, recursing into its children.
    /// The returned fragment and the state change are exactly `step`.
    pub fn render_node(&mut self, node: Node) -> (out: String)
        ensures
            final(self)@ == step(old(self)@, node).st,
            out@ == step(old(self)@, node).out,
        decreases node,
    {
        match node {
            Node::Root { children } => self.render_nodes(children),
            Node::Paragraph { children } => {
                let inner = self.render_nodes(children);
                let mut out = String::from_str("\n");
                out.append(inner.as_str());
                out.append("\n");
                out
            },
            Node::BlockQuote { children } => {
                let inner = self.render_nodes(children);
                let mut out = String::from_str("[quote]");
                out.append(inner.as_str());
                out.append("[/quote]\n");
                out
            },
            Node::List { ordered, children } => {
                let mut out = if ordered {
                    String::from_str("\n[list=1]\n")
                } else {
                    String::from_str("\n[list]\n")
                };
                let inner = self.render_nodes(children);
                out.append(inner.as_str());
                out.append("[/list]");
                out
            },
            Node::ListItem { children } => {
                let mut out = String::from_str("[*]");
                let inner = self.render_nodes(children);
                out.append(inner.as_str());
                out
            },
            Node::Heading { children, .. } => {
                let mut out = String::from_str("\n[size=5]");
                let inner = self.render_nodes(children);
                out.append(inner.as_str());
                out.append("[/size]\n\n");
                out
            },
            Node::Table { children } => {
                let ghost c = children@;
                let mut tablestate = State {
                    table: Some(Vec::new()),
                    row: None,
                    definitions: Vec::new(),
                    footnotes: Vec::new(),
                    diagnostics: Vec::new(),
                };
                proof {
                    assert(tablestate@.tbl.unwrap() =~= Seq::<Seq<Seq<char>>>::empty());
                    assert(tablestate@.defs =~= Seq::<DefV>::empty());
                    assert(tablestate@.feet =~= Seq::<FootV>::empty());
                    assert(tablestate@.diags =~= Seq::<Seq<char>>::empty());
                    assert(tablestate@ == fresh_table_st());
                }
                let _body = tablestate.render_nodes(children);
                let ghost rt = steps(fresh_table_st(), c);
                self.diagnostics.append(&mut tablestate.diagnostics);
                proof {
                    assert(self.diagnostics.deep_view() =~= old(self)@.diags + rt.st.diags);
                }
                match tablestate.table {
                    Some(finished) => {
                        proof {
                            assert(finished.deep_view() == rt.st.tbl.unwrap());
                        }
                        let clean = sanitize_rows(&finished);
                        let g = grid_to_string(&clean);
                        let mut out = String::from_str("[code]");
                        out.append(g.as_str());
                        out.append("[/code]\n");
                        out
                    },
                    None => String::new(),
                }
            },
            Node::TableRow { children } => {
                if self.table.is_some() {
                    let ghost c = children@;
                    let mut rowstate = State {
                        table: None,
                        row: Some(Vec::new()),
                        definitions: Vec::new(),
                        footnotes: Vec::new(),
                        diagnostics: Vec::new(),
                    };
                    proof {
                        assert(rowstate@.row.unwrap() =~= Seq::<Seq<char>>::empty());
                        assert(rowstate@.defs =~= Seq::<DefV>::empty());
                        assert(rowstate@.feet =~= Seq::<FootV>::empty());
                        assert(rowstate@.diags =~= Seq::<Seq<char>>::empty());
                        assert(rowstate@ == fresh_row_st());
                    }
                    let _body = rowstate.render_nodes(children);
                    let ghost rr = steps(fresh_row_st(), c);
                    self.diagnostics.append(&mut rowstate.diagnostics);
                    proof {
                        assert(self.diagnostics.deep_view() =~= old(self)@.diags + rr.st.diags);
                    }
                    match rowstate.row {
                        Some(cells) => {
                            proof {
                                assert(cells.deep_view() == rr.st.row.unwrap());
                            }
                            let mut tbl = self.table.take().unwrap();
                            tbl.push(cells);
                            proof {
                                assert(tbl.deep_view() =~= old(self)@.tbl.unwrap().push(
                                    rr.st.row.unwrap(),
                                ));
                            }
                            self.table = Some(tbl);
                        },
                        None => {},
                    }
                    String::new()
                } else {
                    String::new()
                }
            },
            Node::TableCell { children } => {
                if self.row.is_some() {
                    let mut cloned = clone_string_vec(self.row.as_ref().unwrap());
                    proof {
                        assert(cloned.deep_view() =~= old(self)@.row.unwrap());
                    }
                    let string = self.render_nodes(children);
                    cloned.push(string);
                    proof {
                        assert(cloned.deep_view() =~= old(self)@.row.unwrap().push(
                            steps(old(self)@, children@).out,
                        ));
                    }
                    self.row = Some(cloned);
                    String::new()
                } else {
                    String::new()
                }
            },
            Node::ThematicBreak => String::from_str("\n\n[line]\n\n"),
            Node::Code { value } => {
                let mut out = String::from_str("\n[code]");
                out.append(value.as_str());
                out.append("[/code]\n");
                out
            },
            Node::Math { value } => {
                let mut out = String::from_str("\n[code]");
                out.append(value.as_str());
                out.append("[/code]\n");
                out
            },
            Node::Toml { value } => {
                let mut out = String::from_str("\n[code]");
                out.append(value.as_str());
                out.append("[/code]\n\n");
                out
            },
            Node::Yaml { value } => {
                let mut out = String::from_str("\n[code]");
                out.append(value.as_str());
                out.append("[/code]\n\n");
                out
            },
            Node::Html { value } => value,
            Node::Emphasis { children } => {
                let mut out = String::from_str("[i]");
                let inner = self.render_nodes(children);
                out.append(inner.as_str());
                out.append("[/i]");
                out
            },
            Node::Strong { children } => {
                let mut out = String::from_str("\n[b]");
                let inner = self.render_nodes(children);
                out.append(inner.as_str());
                out.append("[/b]\n");
                out
            },
            Node::Delete { children } => {
                let mut out = String::from_str("[s]");
                let inner = self.render_nodes(children);
                out.append(inner.as_str());
                out.append("[/s]");
                out
            },
            Node::Link { url, children } => {
                let mut out = String::from_str("[url=");
                out.append(url.as_str());
                out.append("]");
                let inner = self.render_nodes(children);
                out.append(inner.as_str());
                out.append("[/url]");
                out
            },
            Node::Text { value } => value,
            Node::InlineCode { value } => {
                if self.table.is_none() && self.row.is_none() {
                    let mut out = String::from_str("[font=\"Courier\"]");
                    out.append(value.as_str());
                    out.append("[/font]");
                    out
                } else {
                    value
                }
            },
            Node::InlineMath { value } => {
                if self.table.is_none() && self.row.is_none() {
                    let mut out = String::from_str("[font=\"Courier\"]");
                    out.append(value.as_str());
                    out.append("[/font]");
                    out
                } else {
                    value
                }
            },
            Node::Image { url } => {
                let mut out = String::from_str("[img]");
                out.append(url.as_str());
                out.append("[/img]");
                out
            },
            Node::Break => String::from_str("\n\n"),
            Node::FootnoteReference { identifier } => {
                let mut out = String::from_str("(See ^");
                out.append(identifier.as_str());
                out.append(")");
                out
            },
            Node::FootnoteDefinition { note } => {
                self.footnotes.push(note);
                proof {
                    assert(self@.feet =~= old(self)@.feet.push(note@));
                }
                String::new()
            },
            Node::Definition { def } => {
                self.definitions.push(def);
                proof {
                    assert(self@.defs =~= old(self)@.defs.push(def@));
                }
                String::new()
            },
            Node::ImageReference { identifier, alt } => {
                let mut out = String::from_str("[");
                out.append(identifier.as_str());
                out.append("] ");
                out.append(alt.as_str());
                out
            },
            Node::LinkReference { identifier, children } => {
                let mut out = String::from_str("(See image ");
                out.append(identifier.as_str());
                out.append("; ");
                let inner = self.render_nodes(children);
                out.append(inner.as_str());
                out.append(")");
                out
            },
            Node::MdxTextExpression => {
                self.diagnostics.push(String::from_str("mdx not supported in nexus bbcode"));
                proof {
                    assert(self@.diags =~= old(self)@.diags.push(crate::model::mdx_msg()));
                }
                String::new()
            },
            Node::MdxFlowExpression => {
                self.diagnostics.push(String::from_str("mdx not supported in nexus bbcode"));
                proof {
                    assert(self@.diags =~= old(self)@.diags.push(crate::model::mdx_msg()));
                }
                String::new()
            },
            Node::MdxJsxFlowElement => {
                self.diagnostics.push(String::from_str("mdx/jxs not supported in nexus bbcode"));
                proof {
                    assert(self@.diags =~= old(self)@.diags.push(crate::model::mdx_jsx_msg()));
                }
                String::new()
            },
            Node::MdxjsEsm => {
                self.diagnostics.push(String::from_str("mdx/jxs not supported in nexus bbcode"));
                proof {
                    assert(self@.diags =~= old(self)@.diags.push(crate::model::mdx_jsx_msg()));
                }
                String::new()
            },
            Node::MdxJsxTextElement => {
                self.diagnostics.push(String::from_str("mdx/jxs not supported in nexus bbcode"));
                proof {
                    assert(self@.diags =~= old(self)@.diags.push(crate::model::mdx_jsx_msg()));
                }
                String::new()
            },
        }
    }

    /// Render a sequence of nodes in order and concatenate the fragments.
    pub fn render_nodes(&mut self, nodelist: Vec<Node>) -> (out: String)
        ensures
            final(self)@ == steps(old(self)@, nodelist@).st,
            out@ == steps(old(self)@, nodelist@).out,
        decreases nodelist@,
    {
        let ghost s0 = old(self)@;
        let ghost total = nodelist@;
        let mut rest = nodelist;
        let total_len = rest.len();
        let mut out = String::new();
        let mut i: usize = 0;
        proof {
            assert(total.take(0) =~= Seq::<Node>::empty());
            assert(total.skip(0) =~= total);
            assert(total.len() == total_len);
        }
        while rest.len() > 0
            invariant
                i + rest@.len() == total.len(),
                total.len() <= usize::MAX,
                rest@ == total.skip(i as int),
                total == nodelist@,
                steps(s0, total.take(i as int)).st == self@,
                steps(s0, total.take(i as int)).out == out@,
            decreases rest@.len(),
        {
            let ghost prev = steps(s0, total.take(i as int));
            let n = rest.remove(0);
            proof {
                assert(total.skip(i as int)[0] == total[i as int]);
                assert(n == nodelist@[i as int]);
                assert(decreases_to!(nodelist@ => nodelist@[i as int]));
                assert(rest@ =~= total.skip(i as int + 1));
            }
            let frag = self.render_node(n);
            out.append(frag.as_str());
            proof {
                lemma_steps_snoc(s0, total.take(i as int), n);
                assert(total.take(i as int).push(n) =~= total.take(i as int + 1));
            }
            i = i + 1;
        }
        proof {
            assert(total.take(total.len() as int) =~= total);
        }
        out
    }

    /// Render a whole tree: the root's children, then the deferred definition
    /// lines, then the deferred footnote lines, then the whitespace cleanup.
    /// Both captured lists are emptied once emitted: the state is scoped to
    /// one pass.
    pub fn render(&mut self, tree: Node) -> (out: String)
        ensures
            final(self)@ == render_spec(old(self)@, tree).st,
            out@ == render_spec(old(self)@, tree).out,
    {
        let ghost s0 = old(self)@;
        match into_children(tree) {
            None => String::new(),
            Some(children) => {
                let ghost c = children@;
                let rendered = self.render_nodes(children);
                let ghost r1 = steps(s0, c);
                let ghost lines = r1.st.defs.map_values(|d: DefV| def_line(d));

                // Deferred definition lines, joined with a newline apiece.
                let mut linkdefs = String::new();
                let mut i: usize = 0;
                proof {
                    assert(lines.take(0) =~= Seq::<Seq<char>>::empty());
                }
                while i < self.definitions.len()
                    invariant
                        i <= self.definitions.len(),
                        self@ == r1.st,
                        lines == r1.st.defs.map_values(|d: DefV| def_line(d)),
                        lines.len() == self.definitions.len(),
                        linkdefs@ == join_nl(lines.take(i as int)),
                    decreases self.definitions.len() - i,
                {
                    let d = &self.definitions[i];
                    let mut line = String::from_str("\n^");
                    line.append(d.identifier.as_str());
                    line.append(": [url=");
                    line.append(d.url.as_str());
                    line.append("]");
                    match &d.title {
                        Some(t) => line.append(t.as_str()),
                        None => line.append(d.identifier.as_str()),
                    }
                    line.append("[/url]");
                    proof {
                        assert(r1.st.defs[i as int] == self.definitions@[i as int]@);
                        assert(line@ == def_line(r1.st.defs[i as int]));
                        lemma_join_nl_snoc(lines.take(i as int), lines[i as int]);
                        assert(lines.take(i as int).push(lines[i as int]) =~= lines.take(
                            i as int + 1,
                        ));
                    }
                    if i > 0 {
                        linkdefs.append("\n");
                    }
                    linkdefs.append(line.as_str());
                    proof {
                        if i == 0 {
                            assert(Seq::<char>::empty() + line@ =~= line@);
                        }
                    }
                    i = i + 1;
                }
                proof {
                    assert(lines.take(lines.len() as int) =~= lines);
                }
                self.definitions = Vec::new();

                // Deferred footnote lines: empty the captured list first, then
                // render each footnote's children in the state as it stands.
                let mut feet: Vec<FootnoteDefinition> = Vec::new();
                core::mem::swap(&mut feet, &mut self.footnotes);
                let ghost st_mid = StV { defs: Seq::empty(), feet: Seq::empty(), ..r1.st };
                let ghost fv = r1.st.feet;
                proof {
                    assert(self@.defs =~= Seq::<DefV>::empty());
                    assert(self@.feet =~= Seq::<FootV>::empty());
                    assert(self@ == st_mid);
                    assert(fv.take(0) =~= Seq::<FootV>::empty());
                    assert(feet@.map_values(|f: FootnoteDefinition| f@) =~= fv.skip(0));
                }
                let mut footblock = String::new();
                let mut rest = feet;
                let feet_len = rest.len();
                proof {
                    assert(fv.len() == rest@.map_values(|f: FootnoteDefinition| f@).len());
                    assert(fv.len() == feet_len);
                }
                let mut j: usize = 0;
                while rest.len() > 0
                    invariant
                        j + rest@.len() == fv.len(),
                        fv.len() <= usize::MAX,
                        rest@.map_values(|f: FootnoteDefinition| f@) == fv.skip(j as int),
                        feet_lines(st_mid, fv.take(j as int)).st == self@,
                        feet_lines(st_mid, fv.take(j as int)).out == footblock@,
                    decreases rest@.len(),
                {
                    let ghost prevrest = rest@;
                    let f = rest.remove(0);
                    proof {
                        assert(prevrest.map_values(|f: FootnoteDefinition| f@)[0] == f@);
                        assert(fv.skip(j as int)[0] == fv[j as int]);
                        assert(f@ == fv[j as int]);
                        assert(rest@ =~= prevrest.drop_first());
                        assert forall|k: int| 0 <= k < rest@.len() implies #[trigger] rest@[k]@
                            == fv.skip(j as int + 1)[k] by {
                            assert(prevrest.map_values(|f: FootnoteDefinition| f@)[k + 1]
                                == fv.skip(j as int)[k + 1]);
                        }
                        assert(rest@.map_values(|f: FootnoteDefinition| f@) =~= fv.skip(
                            j as int + 1,
                        ));
                    }
                    if j > 0 {
                        footblock.append("\n");
                    }
                    let mut line = String::from_str("\n^");
                    line.append(f.identifier.as_str());
                    line.append(": ");
                    let rendered_kids = self.render_nodes(f.children);
                    line.append(rendered_kids.as_str());
                    footblock.append(line.as_str());
                    proof {
                        lemma_feet_lines_snoc(st_mid, fv.take(j as int), fv[j as int]);
                        assert(fv.take(j as int).push(fv[j as int]) =~= fv.take(j as int + 1));
                        if j == 0 {
                            assert(Seq::<char>::empty() + line@ =~= line@);
                        }
                    }
                    j = j + 1;
                }
                proof {
                    assert(fv.take(fv.len() as int) =~= fv);
                }

                let mut raw = rendered;
                raw.append(linkdefs.as_str());
                raw.append(footblock.as_str());
                normalize_text(raw.as_str())
            },
        }
    }
}

} // verus!
