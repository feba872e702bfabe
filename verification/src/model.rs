//! The mathematical model of one render pass.
//!
//! `step` gives, for one node and a render state, the emitted fragment and the
//! state afterwards; `steps` folds it over a node sequence, left to right.
//! `render_spec` is the whole pass: render the root's children, append the
//! deferred definition lines and footnote lines, then normalize whitespace.

use vstd::prelude::*;

use crate::node::Definition;
use crate::node::FootnoteDefinition;
use crate::node::Node;
use crate::node::spec_children;
use crate::grid::grid_text;
use crate::grid::strip_rows;
use crate::text::normalize;

verus! {

broadcast use vstd::std_specs::vec::group_vec_axioms;

/// The captured form of one link definition.
pub ghost struct DefV {
    pub identifier: Seq<char>,
    pub url: Seq<char>,
    pub title: Option<Seq<char>>,
}

/// The captured form of one footnote: its identifier and its still unrendered
/// children.
pub ghost struct FootV {
    pub identifier: Seq<char>,
    pub children: Seq<Node>,
}

/// One render state: the optional table and row accumulators, the deferred
/// definition and footnote lists, and the diagnostics channel.
pub ghost struct StV {
    pub tbl: Option<Seq<Seq<Seq<char>>>>,
    pub row: Option<Seq<Seq<char>>>,
    pub defs: Seq<DefV>,
    pub feet: Seq<FootV>,
    pub diags: Seq<Seq<char>>,
}

/// The result of a dispatch: the state afterwards and the emitted text.
pub ghost struct StepRes {
    pub st: StV,
    pub out: Seq<char>,
}

impl View for Definition {
    type V = DefV;

    open spec fn view(&self) -> DefV {
        DefV {
            identifier: self.identifier@,
            url: self.url@,
            title: match self.title {
                Some(t) => Some(t@),
                None => None,
            },
        }
    }
}

impl View for FootnoteDefinition {
    type V = FootV;

    open spec fn view(&self) -> FootV {
        FootV { identifier: self.identifier@, children: self.children@ }
    }
}

/// The state a whole render pass starts from: no accumulators, nothing
/// captured, no diagnostics.
pub open spec fn init_st() -> StV {
    StV { tbl: None, row: None, defs: Seq::empty(), feet: Seq::empty(), diags: Seq::empty() }
}

/// The state a table subtree starts from: a present, empty table accumulator.
pub open spec fn fresh_table_st() -> StV {
    StV {
        tbl: Some(Seq::empty()),
        row: None,
        defs: Seq::empty(),
        feet: Seq::empty(),
        diags: Seq::empty(),
    }
}

/// The state a table row starts from: a present, empty row accumulator.
pub open spec fn fresh_row_st() -> StV {
    StV {
        tbl: None,
        row: Some(Seq::empty()),
        defs: Seq::empty(),
        feet: Seq::empty(),
        diags: Seq::empty(),
    }
}

/// The diagnostic line recorded for an unsupported embedded-expression node.
pub open spec fn mdx_msg() -> Seq<char> {
    "mdx not supported in nexus bbcode"@
}

/// The diagnostic line recorded for an unsupported component node.
pub open spec fn mdx_jsx_msg() -> Seq<char> {
    "mdx/jxs not supported in nexus bbcode"@
}

/// Dispatch one node: the text it emits and the state it leaves.
pub open spec fn step(s: StV, n: Node) -> StepRes
    decreases n,
{
    match n {
        Node::Root { children } => steps(s, children@),
        Node::Paragraph { children } => {
            let r = steps(s, children@);
            StepRes { st: r.st, out: "\n"@ + r.out + "\n"@ }
        },
        Node::BlockQuote { children } => {
            let r = steps(s, children@);
            StepRes { st: r.st, out: "[quote]"@ + r.out + "[/quote]\n"@ }
        },
        Node::List { ordered, children } => {
            let r = steps(s, children@);
            let open = if ordered {
                "\n[list=1]\n"@
            } else {
                "\n[list]\n"@
            };
            StepRes { st: r.st, out: open + r.out + "[/list]"@ }
        },
        Node::ListItem { children } => {
            let r = steps(s, children@);
            StepRes { st: r.st, out: "[*]"@ + r.out }
        },
        Node::Heading { children, .. } => {
            let r = steps(s, children@);
            StepRes { st: r.st, out: "\n[size=5]"@ + r.out + "[/size]\n\n"@ }
        },
        Node::Table { children } => {
            let r = steps(fresh_table_st(), children@);
            let st2 = StV { diags: s.diags + r.st.diags, ..s };
            match r.st.tbl {
                Some(rows) => StepRes {
                    st: st2,
                    out: "[code]"@ + grid_text(strip_rows(rows)) + "[/code]\n"@,
                },
                None => StepRes { st: st2, out: Seq::empty() },
            }
        },
        Node::TableRow { children } => {
            if s.tbl is Some {
                let r = steps(fresh_row_st(), children@);
                let newtbl = match r.st.row {
                    Some(cells) => Some(s.tbl.unwrap().push(cells)),
                    None => s.tbl,
                };
                StepRes {
                    st: StV { tbl: newtbl, diags: s.diags + r.st.diags, ..s },
                    out: Seq::empty(),
                }
            } else {
                StepRes { st: s, out: Seq::empty() }
            }
        },
        Node::TableCell { children } => {
            if s.row is Some {
                let r = steps(s, children@);
                StepRes {
                    st: StV { row: Some(s.row.unwrap().push(r.out)), ..r.st },
                    out: Seq::empty(),
                }
            } else {
                StepRes { st: s, out: Seq::empty() }
            }
        },
        Node::ThematicBreak => StepRes { st: s, out: "\n\n[line]\n\n"@ },
        Node::Code { value } => StepRes { st: s, out: "\n[code]"@ + value@ + "[/code]\n"@ },
        Node::Math { value } => StepRes { st: s, out: "\n[code]"@ + value@ + "[/code]\n"@ },
        Node::Toml { value } => StepRes { st: s, out: "\n[code]"@ + value@ + "[/code]\n\n"@ },
        Node::Yaml { value } => StepRes { st: s, out: "\n[code]"@ + value@ + "[/code]\n\n"@ },
        Node::Html { value } => StepRes { st: s, out: value@ },
        Node::Emphasis { children } => {
            let r = steps(s, children@);
            StepRes { st: r.st, out: "[i]"@ + r.out + "[/i]"@ }
        },
        Node::Strong { children } => {
            let r = steps(s, children@);
            StepRes { st: r.st, out: "\n[b]"@ + r.out + "[/b]\n"@ }
        },
        Node::Delete { children } => {
            let r = steps(s, children@);
            StepRes { st: r.st, out: "[s]"@ + r.out + "[/s]"@ }
        },
        Node::Link { url, children } => {
            let r = steps(s, children@);
            StepRes { st: r.st, out: "[url="@ + url@ + "]"@ + r.out + "[/url]"@ }
        },
        Node::Text { value } => StepRes { st: s, out: value@ },
        Node::InlineCode { value } => {
            if s.tbl is None && s.row is None {
                StepRes { st: s, out: "[font=\"Courier\"]"@ + value@ + "[/font]"@ }
            } else {
                StepRes { st: s, out: value@ }
            }
        },
        Node::InlineMath { value } => {
            if s.tbl is None && s.row is None {
                StepRes { st: s, out: "[font=\"Courier\"]"@ + value@ + "[/font]"@ }
            } else {
                StepRes { st: s, out: value@ }
            }
        },
        Node::Image { url } => StepRes { st: s, out: "[img]"@ + url@ + "[/img]"@ },
        Node::Break => StepRes { st: s, out: "\n\n"@ },
        Node::FootnoteReference { identifier } => StepRes {
            st: s,
            out: "(See ^"@ + identifier@ + ")"@,
        },
        Node::FootnoteDefinition { note } => StepRes {
            st: StV { feet: s.feet.push(note@), ..s },
            out: Seq::empty(),
        },
        Node::Definition { def } => StepRes {
            st: StV { defs: s.defs.push(def@), ..s },
            out: Seq::empty(),
        },
        Node::ImageReference { identifier, alt } => StepRes {
            st: s,
            out: "["@ + identifier@ + "] "@ + alt@,
        },
        Node::LinkReference { identifier, children } => {
            let r = steps(s, children@);
            StepRes { st: r.st, out: "(See image "@ + identifier@ + "; "@ + r.out + ")"@ }
        },
        Node::MdxTextExpression => StepRes {
            st: StV { diags: s.diags.push(mdx_msg()), ..s },
            out: Seq::empty(),
        },
        Node::MdxFlowExpression => StepRes {
            st: StV { diags: s.diags.push(mdx_msg()), ..s },
            out: Seq::empty(),
        },
        Node::MdxJsxFlowElement => StepRes {
            st: StV { diags: s.diags.push(mdx_jsx_msg()), ..s },
            out: Seq::empty(),
        },
        Node::MdxjsEsm => StepRes {
            st: StV { diags: s.diags.push(mdx_jsx_msg()), ..s },
            out: Seq::empty(),
        },
        Node::MdxJsxTextElement => StepRes {
            st: StV { diags: s.diags.push(mdx_jsx_msg()), ..s },
            out: Seq::empty(),
        },
    }
}

/// Dispatch a node sequence left to right, concatenating the fragments.
pub open spec fn steps(s: StV, ns: Seq<Node>) -> StepRes
    decreases ns,
{
    if ns.len() == 0 {
        StepRes { st: s, out: Seq::empty() }
    } else {
        let r0 = step(s, ns[0]);
        let r1 = steps(r0.st, ns.drop_first());
        StepRes { st: r1.st, out: r0.out + r1.out }
    }
}

/// Processing one more node at the end of a sequence.
pub proof fn lemma_steps_snoc(s: StV, ns: Seq<Node>, n: Node)
    ensures
        steps(s, ns.push(n)) == (
        {
            let r = steps(s, ns);
            let r2 = step(r.st, n);
            StepRes { st: r2.st, out: r.out + r2.out }
        }),
    decreases ns.len(),
{
    let r = steps(s, ns);
    let r2 = step(r.st, n);
    if ns.len() == 0 {
        assert(ns.push(n)[0] == n);
        assert(ns.push(n).drop_first() =~= Seq::<Node>::empty());
        assert(steps(r2.st, Seq::<Node>::empty()) == StepRes {
            st: r2.st,
            out: Seq::<char>::empty(),
        });
        assert(steps(s, ns.push(n)) == StepRes { st: r2.st, out: r2.out + Seq::<char>::empty() });
        assert(r2.out + Seq::<char>::empty() =~= r.out + r2.out);
    } else {
        let r0 = step(s, ns[0]);
        let df = ns.drop_first();
        let q = steps(r0.st, df);
        lemma_steps_snoc(r0.st, df, n);
        assert(ns.push(n)[0] == ns[0]);
        assert(ns.push(n).drop_first() =~= df.push(n));
        assert(r == StepRes { st: q.st, out: r0.out + q.out });
        assert(steps(r0.st, df.push(n)) == StepRes { st: r2.st, out: q.out + r2.out });
        assert(steps(s, ns.push(n)) == StepRes { st: r2.st, out: r0.out + (q.out + r2.out) });
        assert(r0.out + (q.out + r2.out) =~= r.out + r2.out);
    }
}

/// The deferred line emitted for one captured definition.
pub open spec fn def_line(d: DefV) -> Seq<char> {
    let anchor = match d.title {
        Some(t) => t,
        None => d.identifier,
    };
    "\n^"@ + d.identifier + ": [url="@ + d.url + "]"@ + anchor + "[/url]"@
}

/// Items joined with a newline between each pair.
pub open spec fn join_nl(items: Seq<Seq<char>>) -> Seq<char>
    decreases items.len(),
{
    if items.len() == 0 {
        Seq::empty()
    } else if items.len() == 1 {
        items[0]
    } else {
        items[0] + "\n"@ + join_nl(items.drop_first())
    }
}

/// Joining one more item at the end.
pub proof fn lemma_join_nl_snoc(items: Seq<Seq<char>>, x: Seq<char>)
    ensures
        join_nl(items.push(x)) == if items.len() == 0 {
            x
        } else {
            join_nl(items) + "\n"@ + x
        },
    decreases items.len(),
{
    if items.len() == 0 {
        assert(items.push(x)[0] == x);
    } else {
        lemma_join_nl_snoc(items.drop_first(), x);
        assert(items.push(x)[0] == items[0]);
        assert(items.push(x).drop_first() =~= items.drop_first().push(x));
        if items.len() == 1 {
            assert(items.push(x).drop_first()[0] == x);
        } else {
            assert((items[0] + "\n"@ + (join_nl(items.drop_first()) + "\n"@ + x)) =~= (join_nl(
                items,
            ) + "\n"@ + x));
        }
    }
}

/// Render the deferred footnote lines, joined with a newline between each
/// pair; each footnote's children are rendered in the state as it then stands.
pub open spec fn feet_lines(s: StV, feet: Seq<FootV>) -> StepRes
    decreases feet.len(),
{
    if feet.len() == 0 {
        StepRes { st: s, out: Seq::empty() }
    } else {
        let r0 = steps(s, feet[0].children);
        let line = "\n^"@ + feet[0].identifier + ": "@ + r0.out;
        let rest = feet_lines(r0.st, feet.drop_first());
        StepRes {
            st: rest.st,
            out: if feet.len() == 1 {
                line
            } else {
                line + "\n"@ + rest.out
            },
        }
    }
}

/// Rendering one more footnote line at the end.
pub proof fn lemma_feet_lines_snoc(s: StV, feet: Seq<FootV>, f: FootV)
    ensures
        feet_lines(s, feet.push(f)) == (
        {
            let r = feet_lines(s, feet);
            let r0 = steps(r.st, f.children);
            let line = "\n^"@ + f.identifier + ": "@ + r0.out;
            StepRes {
                st: r0.st,
                out: if feet.len() == 0 {
                    line
                } else {
                    r.out + "\n"@ + line
                },
            }
        }),
    decreases feet.len(),
{
    let r = feet_lines(s, feet);
    let r0 = steps(r.st, f.children);
    let line = "\n^"@ + f.identifier + ": "@ + r0.out;
    if feet.len() == 0 {
        assert(feet.push(f)[0] == f);
        assert(feet.push(f).drop_first() =~= Seq::<FootV>::empty());
        assert(feet_lines(r0.st, Seq::<FootV>::empty()) == StepRes {
            st: r0.st,
            out: Seq::<char>::empty(),
        });
        assert(feet_lines(s, feet.push(f)) == StepRes { st: r0.st, out: line });
    } else {
        let q0 = steps(s, feet[0].children);
        let df = feet.drop_first();
        let q = feet_lines(q0.st, df);
        lemma_feet_lines_snoc(q0.st, df, f);
        assert(feet.push(f)[0] == feet[0]);
        assert(feet.push(f).drop_first() =~= df.push(f));
        let line0 = "\n^"@ + feet[0].identifier + ": "@ + q0.out;
        let restp = feet_lines(q0.st, df.push(f));
        assert(feet_lines(s, feet.push(f)) == StepRes {
            st: restp.st,
            out: line0 + "\n"@ + restp.out,
        });
        if feet.len() == 1 {
            assert(r == StepRes { st: q0.st, out: line0 });
            assert(restp == StepRes { st: r0.st, out: line });
        } else {
            assert(r == StepRes { st: q.st, out: line0 + "\n"@ + q.out });
            assert(restp == StepRes { st: r0.st, out: q.out + "\n"@ + line });
            assert(line0 + "\n"@ + (q.out + "\n"@ + line) =~= (line0 + "\n"@ + q.out) + "\n"@
                + line);
        }
    }
}

/// The whole pass: render the root's children, append the deferred definition
/// lines and then the deferred footnote lines, and normalize the whitespace.
/// Both captured lists are emptied once their blocks are emitted — the render
/// state is scoped to one pass — so definitions and footnotes declared inside
/// footnote bodies are captured afresh but never emitted. A root with no
/// children renders as the empty string.
pub open spec fn render_spec(s: StV, tree: Node) -> StepRes {
    match spec_children(tree) {
        None => StepRes { st: s, out: Seq::empty() },
        Some(c) => {
            let r1 = steps(s, c);
            let defs_block = join_nl(r1.st.defs.map_values(|d: DefV| def_line(d)));
            let st_mid = StV { defs: Seq::empty(), feet: Seq::empty(), ..r1.st };
            let r2 = feet_lines(st_mid, r1.st.feet);
            StepRes { st: r2.st, out: normalize(r1.out + defs_block + r2.out) }
        },
    }
}

} // verus!
