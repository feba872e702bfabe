use md2nexus::node::{Definition, FootnoteDefinition, Node};
use md2nexus::state::State;

fn text(s: &str) -> Node {
    Node::Text { value: s.to_string() }
}

fn render_root(children: Vec<Node>) -> String {
    let mut state = State::new();
    state.render(Node::Root { children })
}

fn grid_of(rows: Vec<Vec<&str>>) -> String {
    prettytable::Table::from(rows).to_string()
}

#[test]
fn paragraph_text_trims_to_bare_text() {
    let mut state = State::new();
    let out = state.render(Node::Paragraph { children: vec![text("hi")] });
    assert_eq!(out, "hi");
}

#[test]
fn unordered_list_two_items() {
    let out = render_root(vec![Node::List {
        ordered: false,
        children: vec![
            Node::ListItem { children: vec![text("a")] },
            Node::ListItem { children: vec![text("b")] },
        ],
    }]);
    assert_eq!(out, "[list]\n[*]a[*]b[/list]");
    assert!(!out.contains("[*]\n"));
}

#[test]
fn ordered_list_marker() {
    let out = render_root(vec![Node::List {
        ordered: true,
        children: vec![Node::ListItem { children: vec![text("x")] }],
    }]);
    assert_eq!(out, "[list=1]\n[*]x[/list]");
}

#[test]
fn footnote_reference_and_definition() {
    let out = render_root(vec![
        Node::Paragraph {
            children: vec![Node::FootnoteReference { identifier: "1".to_string() }],
        },
        Node::FootnoteDefinition {
            note: FootnoteDefinition {
                identifier: "1".to_string(),
                children: vec![text("note")],
            },
        },
    ]);
    assert_eq!(out, "(See ^1)\n\n^1: note");
    assert!(out.contains("^1: note"));
}

#[test]
fn table_single_row_two_cells() {
    let out = render_root(vec![Node::Table {
        children: vec![Node::TableRow {
            children: vec![
                Node::TableCell { children: vec![text("a")] },
                Node::TableCell { children: vec![text("b")] },
            ],
        }],
    }]);
    let expected = format!("[code]{}[/code]", grid_of(vec![vec!["a", "b"]]));
    assert_eq!(out, expected);
}

#[test]
fn unsupported_node_gives_empty_output_and_one_diagnostic() {
    let mut state = State::new();
    let out = state.render(Node::Root {
        children: vec![
            Node::Paragraph { children: vec![text("x")] },
            Node::MdxTextExpression,
        ],
    });
    assert_eq!(out, "x");
    assert_eq!(state.diagnostics().len(), 1);
    assert_eq!(state.diagnostics()[0], "mdx not supported in nexus bbcode");
}

#[test]
fn each_unsupported_kind_is_reported() {
    let mut state = State::new();
    let _ = state.render(Node::Root {
        children: vec![
            Node::MdxTextExpression,
            Node::MdxFlowExpression,
            Node::MdxJsxFlowElement,
            Node::MdxjsEsm,
            Node::MdxJsxTextElement,
        ],
    });
    let diags = state.diagnostics();
    assert_eq!(diags.len(), 5);
    assert_eq!(diags[0], "mdx not supported in nexus bbcode");
    assert_eq!(diags[1], "mdx not supported in nexus bbcode");
    assert_eq!(diags[2], "mdx/jxs not supported in nexus bbcode");
    assert_eq!(diags[3], "mdx/jxs not supported in nexus bbcode");
    assert_eq!(diags[4], "mdx/jxs not supported in nexus bbcode");
}

#[test]
fn deferred_definitions_then_footnotes_in_document_order() {
    let out = render_root(vec![
        Node::Paragraph { children: vec![text("a")] },
        Node::Definition {
            def: Definition {
                identifier: "d1".to_string(),
                url: "u1".to_string(),
                title: None,
            },
        },
        Node::FootnoteDefinition {
            note: FootnoteDefinition {
                identifier: "f1".to_string(),
                children: vec![text("n1")],
            },
        },
        Node::Definition {
            def: Definition {
                identifier: "d2".to_string(),
                url: "u2".to_string(),
                title: Some("T".to_string()),
            },
        },
        Node::FootnoteDefinition {
            note: FootnoteDefinition {
                identifier: "f2".to_string(),
                children: vec![text("n2")],
            },
        },
    ]);
    assert_eq!(
        out,
        "a\n\n^d1: [url=u1]d1[/url]\n\n^d2: [url=u2]T[/url]\n^f1: n1\n\n^f2: n2"
    );
    let d1 = out.find("^d1").unwrap();
    let d2 = out.find("^d2").unwrap();
    let f1 = out.find("^f1").unwrap();
    let f2 = out.find("^f2").unwrap();
    assert!(d1 < d2 && d2 < f1 && f1 < f2);
}

#[test]
fn rendering_twice_is_byte_identical() {
    let build = || Node::Root {
        children: vec![
            Node::Heading { level: 2, children: vec![text("H")] },
            Node::Paragraph { children: vec![text("p")] },
        ],
    };
    let mut s1 = State::new();
    let mut s2 = State::new();
    assert_eq!(s1.render(build()), s2.render(build()));
}

#[test]
fn triple_newline_is_collapsed() {
    let out = render_root(vec![
        Node::Heading { level: 1, children: vec![text("H")] },
        Node::Paragraph { children: vec![text("p")] },
    ]);
    assert_eq!(out, "[size=5]H[/size]\n\np");
    assert!(!out.contains("\n\n\n"));
}

#[test]
fn marker_newline_is_removed() {
    let out = render_root(vec![Node::List {
        ordered: false,
        children: vec![Node::ListItem {
            children: vec![Node::Paragraph { children: vec![text("a")] }],
        }],
    }]);
    assert_eq!(out, "[list]\n[*]a\n[/list]");
    assert!(!out.contains("[*]\n"));
}

#[test]
fn empty_root_renders_empty() {
    assert_eq!(render_root(vec![]), "");
}

#[test]
fn childless_root_node_renders_empty() {
    let mut state = State::new();
    assert_eq!(state.render(text("hi")), "");
}

#[test]
fn inline_code_wrapped_outside_tables() {
    let out = render_root(vec![Node::Paragraph {
        children: vec![Node::InlineCode { value: "c".to_string() }],
    }]);
    assert_eq!(out, "[font=\"Courier\"]c[/font]");
}

#[test]
fn inline_code_unwrapped_inside_table_cell() {
    let out = render_root(vec![Node::Table {
        children: vec![Node::TableRow {
            children: vec![Node::TableCell {
                children: vec![Node::InlineCode { value: "c".to_string() }],
            }],
        }],
    }]);
    assert!(!out.contains("[font"));
    let expected = format!("[code]{}[/code]", grid_of(vec![vec!["c"]]));
    assert_eq!(out, expected);
}

#[test]
fn table_two_rows_two_columns() {
    let row = |a: &str, b: &str| Node::TableRow {
        children: vec![
            Node::TableCell { children: vec![text(a)] },
            Node::TableCell { children: vec![text(b)] },
        ],
    };
    let out = render_root(vec![Node::Table { children: vec![row("a", "b"), row("c", "d")] }]);
    let expected = format!(
        "[code]{}[/code]",
        grid_of(vec![vec!["a", "b"], vec!["c", "d"]])
    );
    assert_eq!(out, expected);
}

#[test]
fn block_and_inline_constructs() {
    assert_eq!(
        render_root(vec![Node::BlockQuote { children: vec![text("q")] }]),
        "[quote]q[/quote]"
    );
    assert_eq!(
        render_root(vec![Node::Code { value: "let x;".to_string() }]),
        "[code]let x;[/code]"
    );
    assert_eq!(
        render_root(vec![Node::Math { value: "x^2".to_string() }]),
        "[code]x^2[/code]"
    );
    assert_eq!(
        render_root(vec![Node::Toml { value: "k = 1".to_string() }]),
        "[code]k = 1[/code]"
    );
    assert_eq!(
        render_root(vec![Node::Yaml { value: "k: 1".to_string() }]),
        "[code]k: 1[/code]"
    );
    assert_eq!(
        render_root(vec![Node::Paragraph {
            children: vec![Node::Emphasis { children: vec![text("e")] }],
        }]),
        "[i]e[/i]"
    );
    assert_eq!(
        render_root(vec![Node::Paragraph {
            children: vec![Node::Delete { children: vec![text("d")] }],
        }]),
        "[s]d[/s]"
    );
    assert_eq!(
        render_root(vec![Node::Strong { children: vec![text("b")] }]),
        "[b]b[/b]"
    );
    assert_eq!(
        render_root(vec![Node::Paragraph {
            children: vec![Node::InlineMath { value: "m".to_string() }],
        }]),
        "[font=\"Courier\"]m[/font]"
    );
    assert_eq!(
        render_root(vec![Node::Html { value: "<b>h</b>".to_string() }]),
        "<b>h</b>"
    );
}

#[test]
fn links_images_and_references() {
    assert_eq!(
        render_root(vec![Node::Paragraph {
            children: vec![Node::Link {
                url: "https://e.example".to_string(),
                children: vec![text("t")],
            }],
        }]),
        "[url=https://e.example]t[/url]"
    );
    assert_eq!(
        render_root(vec![Node::Paragraph {
            children: vec![Node::Image { url: "i.png".to_string() }],
        }]),
        "[img]i.png[/img]"
    );
    assert_eq!(
        render_root(vec![Node::Paragraph {
            children: vec![Node::ImageReference {
                identifier: "id".to_string(),
                alt: "alt".to_string(),
            }],
        }]),
        "[id] alt"
    );
    assert_eq!(
        render_root(vec![Node::Paragraph {
            children: vec![Node::LinkReference {
                identifier: "id".to_string(),
                children: vec![text("t")],
            }],
        }]),
        "(See image id; t)"
    );
}

#[test]
fn thematic_break_and_paragraph_break() {
    assert_eq!(
        render_root(vec![
            Node::Paragraph { children: vec![text("a")] },
            Node::ThematicBreak,
            Node::Paragraph { children: vec![text("b")] },
        ]),
        "a\n\n[line]\n\nb"
    );
    assert_eq!(
        render_root(vec![Node::Paragraph {
            children: vec![text("a"), Node::Break, text("b")],
        }]),
        "a\n\nb"
    );
}

#[test]
fn heading_level_is_discarded() {
    let h = |level: u8| {
        render_root(vec![Node::Heading { level, children: vec![text("H")] }])
    };
    assert_eq!(h(1), "[size=5]H[/size]");
    assert_eq!(h(1), h(6));
}

#[test]
fn table_row_outside_table_renders_nothing() {
    let out = render_root(vec![Node::TableRow {
        children: vec![Node::TableCell { children: vec![text("a")] }],
    }]);
    assert_eq!(out, "");
}

#[test]
fn nested_tables_do_not_leak_rows() {
    // A table inside a cell renders as its own grid, inside the outer cell's
    // text; the outer table still has exactly one row.
    let inner = Node::Table {
        children: vec![Node::TableRow {
            children: vec![Node::TableCell { children: vec![text("i")] }],
        }],
    };
    let out = render_root(vec![Node::Table {
        children: vec![Node::TableRow {
            children: vec![Node::TableCell { children: vec![inner] }],
        }],
    }]);
    let inner_grid = format!("[code]{}[/code]\n", grid_of(vec![vec!["i"]]));
    let expected = format!("[code]{}[/code]", grid_of(vec![vec![inner_grid.as_str()]]));
    assert_eq!(out, expected);
}

#[test]
fn definition_inside_table_is_discarded() {
    let out = render_root(vec![Node::Table {
        children: vec![
            Node::TableRow {
                children: vec![Node::TableCell { children: vec![text("a")] }],
            },
            Node::Definition {
                def: Definition {
                    identifier: "d".to_string(),
                    url: "u".to_string(),
                    title: None,
                },
            },
        ],
    }]);
    assert!(!out.contains("^d"));
}

#[test]
fn definition_title_fallback_is_identifier() {
    let out = render_root(vec![
        Node::Paragraph { children: vec![text("x")] },
        Node::Definition {
            def: Definition {
                identifier: "id".to_string(),
                url: "u".to_string(),
                title: None,
            },
        },
    ]);
    assert_eq!(out, "x\n\n^id: [url=u]id[/url]");
}

#[test]
fn newline_collapse_is_a_single_pass() {
    // The collapse rewrites each literal triple of newlines once, left to
    // right, and does not re-scan its own output.
    let out = render_root(vec![Node::Paragraph {
        children: vec![text("a\n\n\n\nb")],
    }]);
    assert_eq!(out, "a\n\n\nb");
}

#[test]
fn text_is_emitted_verbatim() {
    let out = render_root(vec![Node::Paragraph { children: vec![text("<&[i]>")] }]);
    assert_eq!(out, "<&[i]>");
}

#[test]
fn empty_table_renders_empty_grid() {
    let out = render_root(vec![Node::Table { children: vec![] }]);
    let expected = format!("[code]{}[/code]", prettytable::Table::new());
    assert_eq!(out, expected);
}

#[test]
fn trims_unicode_whitespace() {
    let out = render_root(vec![text("\u{3000}\t x \u{a0}\n")]);
    assert_eq!(out, "x");
}

#[test]
fn non_ascii_text_is_preserved() {
    let out = render_root(vec![Node::Paragraph {
        children: vec![text("héllo — 世界")],
    }]);
    assert_eq!(out, "héllo — 世界");
}

#[test]
fn inline_math_wrapped_outside_tables() {
    let out = render_root(vec![Node::Paragraph {
        children: vec![Node::InlineMath { value: "m".to_string() }],
    }]);
    assert_eq!(out, "[font=\"Courier\"]m[/font]");
}

#[test]
fn inline_math_unwrapped_inside_table_cell() {
    let out = render_root(vec![Node::Table {
        children: vec![Node::TableRow {
            children: vec![Node::TableCell {
                children: vec![Node::InlineMath { value: "m".to_string() }],
            }],
        }],
    }]);
    assert!(!out.contains("[font"));
    let expected = format!("[code]{}[/code]", grid_of(vec![vec!["m"]]));
    assert_eq!(out, expected);
}

#[test]
fn escape_character_is_stripped_from_table_cells() {
    let out = render_root(vec![Node::Table {
        children: vec![Node::TableRow {
            children: vec![Node::TableCell {
                children: vec![text("a\u{1b}[1mb")],
            }],
        }],
    }]);
    let expected = format!("[code]{}[/code]", grid_of(vec![vec!["a[1mb"]]));
    assert_eq!(out, expected);
}

#[test]
fn escape_character_passes_through_outside_tables() {
    let out = render_root(vec![Node::Paragraph { children: vec![text("a\u{1b}b")] }]);
    assert_eq!(out, "a\u{1b}b");
}

#[test]
fn output_name_maps_the_extension_only() {
    assert_eq!(md2nexus::text::output_name("notes.md"), "notes.bbcode");
    assert_eq!(md2nexus::text::output_name("a.md.md"), "a.md.bbcode");
    assert_eq!(md2nexus::text::output_name("plain"), "plain.bbcode");
    assert_eq!(md2nexus::text::output_name(".md"), ".bbcode");
}

#[test]
fn state_is_scoped_to_one_pass() {
    // A second render on the same state does not re-emit definitions or
    // footnotes captured by the first.
    let mut state = State::new();
    let first = state.render(Node::Root {
        children: vec![
            Node::Paragraph { children: vec![text("a")] },
            Node::Definition {
                def: Definition {
                    identifier: "d".to_string(),
                    url: "u".to_string(),
                    title: None,
                },
            },
            Node::FootnoteDefinition {
                note: FootnoteDefinition {
                    identifier: "f".to_string(),
                    children: vec![text("n")],
                },
            },
        ],
    });
    assert!(first.contains("^d") && first.contains("^f"));
    let second = state.render(Node::Root { children: vec![text("b")] });
    assert_eq!(second, "b");
}
