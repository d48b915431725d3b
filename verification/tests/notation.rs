use birdseyeview::{Diagram, Node};

fn leaf(id: &str) -> Node {
    Node {
        id: id.to_string(),
        parent_id: None,
        nodes: None,
    }
}

fn subgraph(id: &str, nodes: Vec<Node>) -> Node {
    Node {
        id: id.to_string(),
        parent_id: None,
        nodes: Some(nodes),
    }
}

#[test]
fn leaf_at_level_zero_is_its_bare_id() {
    assert_eq!(leaf("a").render(0), "a");
}

#[test]
fn leaf_is_indented_by_one_tab_per_level() {
    assert_eq!(leaf("a").render(1), "\ta");
    assert_eq!(leaf("a").render(2), "\t\ta");
    assert_eq!(leaf("a").render(3), "\t\t\ta");
    assert_eq!(leaf("a").render(7), "\t\t\t\t\t\t\ta");
}

#[test]
fn indentation_counts_exactly_the_level() {
    for level in 0..40usize {
        let text = leaf("x").render(level);
        assert_eq!(text.len(), level + 1);
        assert!(text[..level].chars().all(|c| c == '\t'));
        assert_eq!(&text[level..], "x");
    }
}

#[test]
fn subgraph_indents_heading_and_closing_line_alike() {
    assert_eq!(subgraph("g", vec![]).render(0), "subgraph g\nend");
    assert_eq!(subgraph("g", vec![]).render(2), "\t\tsubgraph g\n\t\tend");
}

#[test]
fn members_are_one_level_deeper_than_their_subgraph() {
    let node = subgraph("g", vec![leaf("a"), subgraph("h", vec![leaf("b")])]);
    assert_eq!(
        node.render(2),
        "\t\tsubgraph g\n\t\t\ta\n\t\t\tsubgraph h\n\t\t\t\tb\n\t\t\tend\n\t\tend"
    );
}

#[test]
fn empty_subgraph_has_no_body_line() {
    let diagram = Diagram {
        nodes: vec![subgraph("node1", vec![])],
    };
    assert_eq!(diagram.render(), "flowchart TB\n\tsubgraph node1\n\tend");
}

#[test]
fn empty_subgraph_differs_from_leaf_of_the_same_id() {
    let as_subgraph = subgraph("node1", Vec::new()).render(1);
    let as_leaf = leaf("node1").render(1);
    assert_eq!(as_subgraph, "\tsubgraph node1\n\tend");
    assert_eq!(as_leaf, "\tnode1");
    assert_ne!(as_subgraph, as_leaf);
}

#[test]
fn top_level_nodes_follow_the_header_in_order() {
    let diagram = Diagram {
        nodes: vec![leaf("a"), leaf("b"), leaf("c")],
    };
    assert_eq!(diagram.render(), "flowchart TB\n\ta\n\tb\n\tc");
}

#[test]
fn text_has_no_line_break_at_its_end() {
    let diagram = Diagram {
        nodes: vec![subgraph("g", vec![leaf("a")]), leaf("b")],
    };
    let text = diagram.render();
    assert_eq!(text, "flowchart TB\n\tsubgraph g\n\t\ta\n\tend\n\tb");
    assert!(!text.ends_with('\n'));
}

#[test]
fn mixed_members_keep_their_order() {
    let diagram = Diagram {
        nodes: vec![
            subgraph(
                "outer",
                vec![leaf("x"), subgraph("inner", vec![leaf("y"), leaf("z")]), leaf("w")],
            ),
            leaf("last"),
        ],
    };
    let expected = "flowchart TB\n\
                    \tsubgraph outer\n\
                    \t\tx\n\
                    \t\tsubgraph inner\n\
                    \t\t\ty\n\
                    \t\t\tz\n\
                    \t\tend\n\
                    \t\tw\n\
                    \tend\n\
                    \tlast";
    assert_eq!(diagram.render(), expected);
}

#[test]
fn same_trees_give_the_same_text() {
    let build = || Diagram {
        nodes: vec![subgraph("a", vec![leaf("b"), subgraph("c", vec![])]), leaf("d")],
    };
    let first = build().render();
    let second = build().render();
    assert_eq!(first.as_bytes(), second.as_bytes());
    assert_eq!(first, "flowchart TB\n\tsubgraph a\n\t\tb\n\t\tsubgraph c\n\t\tend\n\tend\n\td");
}

#[test]
fn parent_id_plays_no_part() {
    let plain = subgraph("a", vec![leaf("b")]);
    let annotated = Node {
        id: "a".to_string(),
        parent_id: Some("root".to_string()),
        nodes: Some(vec![Node {
            id: "b".to_string(),
            parent_id: Some("a".to_string()),
            nodes: None,
        }]),
    };
    assert_eq!(plain.render(1), annotated.render(1));
    assert_eq!(
        Node {
            id: "b".to_string(),
            parent_id: Some("a".to_string()),
            nodes: None,
        }
        .render(1),
        "\tb"
    );
}

#[test]
fn permuted_members_permute_their_blocks_only() {
    let forward = subgraph("g", vec![leaf("a"), subgraph("h", vec![leaf("b")]), leaf("c")]);
    let permuted = subgraph("g", vec![leaf("c"), leaf("a"), subgraph("h", vec![leaf("b")])]);
    let heading = "\tsubgraph g";
    let closing = "\n\tend";
    let a = "\n\t\ta";
    let h = "\n\t\tsubgraph h\n\t\t\tb\n\t\tend";
    let c = "\n\t\tc";
    assert_eq!(forward.render(1), format!("{heading}{a}{h}{c}{closing}"));
    assert_eq!(permuted.render(1), format!("{heading}{c}{a}{h}{closing}"));
}

#[test]
fn permuted_top_level_nodes_permute_their_blocks_only() {
    let forward = Diagram {
        nodes: vec![leaf("a"), leaf("b")],
    };
    let backward = Diagram {
        nodes: vec![leaf("b"), leaf("a")],
    };
    assert_eq!(forward.render(), "flowchart TB\n\ta\n\tb");
    assert_eq!(backward.render(), "flowchart TB\n\tb\n\ta");
}

#[test]
fn equal_ids_are_written_each_time() {
    let diagram = Diagram {
        nodes: vec![leaf("a"), subgraph("a", vec![leaf("a")]), leaf("a")],
    };
    assert_eq!(
        diagram.render(),
        "flowchart TB\n\ta\n\tsubgraph a\n\t\ta\n\tend\n\ta"
    );
}

#[test]
fn id_is_written_as_it_is() {
    assert_eq!(leaf("two\nlines").render(1), "\ttwo\nlines");
    assert_eq!(leaf("\ttabbed").render(1), "\t\ttabbed");
    assert_eq!(leaf("end").render(1), "\tend");
    assert_eq!(leaf("subgraph x").render(0), "subgraph x");
    assert_eq!(
        subgraph("a b\nend", vec![]).render(1),
        "\tsubgraph a b\nend\n\tend"
    );
}

#[test]
fn empty_id_leaves_the_rest_in_place() {
    assert_eq!(leaf("").render(2), "\t\t");
    assert_eq!(subgraph("", vec![leaf("")]).render(0), "subgraph \n\t\nend");
}

#[test]
fn id_outside_ascii_is_kept() {
    let diagram = Diagram {
        nodes: vec![subgraph("グラフ", vec![leaf("nœud")])],
    };
    assert_eq!(
        diagram.render(),
        "flowchart TB\n\tsubgraph グラフ\n\t\tnœud\n\tend"
    );
}

#[test]
fn deep_nesting_adds_one_tab_per_level() {
    let depth = 200usize;
    let mut node = leaf("core");
    for i in 0..depth {
        node = subgraph(&format!("s{i}"), vec![node]);
    }
    let text = Diagram { nodes: vec![node] }.render();
    let lines: Vec<&str> = text.split('\n').collect();
    assert_eq!(lines.len(), 2 * depth + 2);
    assert_eq!(lines[0], "flowchart TB");
    for i in 0..depth {
        let level = i + 1;
        let name = depth - 1 - i;
        assert_eq!(lines[level], format!("{}subgraph s{}", "\t".repeat(level), name));
        assert_eq!(lines[2 * depth + 1 - i], format!("{}end", "\t".repeat(level)));
    }
    assert_eq!(lines[depth + 1], format!("{}core", "\t".repeat(depth + 1)));
}

#[test]
fn large_level_is_not_capped() {
    let text = subgraph("g", vec![leaf("a")]).render(5000);
    let tabs = "\t".repeat(5000);
    assert_eq!(text, format!("{tabs}subgraph g\n{tabs}\ta\n{tabs}end"));
}

#[test]
fn nested_node_stands_between_the_same_text_whatever_it_is() {
    let around = |inner: Node| {
        Diagram {
            nodes: vec![
                leaf("first"),
                subgraph("g", vec![leaf("a"), subgraph("h", vec![inner, leaf("z")]), leaf("b")]),
            ],
        }
        .render()
    };
    let before = "flowchart TB\n\tfirst\n\tsubgraph g\n\t\ta\n\t\tsubgraph h\n";
    let after = "\n\t\t\tz\n\t\tend\n\t\tb\n\tend";
    assert_eq!(around(leaf("x")), format!("{before}\t\t\tx{after}"));
    assert_eq!(
        around(subgraph("y", vec![leaf("w")])),
        format!("{before}\t\t\tsubgraph y\n\t\t\t\tw\n\t\t\tend{after}")
    );
    assert_eq!(leaf("x").render(3), "\t\t\tx");
    assert_eq!(
        subgraph("y", vec![leaf("w")]).render(3),
        "\t\t\tsubgraph y\n\t\t\t\tw\n\t\t\tend"
    );
}

#[test]
fn permuted_members_below_the_top_permute_their_blocks_only() {
    let around = |members: Vec<Node>| {
        Diagram {
            nodes: vec![subgraph("g", vec![leaf("a"), subgraph("h", members)]), leaf("b")],
        }
        .render()
    };
    let before = "flowchart TB\n\tsubgraph g\n\t\ta\n\t\tsubgraph h";
    let after = "\n\t\tend\n\tend\n\tb";
    let x = "\n\t\t\tx";
    let y = "\n\t\t\tsubgraph y\n\t\t\tend";
    let z = "\n\t\t\tz";
    assert_eq!(
        around(vec![leaf("x"), subgraph("y", vec![]), leaf("z")]),
        format!("{before}{x}{y}{z}{after}")
    );
    assert_eq!(
        around(vec![leaf("z"), leaf("x"), subgraph("y", vec![])]),
        format!("{before}{z}{x}{y}{after}")
    );
    assert_eq!(
        around(vec![subgraph("y", vec![]), leaf("z"), leaf("x")]),
        format!("{before}{y}{z}{x}{after}")
    );
}
