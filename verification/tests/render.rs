use dippin_parser::render::{
    draw_edge, draw_nodes, pick_corner, render_ascii, shape_icon, Attribute, GridEdge, GridNode,
    NodeAttributes, RenderOptions,
};

fn opts(verbose: bool) -> RenderOptions {
    RenderOptions { verbose, color: false }
}

fn node(name: &str, label: &str, shape: &str, col: usize, row: usize, width: usize, height: usize) -> GridNode {
    GridNode {
        name: name.into(),
        label: label.into(),
        shape: shape.into(),
        col,
        row,
        width,
        height,
    }
}

#[test]
fn test_render_single_node() {
    let nodes = vec![node("A", "Hello", "box", 2, 1, 9, 3)];
    let output = render_ascii(&nodes, &[], 15, 5, &[], &opts(false));
    assert!(output.contains("Hello"));
    assert!(output.contains("┌"));
    assert!(output.contains("┘"));
}

#[test]
fn test_render_edge_vertical() {
    let nodes = vec![node("a", "A", "box", 5, 0, 5, 3), node("b", "B", "box", 5, 6, 5, 3)];
    let edges = vec![GridEdge {
        from: "a".into(),
        to: "b".into(),
        points: vec![(7, 3), (7, 4), (7, 5)],
        label: None,
    }];
    let output = render_ascii(&nodes, &edges, 15, 10, &[], &opts(false));
    assert!(output.contains('│') || output.contains('▼'));
}

#[test]
fn test_render_verbose_shows_attributes() {
    let nodes = vec![node("A", "Hello", "box", 0, 0, 20, 5)];
    let attrs = vec![NodeAttributes {
        name: "A".to_string(),
        attributes: vec![Attribute {
            key: "shape".to_string(),
            value: "box".to_string(),
        }],
    }];
    let output = render_ascii(&nodes, &[], 25, 7, &attrs, &opts(true));
    assert!(output.contains("shape: box"));
}

#[test]
fn test_render_empty_grid() {
    let output = render_ascii(&[], &[], 5, 5, &[], &opts(false));
    assert!(output.trim().is_empty());
}

#[test]
fn test_render_edge_arrow_direction() {
    let edges = vec![GridEdge {
        from: "a".into(),
        to: "b".into(),
        points: vec![(3, 1), (3, 4)],
        label: None,
    }];
    let output = render_ascii(&[], &edges, 8, 6, &[], &opts(false));
    assert!(output.contains('▼'));
}

#[test]
fn test_shape_icon_prefix_in_box() {
    let nodes = vec![node("start", "Start", "diamond", 0, 0, 14, 3)];
    let output = render_ascii(&nodes, &[], 20, 5, &[], &opts(false));
    assert!(output.contains("◇ Start"), "Should have icon prefix, got: {}", output);
    assert!(output.contains("┌"), "Should be in a box");
    assert!(output.contains("┘"), "Should be in a box");
}

#[test]
fn test_box_shape_has_no_icon() {
    let nodes = vec![node("a", "Hello", "box", 0, 0, 12, 3)];
    let output = render_ascii(&nodes, &[], 15, 5, &[], &opts(false));
    assert!(output.contains("Hello"), "Should contain label");
    assert!(!output.contains("◇"), "Box shape should have no icon prefix");
}

#[test]
fn test_edges_do_not_overwrite_nodes() {
    let nodes = vec![node("a", "A", "box", 2, 0, 5, 3)];
    let edges = vec![GridEdge {
        from: "x".into(),
        to: "y".into(),
        points: vec![(4, 0), (4, 5)],
        label: None,
    }];
    let output = render_ascii(&nodes, &edges, 10, 7, &[], &opts(false));
    let lines: Vec<&str> = output.lines().collect();
    assert_eq!(lines[0].chars().nth(4), Some('─'));
}

#[test]
fn render_exact_box() {
    let nodes = vec![node("a", "Hi", "box", 0, 0, 8, 3)];
    let output = render_ascii(&nodes, &[], 10, 5, &[], &opts(false));
    assert_eq!(output, "┌──────┐  \n│  Hi  │  \n└──────┘  ");
}

#[test]
fn shape_icons_and_corners() {
    assert_eq!(shape_icon("box"), None);
    assert_eq!(shape_icon("Mdiamond"), Some('◆'));
    assert_eq!(shape_icon("tripleoctagon"), Some('⯃'));
    assert_eq!(shape_icon("whatever"), Some('◈'));
    assert_eq!(pick_corner(0, 0, 0, 2, 3, 2), Some('└'));
    assert_eq!(pick_corner(0, 0, 2, 0, 2, 3), Some('┐'));
    assert_eq!(pick_corner(0, 0, 0, 2, 0, 4), None);
}

#[test]
fn edges_keep_step_cells() {
    let nodes = vec![node("a", "A", "box", 1, 1, 4, 3)];
    let (mut grid, cells) = draw_nodes(&nodes, 8, 6, &[], &opts(false));
    let before = grid.clone();
    let e = GridEdge {
        from: "x".into(),
        to: "y".into(),
        points: vec![(0, 2), (7, 2), (7, 5)],
        label: None,
    };
    draw_edge(&mut grid, &cells, &e);
    for r in 0..6 {
        for c in 0..8 {
            if cells[r][c] {
                assert_eq!(grid[r][c], before[r][c]);
            }
        }
    }
    assert_eq!(grid[2][0], '─');
    assert_eq!(grid[5][7], '▼');
}

#[test]
fn single_box_renders_exactly() {
    let nodes = vec![node("A", "Hello", "box", 2, 1, 9, 3)];
    let output = render_ascii(&nodes, &[], 15, 5, &[], &opts(false));
    let expected = [
        "               ",
        "  ┌───────┐    ",
        "  │ Hello │    ",
        "  └───────┘    ",
    ]
    .join("\n");
    assert_eq!(output, expected);
}

#[test]
fn edge_between_boxes_renders_exactly() {
    let nodes = vec![node("a", "A", "box", 0, 0, 5, 3), node("b", "B", "box", 0, 5, 5, 3)];
    let edges = vec![GridEdge {
        from: "a".into(),
        to: "b".into(),
        points: vec![(2, 2), (2, 5)],
        label: None,
    }];
    let output = render_ascii(&nodes, &edges, 5, 8, &[], &opts(false));
    let expected = [
        "┌───┐", "│ A │", "└───┘", "  │  ", "  │  ", "┌───┐", "│ B │", "└───┘",
    ]
    .join("\n");
    assert_eq!(output, expected);
}
