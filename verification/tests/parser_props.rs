use muffin::model::LayoutNode;
use muffin::parser::parse_config;

const EXAMPLE: &str = "session name=\"foo\" cwd=\"~\" {\n  window name=\"main\" cwd=\"~/proj\" {\n    split direction=\"h\" {\n      pane size=30 command=\"nvim\"\n      pane command=\"echo done\"\n    }\n  }\n}\n";

#[test]
fn session_without_windows_gets_default_window() {
    let presets = parse_config("session name=\"solo\" cwd=\"/tmp/w\"").unwrap();
    assert_eq!(presets.len(), 1);
    let p = &presets[0];
    assert_eq!(p.name, "solo");
    assert_eq!(p.cwd, "/tmp/w");
    assert!(!p.running);
    assert_eq!(p.windows.len(), 1);
    let w = &p.windows[0];
    assert_eq!(w.name, "main");
    assert_eq!(w.cwd, "/tmp/w");
    match &w.layout {
        LayoutNode::Pane { cwd, command, size } => {
            assert_eq!(cwd.as_deref(), Some("/tmp/w"));
            assert!(command.is_none());
            assert_eq!(*size, 100);
        }
        _ => panic!("expected a single pane"),
    }
}

#[test]
fn session_cwd_defaults_to_home() {
    let presets = parse_config("session name=\"bare\"").unwrap();
    assert_eq!(presets[0].cwd, "~");
    assert_eq!(presets[0].windows[0].cwd, "~");
}

#[test]
fn implicit_size_is_truncated_share_of_remainder() {
    let text = "session name=\"s\" {\n  window {\n    split {\n      pane size=33\n      pane command=\"nvim\"\n      pane size=33\n    }\n  }\n}";
    let presets = parse_config(text).unwrap();
    let w = &presets[0].windows[0];
    assert_eq!(w.name, "0");
    match &w.layout {
        LayoutNode::Split { children, size, .. } => {
            assert_eq!(*size, 100);
            assert_eq!(children.len(), 3);
            match &children[1] {
                LayoutNode::Pane { command, size, .. } => {
                    assert_eq!(command.as_deref(), Some("nvim"));
                    assert_eq!(*size, 34);
                }
                _ => panic!("expected a pane"),
            }
        }
        _ => panic!("expected a split"),
    }
}

#[test]
fn three_implicit_children_truncate_below_100() {
    let text = "session name=\"s\" {\n  window {\n    split {\n      pane\n      pane\n      pane\n    }\n  }\n}";
    let presets = parse_config(text).unwrap();
    match &presets[0].windows[0].layout {
        LayoutNode::Split { children, .. } => {
            for c in children.iter() {
                match c {
                    LayoutNode::Pane { size, .. } => assert_eq!(*size, 33),
                    _ => panic!("expected a pane"),
                }
            }
        }
        _ => panic!("expected a split"),
    }
}

#[test]
fn explicit_sizes_over_100_leave_no_share() {
    let text = "session name=\"s\" {\n  window {\n    split {\n      pane size=60\n      pane size=60\n      pane\n    }\n  }\n}";
    let presets = parse_config(text).unwrap();
    match &presets[0].windows[0].layout {
        LayoutNode::Split { children, .. } => match &children[2] {
            LayoutNode::Pane { size, .. } => assert_eq!(*size, 0),
            _ => panic!("expected a pane"),
        },
        _ => panic!("expected a split"),
    }
}

#[test]
fn declared_size_is_taken_modulo_256() {
    let text = "session name=\"s\" {\n  window {\n    split {\n      pane size=300\n      pane size=-1\n    }\n  }\n}";
    let presets = parse_config(text).unwrap();
    match &presets[0].windows[0].layout {
        LayoutNode::Split { children, .. } => {
            match &children[0] {
                LayoutNode::Pane { size, .. } => assert_eq!(*size, 44),
                _ => panic!("expected a pane"),
            }
            match &children[1] {
                LayoutNode::Pane { size, .. } => assert_eq!(*size, 255),
                _ => panic!("expected a pane"),
            }
        }
        _ => panic!("expected a split"),
    }
}

#[test]
fn unknown_node_in_window_body_names_it() {
    let text = "session name=\"s\" {\n  window {\n    foo {\n    }\n  }\n}";
    let err = parse_config(text).unwrap_err();
    assert_eq!(err, "Unexpected node: `foo`");
}

#[test]
fn unknown_node_in_session_body_names_it() {
    let text = "session name=\"s\" {\n  shelf {\n  }\n}";
    let err = parse_config(text).unwrap_err();
    assert_eq!(err, "Unknown session child node: `shelf`");
}

#[test]
fn top_level_node_must_be_a_session() {
    let err = parse_config("window name=\"w\"").unwrap_err();
    assert_eq!(err, "Node is not a session");
}

#[test]
fn session_name_is_required() {
    let err = parse_config("session cwd=\"~\"").unwrap_err();
    assert_eq!(err, "Missing or invalid session name!");
}

#[test]
fn window_allows_at_most_one_root() {
    let text = "session name=\"s\" {\n  window {\n    pane\n    pane\n  }\n}";
    let err = parse_config(text).unwrap_err();
    assert_eq!(err, "Expected exactly one root `split` or `pane` node");
}

#[test]
fn split_must_have_children() {
    let text = "session name=\"s\" {\n  window {\n    split direction=\"h\"\n  }\n}";
    let err = parse_config(text).unwrap_err();
    assert_eq!(err, "Split nodes must contain children");
}

#[test]
fn invalid_direction_names_it() {
    let text = "session name=\"s\" {\n  window {\n    split direction=\"up\" {\n      pane\n    }\n  }\n}";
    let err = parse_config(text).unwrap_err();
    assert_eq!(err, "Invalid direction: `up`");
}

#[test]
fn example_document_parses_fully() {
    let presets = parse_config(EXAMPLE).unwrap();
    assert_eq!(presets.len(), 1);
    let p = &presets[0];
    assert_eq!(p.name, "foo");
    assert_eq!(p.cwd, "~");
    let w = &p.windows[0];
    assert_eq!(w.name, "main");
    assert_eq!(w.cwd, "~/proj");
    match &w.layout {
        LayoutNode::Split { direction, children, size } => {
            assert!(matches!(direction, muffin::model::SplitDirection::Horizontal));
            assert_eq!(*size, 100);
            assert_eq!(children.len(), 2);
            match &children[0] {
                LayoutNode::Pane { cwd, command, size } => {
                    assert_eq!(cwd.as_deref(), Some("~/proj"));
                    assert_eq!(command.as_deref(), Some("nvim"));
                    assert_eq!(*size, 30);
                }
                _ => panic!("expected a pane"),
            }
            match &children[1] {
                LayoutNode::Pane { cwd, command, size } => {
                    assert_eq!(cwd.as_deref(), Some("~/proj"));
                    assert_eq!(command.as_deref(), Some("echo done"));
                    assert_eq!(*size, 70);
                }
                _ => panic!("expected a pane"),
            }
        }
        _ => panic!("expected a split"),
    }
}

#[test]
fn parsing_twice_is_deterministic() {
    let a = parse_config(EXAMPLE).unwrap();
    let b = parse_config(EXAMPLE).unwrap();
    assert_eq!(a.len(), b.len());
    for (x, y) in a.iter().zip(b.iter()) {
        assert!(x.preset_eq(y));
    }
}

#[test]
fn later_session_with_same_name_wins() {
    let text = "session name=\"dup\" cwd=\"/first\"\nsession name=\"dup\" cwd=\"/second\"";
    let presets = parse_config(text).unwrap();
    assert_eq!(presets.len(), 1);
    assert_eq!(presets[0].cwd, "/second");
}

#[test]
fn presets_come_out_in_name_order() {
    let text = "session name=\"zeta\"\nsession name=\"alpha\"\nsession name=\"mid\"";
    let presets = parse_config(text).unwrap();
    let names: Vec<&str> = presets.iter().map(|p| p.name.as_str()).collect();
    assert_eq!(names, vec!["alpha", "mid", "zeta"]);
}

#[test]
fn rejected_document_reports_an_error() {
    let err = parse_config("session name=\"s\" {").unwrap_err();
    assert_eq!(err, "Failed to parse KDL document");
}

#[test]
fn wrongly_typed_properties_count_as_absent() {
    // a numeric session name is not a string, so the name is missing
    let err = parse_config("session name=5").unwrap_err();
    assert_eq!(err, "Missing or invalid session name!");
    // a string-valued size is not an integer, so the pane shares the rest;
    // a numeric direction is not a string, so the direction defaults
    let text = "session name=\"s\" {\n  window {\n    split direction=5 {\n      pane size=\"30\"\n      pane size=40\n    }\n  }\n}";
    let presets = parse_config(text).unwrap();
    match &presets[0].windows[0].layout {
        LayoutNode::Split { direction, children, .. } => {
            assert!(matches!(direction, muffin::model::SplitDirection::Vertical));
            match &children[0] {
                LayoutNode::Pane { size, .. } => assert_eq!(*size, 60),
                _ => panic!("expected a pane"),
            }
        }
        _ => panic!("expected a split"),
    }
}

#[test]
fn nested_splits_keep_their_structure() {
    let text = "session name=\"n\" {\n  window name=\"w\" {\n    split direction=\"h\" {\n      pane size=50\n      split direction=\"v\" size=50 {\n        pane\n        pane\n      }\n    }\n  }\n}";
    let presets = parse_config(text).unwrap();
    match &presets[0].windows[0].layout {
        LayoutNode::Split { children, .. } => match &children[1] {
            LayoutNode::Split { direction, children, size } => {
                assert!(matches!(direction, muffin::model::SplitDirection::Vertical));
                assert_eq!(*size, 50);
                assert_eq!(children.len(), 2);
                match &children[0] {
                    LayoutNode::Pane { size, .. } => assert_eq!(*size, 50),
                    _ => panic!("expected a pane"),
                }
            }
            _ => panic!("expected a nested split"),
        },
        _ => panic!("expected a split"),
    }
}
