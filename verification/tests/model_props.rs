use muffin::model::{verify_layout_recursive, verify_preset, LayoutNode, Preset, SplitDirection, Window};

fn pane(size: u8) -> LayoutNode {
    LayoutNode::Pane { cwd: None, command: None, size }
}

fn split(children: Vec<LayoutNode>, size: u8) -> LayoutNode {
    LayoutNode::Split { direction: SplitDirection::Horizontal, children, size }
}

#[test]
fn layouts_summing_to_100_pass() {
    assert!(verify_layout_recursive(&pane(100)).is_ok());
    assert!(verify_layout_recursive(&split(vec![pane(33), pane(34), pane(33)], 100)).is_ok());
    let nested = split(vec![pane(50), split(vec![pane(60), pane(40)], 50)], 100);
    assert!(verify_layout_recursive(&nested).is_ok());
}

#[test]
fn bad_sum_reports_the_percentages() {
    let err = verify_layout_recursive(&split(vec![pane(30), pane(30)], 100)).unwrap_err();
    assert_eq!(err, "Percentages [30, 30] add up to 60, expected 100.");
}

#[test]
fn first_offending_split_wins() {
    let nested = split(vec![split(vec![pane(10)], 50), split(vec![pane(20)], 50)], 100);
    let err = verify_layout_recursive(&nested).unwrap_err();
    assert_eq!(err, "Percentages [10] add up to 10, expected 100.");
}

#[test]
fn preset_validation_checks_every_window() {
    let good = Window { name: "a".into(), cwd: "~".into(), layout: pane(100) };
    let bad = Window { name: "b".into(), cwd: "~".into(), layout: split(vec![pane(99)], 100) };
    let preset = Preset {
        name: "p".into(),
        cwd: "~".into(),
        windows: vec![good, bad],
        running: false,
    };
    let err = verify_preset(&preset).unwrap_err();
    assert_eq!(err, "Percentages [99] add up to 99, expected 100.");
}

#[test]
fn size_accessor_reads_and_writes_both_variants() {
    let mut p = pane(40);
    assert_eq!(p.size(), 40);
    p.set_size(100);
    assert_eq!(p.size(), 100);
    let mut s = split(vec![pane(100)], 25);
    assert_eq!(s.size(), 25);
    s.set_size(75);
    assert_eq!(s.size(), 75);
    match s {
        LayoutNode::Split { children, .. } => assert_eq!(children.len(), 1),
        _ => panic!("expected a split"),
    }
}

#[test]
fn tree_equality_is_structural() {
    let a = split(vec![pane(50), pane(50)], 100);
    let b = split(vec![pane(50), pane(50)], 100);
    let c = split(vec![pane(50), pane(49)], 100);
    assert!(a.tree_eq(&b));
    assert!(!a.tree_eq(&c));
    assert!(!a.tree_eq(&pane(100)));
}
