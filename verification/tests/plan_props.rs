use muffin::machine::{ResolvedOp, SpawnRun};
use muffin::model::{LayoutNode, Preset, SplitDirection, Window};
use muffin::plan::{spawn_preset, BackendOp};

fn bare_pane(size: u8) -> LayoutNode {
    LayoutNode::Pane { cwd: None, command: None, size }
}

fn one_window_preset(name: &str, window: &str, layout: LayoutNode) -> Preset {
    Preset {
        name: name.to_string(),
        cwd: "~".to_string(),
        windows: vec![Window { name: window.to_string(), cwd: "~".to_string(), layout }],
        running: false,
    }
}

fn split_ops(plan: &[BackendOp]) -> Vec<(usize, u8)> {
    plan.iter()
        .filter_map(|op| match op {
            BackendOp::SplitPane { target, percentage, .. } => Some((*target, *percentage)),
            _ => None,
        })
        .collect()
}

#[test]
fn vertical_split_20_30_50_issues_exactly_two_splits() {
    let layout = LayoutNode::Split {
        direction: SplitDirection::Vertical,
        children: vec![bare_pane(20), bare_pane(30), bare_pane(50)],
        size: 100,
    };
    let preset = one_window_preset("p", "w", layout);
    let plan = spawn_preset(&preset);
    assert_eq!(plan.len(), 4);
    assert!(matches!(&plan[0], BackendOp::CreateSession { name } if name == "p"));
    assert!(
        matches!(&plan[1], BackendOp::RenameWindow { session, name } if session == "p" && name == "w")
    );
    let splits = split_ops(&plan);
    assert_eq!(splits, vec![(0, 80), (1, 63)]);
}

#[test]
fn percentages_follow_the_actual_sum_not_100() {
    let layout = LayoutNode::Split {
        direction: SplitDirection::Vertical,
        children: vec![bare_pane(33), bare_pane(33)],
        size: 100,
    };
    let plan = spawn_preset(&one_window_preset("p", "w", layout));
    // remaining is 66, so the new pane takes round(33 / 66 * 100) = 50.
    assert_eq!(split_ops(&plan), vec![(0, 50)]);
}

#[test]
fn pane_leaf_sends_cwd_then_command() {
    let layout = LayoutNode::Pane {
        cwd: Some("/work".to_string()),
        command: Some("make".to_string()),
        size: 100,
    };
    let plan = spawn_preset(&one_window_preset("p", "w", layout));
    assert_eq!(plan.len(), 4);
    assert!(
        matches!(&plan[2], BackendOp::SendText { target: 0, text } if text == "cd /work")
    );
    assert!(matches!(&plan[3], BackendOp::SendText { target: 0, text } if text == "make"));
}

#[test]
fn later_windows_are_created_not_renamed() {
    let preset = Preset {
        name: "p".to_string(),
        cwd: "~".to_string(),
        windows: vec![
            Window { name: "first".to_string(), cwd: "~".to_string(), layout: bare_pane(100) },
            Window { name: "second".to_string(), cwd: "~".to_string(), layout: bare_pane(100) },
        ],
        running: false,
    };
    let plan = spawn_preset(&preset);
    assert_eq!(plan.len(), 3);
    assert!(
        matches!(&plan[1], BackendOp::RenameWindow { session, name } if session == "p" && name == "first")
    );
    assert!(
        matches!(&plan[2], BackendOp::NewWindow { session, name } if session == "p" && name == "second")
    );
}

#[test]
fn run_resolves_slots_to_reported_panes() {
    let layout = LayoutNode::Split {
        direction: SplitDirection::Vertical,
        children: vec![bare_pane(20), bare_pane(30), bare_pane(50)],
        size: 100,
    };
    let preset = one_window_preset("p", "w", layout);
    let mut run = SpawnRun::start(&preset);

    match run.current_op().unwrap() {
        ResolvedOp::CreateSession { name } => assert_eq!(name, "p"),
        other => panic!("unexpected operation {:?}", other),
    }
    run.report_ok("").unwrap();

    match run.current_op().unwrap() {
        ResolvedOp::RenameWindow { session, name } => {
            assert_eq!(session, "p");
            assert_eq!(name, "w");
        }
        other => panic!("unexpected operation {:?}", other),
    }
    run.report_ok("").unwrap();

    match run.current_op().unwrap() {
        ResolvedOp::SplitPane { target, percentage, .. } => {
            assert_eq!(target.session, "p");
            assert_eq!(target.window, "w");
            assert_eq!(target.index, 0);
            assert_eq!(percentage, 80);
        }
        other => panic!("unexpected operation {:?}", other),
    }
    run.report_ok("p:w.1\n").unwrap();

    match run.current_op().unwrap() {
        ResolvedOp::SplitPane { target, percentage, .. } => {
            assert_eq!(target.session, "p");
            assert_eq!(target.window, "w");
            assert_eq!(target.index, 1);
            assert_eq!(percentage, 63);
        }
        other => panic!("unexpected operation {:?}", other),
    }
    run.report_ok("p:w.2\n").unwrap();

    assert!(run.current_op().is_none());
    assert!(matches!(run.outcome(), Some(Ok(()))));
}

#[test]
fn failed_second_split_ends_the_run_with_that_error() {
    let layout = LayoutNode::Split {
        direction: SplitDirection::Vertical,
        children: vec![bare_pane(20), bare_pane(30), bare_pane(50)],
        size: 100,
    };
    let preset = one_window_preset("p", "w", layout);
    let mut run = SpawnRun::start(&preset);

    let mut successful_splits = 0;
    loop {
        let op = match run.current_op() {
            Some(op) => op,
            None => break,
        };
        match op {
            ResolvedOp::SplitPane { .. } => {
                if successful_splits == 1 {
                    run.report_err("no space for a new pane".to_string());
                    continue;
                }
                successful_splits += 1;
                run.report_ok("p:w.1\n").unwrap();
            }
            _ => {
                run.report_ok("").unwrap();
            }
        }
    }
    assert_eq!(successful_splits, 1);
    assert!(run.current_op().is_none());
    match run.outcome() {
        Some(Err(e)) => assert_eq!(e, "no space for a new pane"),
        other => panic!("unexpected outcome {:?}", other),
    }
}

#[test]
fn unreadable_split_answer_is_a_protocol_error() {
    let layout = LayoutNode::Split {
        direction: SplitDirection::Vertical,
        children: vec![bare_pane(50), bare_pane(50)],
        size: 100,
    };
    let mut run = SpawnRun::start(&one_window_preset("p", "w", layout));
    run.report_ok("").unwrap();
    run.report_ok("").unwrap();
    let err = run.report_ok("garbage without separators").unwrap_err();
    assert_eq!(err, "Unexpected output");
    assert!(run.current_op().is_none());
    match run.outcome() {
        Some(Err(e)) => assert_eq!(e, "Unexpected output"),
        other => panic!("unexpected outcome {:?}", other),
    }
}

#[test]
fn test_spawn_preset() {
    let layout1 = LayoutNode::Split {
        direction: SplitDirection::Horizontal,
        children: vec![
            LayoutNode::Pane { cwd: None, command: None, size: 33 },
            LayoutNode::Pane { cwd: None, command: Some("nvim".to_string()), size: 34 },
            LayoutNode::Pane { cwd: None, command: None, size: 33 },
        ],
        size: 100,
    };
    let layout2 = LayoutNode::Split {
        direction: SplitDirection::Horizontal,
        children: vec![
            LayoutNode::Pane {
                cwd: Some("~/zNix".to_string()),
                command: Some("nvim".to_string()),
                size: 50,
            },
            LayoutNode::Split {
                direction: SplitDirection::Vertical,
                children: vec![
                    LayoutNode::Pane {
                        cwd: Some("~/zNix".to_string()),
                        command: Some("git status".to_string()),
                        size: 50,
                    },
                    LayoutNode::Pane {
                        cwd: Some("~/zNix".to_string()),
                        command: None,
                        size: 50,
                    },
                ],
                size: 50,
            },
        ],
        size: 100,
    };
    let window1 = Window { name: "BOBBY".into(), cwd: "~".into(), layout: layout1 };
    let window2 = Window { name: "BOBBY TWO".into(), cwd: "~".into(), layout: layout2 };
    let preset = Preset {
        name: "test-preset".into(),
        cwd: "~".into(),
        windows: vec![window1, window2],
        running: false,
    };
    let plan = spawn_preset(&preset);
    println!("{:?}", plan.len());
    assert!(matches!(&plan[0], BackendOp::CreateSession { name } if name == "test-preset"));
    // layout1 carves two panes, layout2 one at the top and one nested.
    assert_eq!(split_ops(&plan).len(), 4);
    let sends = plan
        .iter()
        .filter(|op| matches!(op, BackendOp::SendText { .. }))
        .count();
    // layout1: one command; layout2: three cds and two commands.
    assert_eq!(sends, 6);
}
