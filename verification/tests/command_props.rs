use muffin::commands::{
    create_session, delete_session, list_sessions_command, new_window, parse_session_line,
    parse_sessions, rename_session, rename_window, send_keys, sessions_active_first,
    split_window, switch_session,
};
use muffin::machine::parse_pane_address;
use muffin::model::SplitDirection;
use muffin::strutil::{parse_usize, usize_to_string};

#[test]
fn test_split_window() {
    let x = split_window("muffin:BOBBY.0", 50, SplitDirection::Horizontal);
    println!("{:?}", x);
    assert_eq!(x, vec!["split-window", "-t", "muffin:BOBBY.0", "-h", "-p", "50", "-P"]);
}

#[test]
fn split_window_vertical_uses_its_flag() {
    let x = split_window("a:b.1", 63, SplitDirection::Vertical);
    assert_eq!(x, vec!["split-window", "-t", "a:b.1", "-v", "-p", "63", "-P"]);
}

#[test]
fn tmux_test_create_delete_session() {
    let x = create_session("test_session");
    println!("{:#?}", x);
    assert_eq!(x, vec!["new-session", "-s", "test_session", "-d"]);
    let x = delete_session("test_session");
    println!("{:#?}", x);
    assert_eq!(x, vec!["kill-session", "-t", "test_session"]);
}

#[test]
fn lib_test_create_delete_session() {
    let x = create_session("test_session");
    println!("{:#?}", x);
    assert_eq!(x, vec!["new-session", "-s", "test_session", "-d"]);
    let x = delete_session("test_session");
    println!("{:#?}", x);
    assert_eq!(x, vec!["kill-session", "-t", "test_session"]);
}

#[test]
fn unnamed_session_is_created_bare() {
    assert_eq!(create_session(""), vec!["new-session", "-d"]);
}

#[test]
fn other_session_commands() {
    assert_eq!(switch_session("s"), vec!["switch-client", "-t", "s"]);
    assert_eq!(rename_session("s", "t"), vec!["rename-session", "-t", "s", "t"]);
    assert_eq!(list_sessions_command(), vec!["list-sessions"]);
}

#[test]
fn window_and_key_commands() {
    assert_eq!(
        rename_window("sess", 0, "main"),
        vec!["rename-window", "-t", "sess:0", "main"]
    );
    assert_eq!(
        new_window("sess", "logs"),
        vec!["new-window", "-t", "sess", "-n", "logs", "-P"]
    );
    assert_eq!(
        send_keys("sess:main.0", "cd ~/proj"),
        vec!["send-keys", "-t", "sess:main.0", "cd ~/proj", "Enter"]
    );
}

#[test]
fn pane_address_round_trip() {
    let (s, w, i) = parse_pane_address(" muffin:BOBBY.2\n").unwrap();
    assert_eq!(s, "muffin");
    assert_eq!(w, "BOBBY");
    assert_eq!(i, 2);
}

#[test]
fn pane_address_splits_at_first_separators() {
    let (s, w, i) = parse_pane_address("a:b:c.10").unwrap();
    assert_eq!(s, "a");
    assert_eq!(w, "b:c");
    assert_eq!(i, 10);
    // everything after the first dot must be the index
    assert_eq!(parse_pane_address("a:b.1.0").unwrap_err(), "Parsing error");
}

#[test]
fn pane_address_errors() {
    assert_eq!(parse_pane_address("no separators").unwrap_err(), "Unexpected output");
    assert_eq!(parse_pane_address("sess:win").unwrap_err(), "Unexpected output");
    assert_eq!(parse_pane_address("sess:win.x").unwrap_err(), "Parsing error");
    assert_eq!(parse_pane_address("sess:win.").unwrap_err(), "Parsing error");
}

#[test]
fn session_listing_line_parses() {
    let s = parse_session_line("muffin: 3 windows (created Fri)").unwrap();
    assert_eq!(s.name, "muffin");
    assert_eq!(s.windows, "3");
    assert!(!s.active);
    let s = parse_session_line("work: 12 windows (created Fri) (attached)").unwrap();
    assert_eq!(s.name, "work");
    assert_eq!(s.windows, "12");
    assert!(s.active);
}

#[test]
fn session_listing_splits_lines() {
    let out = "a: 1 windows\nb: 2 windows (attached)\n";
    let sessions = parse_sessions(out).unwrap();
    assert_eq!(sessions.len(), 2);
    assert_eq!(sessions[0].name, "a");
    assert!(!sessions[0].active);
    assert_eq!(sessions[1].name, "b");
    assert!(sessions[1].active);
}

#[test]
fn session_listing_rejects_misshapen_lines() {
    assert!(parse_sessions("not a listing\n").is_err());
}

#[test]
fn attached_sessions_come_first_in_order() {
    let out = "a: 1 windows\nb: 2 windows (attached)\nc: 3 windows\nd: 4 windows (attached)\n";
    let sessions = parse_sessions(out).unwrap();
    let sorted = sessions_active_first(&sessions);
    let names: Vec<&str> = sorted.iter().map(|s| s.name.as_str()).collect();
    assert_eq!(names, vec!["b", "d", "a", "c"]);
}

#[test]
fn decimal_helpers_agree() {
    assert_eq!(usize_to_string(0), "0");
    assert_eq!(usize_to_string(407), "407");
    assert_eq!(parse_usize("407"), Some(407));
    assert_eq!(parse_usize("0"), Some(0));
    assert_eq!(parse_usize(""), None);
    assert_eq!(parse_usize("+5"), None);
    assert_eq!(parse_usize("12a"), None);
    assert_eq!(parse_usize("99999999999999999999999999"), None);
}
