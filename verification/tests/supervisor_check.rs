//! The supervisor's pure decisions: PID file parsing and rendering, liveness
//! pruning, the rendezvous paths, and the bootstrap choice.
use rust_companion::{
    BootstrapAction, bootstrap_decision, check_started_with, companion_addr, lockfile,
    parse_pid_file, pid_path, render_pid_file,
};

#[test]
fn parse_newline_separated_pids() {
    assert_eq!(parse_pid_file(&b"123\n456".to_vec()), vec![123, 456]);
    assert_eq!(parse_pid_file(&b"123\n456\n".to_vec()), vec![123, 456]);
    assert_eq!(parse_pid_file(&b"".to_vec()), Vec::<u32>::new());
    assert_eq!(parse_pid_file(&b"0".to_vec()), vec![0]);
}

#[test]
fn parse_ignores_lines_that_are_no_pid() {
    assert_eq!(parse_pid_file(&b"12a\n34\n\n-5\n9".to_vec()), vec![34, 9]);
    assert_eq!(parse_pid_file(&b"4294967295".to_vec()), vec![u32::MAX]);
    assert_eq!(parse_pid_file(&b"4294967296".to_vec()), Vec::<u32>::new());
    assert_eq!(parse_pid_file(&b"99999999999999999999\n7".to_vec()), vec![7]);
}

#[test]
fn render_then_parse_is_identity() {
    let pids = vec![1, 0, 4294967295, 42];
    assert_eq!(parse_pid_file(&render_pid_file(&pids)), pids);
    assert_eq!(render_pid_file(&vec![12, 34]), b"12\n34".to_vec());
    assert_eq!(render_pid_file(&vec![]), Vec::<u8>::new());
}

#[test]
fn liveness_pruning_keeps_only_the_live_pid() {
    // One live PID and one PID of no running process: after one check, only
    // the live one remains, and the check reports a survivor.
    let contents = render_pid_file(&vec![100, 200]);
    let live = vec![1, 100, 7];
    let (started, rewrite) = check_started_with(&contents, &live);
    assert!(started);
    assert_eq!(rewrite, render_pid_file(&vec![100]));
}

#[test]
fn no_survivor_prunes_to_the_empty_file() {
    let contents = render_pid_file(&vec![100, 200]);
    let (started, rewrite) = check_started_with(&contents, &vec![5, 6]);
    assert!(!started);
    assert!(rewrite.is_empty());
    let (started, rewrite) = check_started_with(&b"".to_vec(), &vec![5]);
    assert!(!started);
    assert!(rewrite.is_empty());
}

#[test]
fn pruning_keeps_survivor_order_and_drops_garbage() {
    let mut contents = render_pid_file(&vec![3, 1, 2]);
    contents.extend_from_slice(b"\nnot-a-pid");
    let (started, rewrite) = check_started_with(&contents, &vec![2, 3]);
    assert!(started);
    assert_eq!(rewrite, render_pid_file(&vec![3, 2]));
}

#[test]
fn addr_prefers_the_environment() {
    let r = companion_addr(Some(String::from("/run/x.sock")), "/tmp");
    assert_eq!(r, "/run/x.sock");
    let r = companion_addr(None, "/tmp");
    assert_eq!(r, "/tmp/rust-companion.sock");
}

#[test]
fn pid_path_under_the_temp_dir() {
    assert_eq!(pid_path("/tmp"), "/tmp/rust-companion.pid");
}

#[test]
fn lockfile_stops_at_the_profile_dir() {
    let parts: Vec<String> =
        ["home", "u", "proj", "target", "debug", "build", "out"].iter().map(|s| s.to_string()).collect();
    let r = lockfile(&parts);
    assert_eq!(r, vec!["home", "u", "proj", "target", "companion.lock"]);
    let parts: Vec<String> = ["a", "target", "release", "x"].iter().map(|s| s.to_string()).collect();
    assert_eq!(lockfile(&parts), vec!["a", "target", "companion.lock"]);
}

#[test]
fn lockfile_without_profile_dir_appends() {
    let parts: Vec<String> = ["a", "b"].iter().map(|s| s.to_string()).collect();
    assert_eq!(lockfile(&parts), vec!["a", "b", "companion.lock"]);
    assert_eq!(lockfile(&Vec::new()), vec!["companion.lock"]);
    // "target" alone, with no profile directory after it, does not stop the walk
    let parts: Vec<String> = ["a", "target", "x"].iter().map(|s| s.to_string()).collect();
    assert_eq!(lockfile(&parts), vec!["a", "target", "x", "companion.lock"]);
}

#[test]
fn bootstrap_choice_table() {
    let dflag = String::from("-d");
    let other = String::from("-x");
    assert_eq!(bootstrap_decision(true, None), BootstrapAction::Nothing);
    assert_eq!(bootstrap_decision(true, Some(&dflag)), BootstrapAction::Nothing);
    assert_eq!(bootstrap_decision(false, Some(&dflag)), BootstrapAction::RunDaemon);
    assert_eq!(bootstrap_decision(false, Some(&other)), BootstrapAction::Nothing);
    assert_eq!(bootstrap_decision(false, None), BootstrapAction::SpawnChild);
}
