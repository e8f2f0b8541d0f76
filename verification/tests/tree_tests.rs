use procinfo::params::RawParams;
use procinfo::{build, FileTicks, LocalProcessStatus, RawProcess, Timestamp};

fn wstr(s: &str) -> Vec<u16> {
    s.encode_utf16().collect()
}

fn bare(pid: u32, ppid: u32, name: &str) -> RawProcess {
    RawProcess {
        pid,
        ppid,
        exe_file: wstr(name),
        image_path: None,
        params: None,
        start: None,
    }
}

const NOW: Timestamp = Timestamp { unix_nanos: 1_700_000_000_000_000_000 };

#[test]
fn absent_root_yields_nothing() {
    let list = vec![bare(1, 0, "init"), bare(2, 1, "shell")];
    assert!(build(42, &list, NOW).is_none());
}

#[test]
fn empty_snapshot_yields_nothing() {
    let list: Vec<RawProcess> = Vec::new();
    assert!(build(1, &list, NOW).is_none());
}

#[test]
fn present_root_yields_a_tree() {
    let list = vec![bare(1, 0, "init"), bare(2, 1, "shell")];
    assert!(build(1, &list, NOW).is_some());
}

#[test]
fn three_level_chain() {
    let list = vec![bare(1, 0, "init"), bare(2, 1, "shell"), bare(3, 2, "editor")];
    let node = build(2, &list, NOW).unwrap();
    assert_eq!(node.pid, 2);
    assert_eq!(node.ppid, 1);
    assert_eq!(node.name, "shell");
    assert!(matches!(node.status, LocalProcessStatus::Run));
    assert_eq!(node.children.len(), 1);
    let child = &node.children[0];
    assert_eq!(child.pid, 3);
    assert_eq!(child.ppid, 2);
    assert_eq!(child.name, "editor");
    assert!(child.children.is_empty());
}

#[test]
fn orphan_root_keeps_its_ppid_and_gets_no_parent() {
    let list = vec![bare(1, 0, "init"), bare(5, 99, "orphan")];
    let node = build(5, &list, NOW).unwrap();
    assert_eq!(node.pid, 5);
    assert_eq!(node.ppid, 99);
    assert!(node.children.is_empty());
}

#[test]
fn unreadable_process_gets_defaults() {
    let list = vec![bare(7, 1, "ghost.exe")];
    let node = build(7, &list, NOW).unwrap();
    assert_eq!(node.pid, 7);
    assert_eq!(node.ppid, 1);
    assert_eq!(node.name, "ghost.exe");
    assert_eq!(node.executable, "ghost.exe");
    assert_eq!(node.cwd, "");
    assert!(node.argv.is_empty());
    assert_eq!(node.start_time, NOW);
}

#[test]
fn children_are_exactly_the_matching_entries() {
    let list = vec![
        bare(10, 1, "a"),
        bare(11, 10, "b"),
        bare(12, 2, "x"),
        bare(13, 10, "c"),
        bare(14, 13, "d"),
    ];
    let node = build(10, &list, NOW).unwrap();
    let mut kid_pids: Vec<u32> = node.children.iter().map(|c| c.pid).collect();
    kid_pids.sort();
    assert_eq!(kid_pids, vec![11, 13]);
    let c13 = node.children.iter().find(|c| c.pid == 13).unwrap();
    assert_eq!(c13.children.len(), 1);
    assert_eq!(c13.children[0].pid, 14);
}

#[test]
fn children_do_not_depend_on_list_order() {
    let a = vec![bare(10, 1, "a"), bare(11, 10, "b"), bare(13, 10, "c")];
    let b = vec![bare(13, 10, "c"), bare(10, 1, "a"), bare(11, 10, "b")];
    let na = build(10, &a, NOW).unwrap();
    let nb = build(10, &b, NOW).unwrap();
    let mut pa: Vec<u32> = na.children.iter().map(|c| c.pid).collect();
    let mut pb: Vec<u32> = nb.children.iter().map(|c| c.pid).collect();
    pa.sort();
    pb.sort();
    assert_eq!(pa, pb);
}

#[test]
fn pids_are_unique_in_the_tree() {
    let list = vec![
        bare(1, 0, "root"),
        bare(2, 1, "a"),
        bare(3, 1, "b"),
        bare(4, 2, "c"),
        bare(5, 3, "d"),
    ];
    let node = build(1, &list, NOW).unwrap();
    let mut pids: Vec<u32> = Vec::new();
    let mut stack = vec![&node];
    while let Some(n) = stack.pop() {
        pids.push(n.pid);
        for c in &n.children {
            stack.push(c);
        }
    }
    let total = pids.len();
    pids.sort();
    pids.dedup();
    assert_eq!(pids.len(), total);
    assert_eq!(pids, vec![1, 2, 3, 4, 5]);
}

#[test]
fn resolved_image_path_wins_and_names_the_node() {
    let mut p = bare(4, 1, "raw.exe");
    p.image_path = Some(wstr("C:\\Windows\\System32\\notepad.exe"));
    let list = vec![p];
    let node = build(4, &list, NOW).unwrap();
    assert_eq!(node.executable, "C:\\Windows\\System32\\notepad.exe");
    assert_eq!(node.name, "notepad.exe");
}

#[test]
fn full_parameter_chain_fills_cwd_and_argv() {
    let mut p = bare(9, 1, "app.exe");
    p.params = Some(RawParams {
        command_line: wstr("\"app.exe\" --flag \"two words\""),
        current_directory: wstr("C:\\Users\\someone"),
    });
    p.start = Some(FileTicks { low: 0, high: 0 });
    let list = vec![p];
    let node = build(9, &list, NOW).unwrap();
    assert_eq!(node.cwd, "C:\\Users\\someone");
    assert_eq!(node.argv, vec!["app.exe", "--flag", "two words"]);
    assert_eq!(node.start_time.unix_nanos, -11_644_473_600_000_000_000);
}

#[test]
fn start_time_sentinel_is_now_not_zero() {
    let list = vec![bare(3, 1, "p")];
    let node = build(3, &list, NOW).unwrap();
    assert_eq!(node.start_time, NOW);
    assert_ne!(node.start_time.unix_nanos, 0);
}

#[test]
fn cyclic_parent_links_break_at_the_root() {
    // a live snapshot cannot produce this, but a synthetic list can:
    // each entry names the other as its parent
    let list = vec![bare(1, 2, "a"), bare(2, 1, "b")];
    let node = build(1, &list, NOW).unwrap();
    assert_eq!(node.pid, 1);
    assert_eq!(node.children.len(), 1);
    let child = &node.children[0];
    assert_eq!(child.pid, 2);
    assert!(child.children.is_empty());
}

#[test]
fn timing_success_overrides_the_sentinel() {
    let mut p = bare(3, 1, "p");
    // the platform epoch tick count of the Unix epoch itself
    let ticks: u64 = 116_444_736_000_000_000;
    p.start = Some(FileTicks { low: ticks as u32, high: (ticks >> 32) as u32 });
    let list = vec![p];
    let node = build(3, &list, NOW).unwrap();
    assert_eq!(node.start_time.unix_nanos, 0);
}
