use ion_monitor::snapshot::ProcessInfo;
use ion_monitor::top::{insert_top, top_processes};

fn p(pid: u32, rank: u32) -> ProcessInfo {
    ProcessInfo {
        pid: pid.to_string(),
        name: format!("proc{}", pid),
        cpu_rank: rank,
        cpu_str: String::new(),
        mem_str: String::new(),
    }
}

fn pids(list: &[ProcessInfo]) -> Vec<String> {
    list.iter().map(|p| p.pid.clone()).collect()
}

#[test]
fn insert_top_places_before_first_lower_rank() {
    let mut list = vec![p(1, 50), p(2, 30), p(3, 10)];
    insert_top(&mut list, p(4, 30), 5);
    assert_eq!(pids(&list), vec!["1", "2", "4", "3"]);
}

#[test]
fn insert_top_drops_the_last_when_full() {
    let mut list = vec![p(1, 50), p(2, 30), p(3, 10)];
    insert_top(&mut list, p(4, 40), 3);
    assert_eq!(pids(&list), vec!["1", "4", "2"]);
}

#[test]
fn insert_top_rejects_when_no_room() {
    let mut list = vec![p(1, 50), p(2, 30), p(3, 10)];
    insert_top(&mut list, p(4, 10), 3);
    assert_eq!(pids(&list), vec!["1", "2", "3"]);
    let mut empty = Vec::new();
    insert_top(&mut empty, p(5, 99), 0);
    assert!(empty.is_empty());
}

#[test]
fn top_processes_keeps_five_highest() {
    let candidates: Vec<ProcessInfo> = [(1, 5), (2, 90), (3, 40), (4, 40), (5, 7), (6, 60), (7, 1), (8, 75)]
        .iter()
        .map(|(pid, rank)| p(*pid, *rank))
        .collect();
    let top = top_processes(candidates, 5);
    assert_eq!(pids(&top), vec!["2", "8", "6", "3", "4"]);
}

#[test]
fn top_processes_with_few_candidates() {
    let top = top_processes(vec![p(1, 3), p(2, 8)], 5);
    assert_eq!(pids(&top), vec!["2", "1"]);
    assert!(top_processes(Vec::new(), 5).is_empty());
}

#[test]
fn equal_ranks_keep_arrival_order() {
    let candidates: Vec<ProcessInfo> = [(1, 10), (2, 20), (3, 10), (4, 20), (5, 10), (6, 30)]
        .iter()
        .map(|(pid, rank)| p(*pid, *rank))
        .collect();
    let top = top_processes(candidates, 4);
    assert_eq!(pids(&top), vec!["6", "2", "4", "1"]);
}
