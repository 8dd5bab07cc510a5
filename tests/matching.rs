use bad_reads::{get_first_read, get_last_read, MuxStat, PoreMuxMap, PoreMuxStats, PoreState, ReadTimestamp};

const SEC: u64 = 1_000_000_000;

fn store(events: &[(u64, PoreState)]) -> PoreMuxMap {
    let mut m = PoreMuxMap::new();
    let muxs = events.iter().map(|&(t, s)| MuxStat::new(t * SEC, s)).collect();
    m.insert((0, 0), PoreMuxStats::new(muxs));
    m
}

fn read(id: &str, secs: u64) -> ReadTimestamp {
    ReadTimestamp::new(id.to_string(), secs * SEC, 0, 0)
}

#[test]
fn one_read_one_bad_mux() {
    let pore_mux_map = store(&[(1, PoreState::Dead)]);
    let read_timestamps = vec![read("a", 0)];

    let reads = get_last_read(pore_mux_map.clone(), &read_timestamps, PoreState::Dead);
    assert!(!reads.is_empty());

    let reads = get_first_read(pore_mux_map.clone(), &read_timestamps, PoreState::Dead);
    assert!(reads.is_empty());
}

#[test]
fn one_read_after_bad_mux() {
    let pore_mux_map = store(&[(0, PoreState::Dead)]);
    let read_timestamps = vec![read("a", 1)];

    let reads = get_last_read(pore_mux_map.clone(), &read_timestamps, PoreState::Dead);
    assert!(reads.is_empty());

    let reads = get_first_read(pore_mux_map.clone(), &read_timestamps, PoreState::Dead);
    assert!(!reads.is_empty());
}

#[test]
fn two_read_one_bad_mux() {
    let pore_mux_map = store(&[(2, PoreState::Dead)]);
    let read_timestamps = vec![read("a", 0), read("b", 1)];

    let reads = get_last_read(pore_mux_map.clone(), &read_timestamps, PoreState::Dead);

    assert!(!reads.is_empty());
    assert!(reads.len() == 1);
    assert!(reads[0] == "b");
}

#[test]
fn one_bad_mux_two_read() {
    let pore_mux_map = store(&[(0, PoreState::Dead)]);
    let read_timestamps = vec![read("a", 1), read("b", 2)];

    let reads = get_first_read(pore_mux_map.clone(), &read_timestamps, PoreState::Dead);

    assert!(!reads.is_empty());
    assert!(reads.len() == 1);
    assert!(reads[0] == "a");
}

#[test]
fn two_read_two_bad_mux() {
    let pore_mux_map = store(&[(1, PoreState::Dead), (3, PoreState::Dead)]);
    let read_timestamps = vec![read("a", 0), read("b", 2)];

    let reads = get_last_read(pore_mux_map.clone(), &read_timestamps, PoreState::Dead);

    assert!(!reads.is_empty());
    assert!(reads.len() == 2);
    assert!(reads[0] == "a");
    assert!(reads[1] == "b");
}

#[test]
fn two_bad_mux_two_read() {
    let pore_mux_map = store(&[(0, PoreState::Dead), (2, PoreState::Dead)]);
    let read_timestamps = vec![read("a", 1), read("b", 3)];

    let reads = get_first_read(pore_mux_map.clone(), &read_timestamps, PoreState::Dead);

    assert!(!reads.is_empty());
    assert!(reads.len() == 2);
    assert!(reads[0] == "a");
    assert!(reads[1] == "b");
}

#[test]
fn one_bad_read_good_then_bad_mux() {
    let pore_mux_map = store(&[(1, PoreState::Alive), (3, PoreState::Dead)]);
    let read_timestamps = vec![read("a", 0)];

    let reads = get_last_read(pore_mux_map.clone(), &read_timestamps, PoreState::Dead);

    assert!(reads.is_empty());
}

#[test]
fn bad_then_good_mux_one_bad_read() {
    let pore_mux_map = store(&[(0, PoreState::Dead), (1, PoreState::Alive)]);
    let read_timestamps = vec![read("a", 2)];

    let reads = get_first_read(pore_mux_map.clone(), &read_timestamps, PoreState::Dead);

    assert!(reads.is_empty());
}

#[test]
fn good_mux_before_read_then_bad() {
    let pore_mux_map = store(&[(1, PoreState::Alive), (3, PoreState::Dead)]);
    let read_timestamps = vec![read("a", 2)];

    let reads = get_last_read(pore_mux_map.clone(), &read_timestamps, PoreState::Dead);

    assert!(!reads.is_empty());
}

#[test]
fn bad_mux_before_read_then_good() {
    let pore_mux_map = store(&[(1, PoreState::Dead), (3, PoreState::Alive)]);
    let read_timestamps = vec![read("a", 2)];

    let reads = get_first_read(pore_mux_map.clone(), &read_timestamps, PoreState::Dead);

    assert!(!reads.is_empty());
}

#[test]
fn read_good_mux_read_bad_mux() {
    let pore_mux_map = store(&[(1, PoreState::Alive), (3, PoreState::Dead)]);
    let read_timestamps = vec![read("a", 0), read("b", 2)];

    let reads = get_last_read(pore_mux_map.clone().clone(), &read_timestamps, PoreState::Dead);

    assert!(!reads.is_empty());
    assert!(reads.len() == 1);
    assert!(reads[0] == "b");
}

#[test]
fn good_mux_read_bad_mux_read() {
    let pore_mux_map = store(&[(0, PoreState::Alive), (2, PoreState::Dead)]);
    let read_timestamps = vec![read("a", 1), read("b", 3)];

    let reads = get_first_read(pore_mux_map.clone().clone(), &read_timestamps, PoreState::Dead);

    assert!(!reads.is_empty());
    assert!(reads.len() == 1);
    assert!(reads[0] == "b");
}

// Reads of a key without a timeline, or with an empty one, never match.
#[test]
fn reads_without_events_never_match() {
    let mut m = PoreMuxMap::new();
    m.insert((0, 0), PoreMuxStats::new(Vec::new()));
    m.insert((1, 1), PoreMuxStats::new(vec![MuxStat::new(5 * SEC, PoreState::Dead)]));
    let reads = vec![
        ReadTimestamp::new("empty".to_string(), 0, 0, 0),
        ReadTimestamp::new("absent".to_string(), 0, 7, 2),
        ReadTimestamp::new("held".to_string(), SEC, 1, 1),
    ];
    assert_eq!(get_last_read(m.clone(), &reads, PoreState::Dead), vec!["held".to_string()]);
    assert!(get_first_read(m.clone(), &reads, PoreState::Dead).is_empty());
    assert!(get_last_read(m, &reads, PoreState::Alive).is_empty());
}

#[test]
fn latest_single_dead_event_before_and_after() {
    let reads = vec![read("a", 0)];
    assert_eq!(get_last_read(store(&[(1, PoreState::Dead)]), &reads, PoreState::Dead), vec!["a"]);
    let reads = vec![read("a", 1)];
    assert!(get_last_read(store(&[(0, PoreState::Dead)]), &reads, PoreState::Dead).is_empty());
}

// A read at exactly an event's time belongs to the interval after it.
#[test]
fn equal_times_fall_after_the_event() {
    let reads = vec![read("a", 1)];
    assert!(get_last_read(store(&[(1, PoreState::Dead)]), &reads, PoreState::Dead).is_empty());
    assert!(get_first_read(store(&[(1, PoreState::Dead)]), &reads, PoreState::Dead).is_empty());
}

#[test]
fn latest_keeps_last_read_before_event() {
    let reads = vec![read("a", 0), read("b", 1)];
    assert_eq!(get_last_read(store(&[(2, PoreState::Dead)]), &reads, PoreState::Dead), vec!["b"]);
}

#[test]
fn earliest_keeps_first_read_after_event() {
    let reads = vec![read("a", 1), read("b", 2)];
    assert_eq!(get_first_read(store(&[(0, PoreState::Dead)]), &reads, PoreState::Dead), vec!["a"]);
}

#[test]
fn state_mismatch_blocks_match() {
    let reads = vec![read("a", 0)];
    let m = store(&[(1, PoreState::Alive), (3, PoreState::Dead)]);
    assert!(get_last_read(m.clone(), &reads, PoreState::Dead).is_empty());
    assert_eq!(get_last_read(m, &reads, PoreState::Alive), vec!["a"]);
}

#[test]
fn rerun_on_same_snapshot_gives_same_result() {
    let m = store(&[(1, PoreState::Dead), (3, PoreState::Alive), (5, PoreState::Dead)]);
    let reads = vec![read("a", 0), read("b", 2), read("c", 4), read("d", 6)];
    let first = get_last_read(m.clone(), &reads, PoreState::Dead);
    assert_eq!(first, get_last_read(m.clone(), &reads, PoreState::Dead));
    assert_eq!(first, vec!["a", "c"]);
    let early = get_first_read(m.clone(), &reads, PoreState::Dead);
    assert_eq!(early, get_first_read(m, &reads, PoreState::Dead));
    assert_eq!(early, vec!["b", "d"]);
}

// More than two events: the earliest match mirrors the latest match.
#[test]
fn earliest_over_three_events() {
    let m = store(&[(1, PoreState::Dead), (3, PoreState::Dead), (5, PoreState::Dead)]);
    let reads = vec![read("a", 0), read("b", 2), read("c", 4), read("d", 6)];
    assert_eq!(get_first_read(m.clone(), &reads, PoreState::Dead), vec!["b", "c", "d"]);
    assert_eq!(get_last_read(m, &reads, PoreState::Dead), vec!["a", "b", "c"]);
}

// Results go timeline by timeline in the order the keys were added.
#[test]
fn results_follow_store_order() {
    let mut m = PoreMuxMap::new();
    m.insert((2, 1), PoreMuxStats::new(vec![MuxStat::new(10 * SEC, PoreState::Dead)]));
    m.insert((1, 1), PoreMuxStats::new(vec![MuxStat::new(10 * SEC, PoreState::Dead)]));
    let reads = vec![
        ReadTimestamp::new("x".to_string(), SEC, 1, 1),
        ReadTimestamp::new("y".to_string(), 2 * SEC, 2, 1),
    ];
    assert_eq!(get_last_read(m, &reads, PoreState::Dead), vec!["y", "x"]);
}

#[test]
fn store_insert_replaces_timeline() {
    let mut m = PoreMuxMap::new();
    m.insert((3, 4), PoreMuxStats::new(vec![MuxStat::new(SEC, PoreState::Dead)]));
    m.insert((3, 4), PoreMuxStats::new(Vec::new()));
    assert_eq!(m.len(), 1);
    assert!(m.get((3, 4)).unwrap().muxs.is_empty());
    assert!(m.get((4, 3)).is_none());
}
