use bad_reads::{select_reads, PoreState, RawRead, ReadMode, RecordError, RunError, ScanError};

fn row(channel: &str, pore: &str, label: &str, start: &str) -> Vec<String> {
    let mut cols: Vec<String> = (0..37).map(|i| format!("c{}", i)).collect();
    cols[0] = channel.to_string();
    cols[1] = pore.to_string();
    cols[26] = label.to_string();
    cols[36] = start.to_string();
    cols
}

fn rec(id: &str, channel: &str, pore: u8, secs: u64) -> RawRead {
    RawRead {
        read_id: id.to_string(),
        channel: channel.to_string(),
        pore,
        start_samples: secs * 5000,
        sampling_rate: 5000,
    }
}

fn table() -> Vec<Vec<String>> {
    vec![
        row("ch", "mux", "state", "start"),
        row("1", "1", "single_pore", "10"),
        row("1", "1", "pore_dead", "20.0"),
        row("2", "1", "zero", "10.5"),
    ]
}

fn records() -> Vec<RawRead> {
    vec![
        rec("late", "1", 1, 25),
        rec("mid", "1", 1, 15),
        rec("other", "2", 1, 5),
        rec("early", "1", 1, 5),
        rec("nokey", "3", 1, 5),
    ]
}

#[test]
fn select_last_before_each_event() {
    let ids = select_reads(&table(), &records(), PoreState::Dead, ReadMode::Last).unwrap();
    assert_eq!(ids, vec!["mid", "other"]);
    let ids = select_reads(&table(), &records(), PoreState::Alive, ReadMode::Last).unwrap();
    assert_eq!(ids, vec!["early"]);
}

#[test]
fn select_first_after_each_event() {
    let ids = select_reads(&table(), &records(), PoreState::Dead, ReadMode::First).unwrap();
    assert_eq!(ids, vec!["late"]);
    let ids = select_reads(&table(), &records(), PoreState::Alive, ReadMode::First).unwrap();
    assert_eq!(ids, vec!["mid"]);
}

#[test]
fn select_reports_table_error_first() {
    let mut t = table();
    t.push(row("1", "x", "single_pore", "30"));
    let mut r = records();
    r.push(rec("bad", "?", 1, 1));
    assert_eq!(
        select_reads(&t, &r, PoreState::Dead, ReadMode::Last),
        Err(RunError::Scan(ScanError::MalformedRow { row: 4 }))
    );
    assert_eq!(
        select_reads(&table(), &r, PoreState::Dead, ReadMode::Last),
        Err(RunError::Record(RecordError::BadChannel { record: 5 }))
    );
}
