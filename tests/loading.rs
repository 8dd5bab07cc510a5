use bad_reads::parse::{parse_seconds_ns, parse_unsigned};
use bad_reads::{gen_pore_mux_map, gen_read_timestamps, PoreState, RawRead, RecordError, ScanError};

fn row(channel: &str, pore: &str, label: &str, start: &str) -> Vec<String> {
    let mut cols: Vec<String> = (0..37).map(|i| format!("c{}", i)).collect();
    cols[0] = channel.to_string();
    cols[1] = pore.to_string();
    cols[26] = label.to_string();
    cols[36] = start.to_string();
    cols
}

fn header() -> Vec<String> {
    (0..37).map(|i| format!("h{}", i)).collect()
}

#[test]
fn pore_mux_map() {
    let rows = vec![
        header(),
        row("1", "1", "single_pore", "1"),
        row("1", "2", "saturated", "1.0"),
        row("1", "1", "zero", "2"),
        row("1", "2", "unavailable", "2.000"),
    ];
    let pore_mux_map = gen_pore_mux_map(&rows).expect("could not load scan table");

    let c1p1 = pore_mux_map.get((1, 1)).expect("could not get pore entry");
    assert!(c1p1.muxs[0].pore_state == PoreState::Alive);
    assert!(c1p1.muxs[0].start_ns == 1_000_000_000);
    assert!(c1p1.muxs[1].pore_state == PoreState::Dead);
    assert!(c1p1.muxs[1].start_ns == 2_000_000_000);

    let c1p2 = pore_mux_map.get((1, 2)).expect("could not get pore entry");
    assert!(c1p2.muxs[0].pore_state == PoreState::Dead);
    assert!(c1p2.muxs[0].start_ns == 1_000_000_000);
    assert!(c1p2.muxs[1].pore_state == PoreState::Dead);
    assert!(c1p2.muxs[1].start_ns == 2_000_000_000);
}

#[test]
fn scan_table_keeps_key_order_and_cursor_start() {
    let rows = vec![header(), row("9", "4", "single_pore", "0.5"), row("2", "1", "x", "3")];
    let m = gen_pore_mux_map(&rows).unwrap();
    assert_eq!(m.len(), 2);
    let t = m.get((9, 4)).unwrap();
    assert_eq!(t.last_entry, 0);
    assert_eq!(t.muxs[0].start_ns, 500_000_000);
    assert!(t.muxs[0].read_idx.is_none());
}

#[test]
fn scan_table_header_only_is_empty() {
    assert_eq!(gen_pore_mux_map(&vec![header()]).unwrap().len(), 0);
    assert_eq!(gen_pore_mux_map(&Vec::new()).unwrap().len(), 0);
}

#[test]
fn scan_table_malformed_rows() {
    let short = vec![header(), row("1", "1", "single_pore", "1"), vec!["1".to_string(); 36]];
    assert_eq!(gen_pore_mux_map(&short).err(), Some(ScanError::MalformedRow { row: 2 }));
    let bad_channel = vec![header(), row("one", "1", "single_pore", "1")];
    assert_eq!(gen_pore_mux_map(&bad_channel).err(), Some(ScanError::MalformedRow { row: 1 }));
    let bad_pore = vec![header(), row("1", "256", "single_pore", "1")];
    assert_eq!(gen_pore_mux_map(&bad_pore).err(), Some(ScanError::MalformedRow { row: 1 }));
    let bad_time = vec![header(), row("1", "1", "single_pore", "1.2.3")];
    assert_eq!(gen_pore_mux_map(&bad_time).err(), Some(ScanError::MalformedRow { row: 1 }));
}

#[test]
fn unsigned_parsing() {
    assert_eq!(parse_unsigned("416", u32::MAX as u64), Some(416));
    assert_eq!(parse_unsigned("+7", 255), Some(7));
    assert_eq!(parse_unsigned("4294967295", u32::MAX as u64), Some(4294967295));
    assert_eq!(parse_unsigned("4294967296", u32::MAX as u64), None);
    assert_eq!(parse_unsigned("256", 255), None);
    assert_eq!(parse_unsigned("", 255), None);
    assert_eq!(parse_unsigned("+", 255), None);
    assert_eq!(parse_unsigned("-1", 255), None);
    assert_eq!(parse_unsigned("1 ", 255), None);
}

#[test]
fn seconds_parsing() {
    assert_eq!(parse_seconds_ns("0"), Some(0));
    assert_eq!(parse_seconds_ns("12"), Some(12_000_000_000));
    assert_eq!(parse_seconds_ns("12."), Some(12_000_000_000));
    assert_eq!(parse_seconds_ns("1.5"), Some(1_500_000_000));
    assert_eq!(parse_seconds_ns("0.000000001"), Some(1));
    assert_eq!(parse_seconds_ns("0.1234567899"), Some(123_456_789));
    assert_eq!(parse_seconds_ns("18446744073.709551615"), Some(u64::MAX));
    assert_eq!(parse_seconds_ns("18446744073.709551616"), None);
    assert_eq!(parse_seconds_ns("18446744074"), None);
    assert_eq!(parse_seconds_ns(".5"), None);
    assert_eq!(parse_seconds_ns(""), None);
    assert_eq!(parse_seconds_ns("1e3"), None);
    assert_eq!(parse_seconds_ns("1.2.3"), None);
}

fn raw(id: &str, channel: &str, pore: u8, samples: u64) -> RawRead {
    RawRead {
        read_id: id.to_string(),
        channel: channel.to_string(),
        pore,
        start_samples: samples,
        sampling_rate: 4000,
    }
}

#[test]
fn read_timestamps() {
    let records = vec![
        raw("503f0bd8-3a00-4c76-9f2e-c70ada3d418b", "187", 2, 212162126),
        raw("76b715cd-aaea-4ae1-8026-41c1772597ed", "266", 1, 248115103),
        raw("8bfec45c-b89e-4510-9469-e94bb415b8e4", "333", 4, 114242867),
        raw("d56f390f-2e33-436e-9220-a93aca7dd11b", "348", 2, 119263451),
        raw("d62da1d5-971e-4e5d-9465-5715300e8523", "416", 4, 107652553),
    ];
    let read_timestamps = gen_read_timestamps(&records).unwrap();

    assert!(read_timestamps[0].read_id == "d62da1d5-971e-4e5d-9465-5715300e8523");
    assert!(read_timestamps[0].start_ns == 107652553 * 1_000_000_000 / 4000);
    assert!(read_timestamps[0].channel == 416);
    assert!(read_timestamps[0].pore == 4);

    assert!(read_timestamps[1].read_id == "8bfec45c-b89e-4510-9469-e94bb415b8e4");
    assert!(read_timestamps[1].start_ns == 114242867 * 1_000_000_000 / 4000);
    assert!(read_timestamps[1].channel == 333);
    assert!(read_timestamps[1].pore == 4);

    assert!(read_timestamps[2].read_id == "d56f390f-2e33-436e-9220-a93aca7dd11b");
    assert!(read_timestamps[2].start_ns == 119263451 * 1_000_000_000 / 4000);
    assert!(read_timestamps[2].channel == 348);
    assert!(read_timestamps[2].pore == 2);

    assert!(read_timestamps[3].read_id == "503f0bd8-3a00-4c76-9f2e-c70ada3d418b");
    assert!(read_timestamps[3].start_ns == 212162126 * 1_000_000_000 / 4000);
    assert!(read_timestamps[3].channel == 187);
    assert!(read_timestamps[3].pore == 2);

    assert!(read_timestamps[4].read_id == "76b715cd-aaea-4ae1-8026-41c1772597ed");
    assert!(read_timestamps[4].start_ns == 248115103 * 1_000_000_000 / 4000);
    assert!(read_timestamps[4].channel == 266);
    assert!(read_timestamps[4].pore == 1);
}

#[test]
fn read_start_rounds_down() {
    let mut r = raw("a", "1", 1, 1);
    r.sampling_rate = 3;
    let ts = gen_read_timestamps(&vec![r]).unwrap();
    assert_eq!(ts[0].start_ns, 333_333_333);
}

#[test]
fn read_timestamp_errors() {
    let records = vec![raw("a", "1", 1, 0), raw("b", "x1", 1, 0)];
    assert_eq!(gen_read_timestamps(&records).err(), Some(RecordError::BadChannel { record: 1 }));
    let mut zero = raw("a", "1", 1, 0);
    zero.sampling_rate = 0;
    assert_eq!(gen_read_timestamps(&vec![zero]).err(), Some(RecordError::ZeroSamplingRate { record: 0 }));
    let mut far = raw("a", "1", 1, u64::MAX);
    far.sampling_rate = 1;
    assert_eq!(gen_read_timestamps(&vec![far]).err(), Some(RecordError::StartOutOfRange { record: 0 }));
    assert!(gen_read_timestamps(&Vec::new()).unwrap().is_empty());
}

#[test]
fn equal_starts_keep_input_order() {
    let records = vec![raw("late", "1", 1, 8000), raw("b", "2", 1, 4000), raw("a", "3", 1, 4000)];
    let ts = gen_read_timestamps(&records).unwrap();
    let ids: Vec<&str> = ts.iter().map(|t| t.read_id.as_str()).collect();
    assert_eq!(ids, vec!["b", "a", "late"]);
    assert_eq!(ts[2].start_ns, 2_000_000_000);
}
