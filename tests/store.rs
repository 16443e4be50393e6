use healthcheck::entry::{EmailResult, PingResult, StatsEntry, Timestamp, ENTRY_VERSION};
use healthcheck::row::HEADER;
use healthcheck::stats_file::{
    encode_entry, encode_header, load_from_file, log_entry, parse_timestamp_bytes, store_write,
    LogWrite, StatsFileError, StoreState,
};

fn stamp(second: u32, nanosecond: u32) -> Timestamp {
    Timestamp::from_parts(2024, 3, 5, 7, 8, second, nanosecond).unwrap()
}

fn entry(
    second: u32,
    url: &str,
    state: &str,
    ping: PingResult,
    ping_error: Option<&str>,
    email: EmailResult,
    email_error: Option<&str>,
) -> StatsEntry {
    StatsEntry::new(
        stamp(second, 123),
        url.to_string(),
        state.to_string(),
        ping,
        ping_error.map(|s| s.to_string()),
        email,
        email_error.map(|s| s.to_string()),
    )
}

fn same(a: &StatsEntry, b: &StatsEntry) -> bool {
    a.entry_version == b.entry_version
        && a.timestamp == b.timestamp
        && a.pinged_url == b.pinged_url
        && a.request_state == b.request_state
        && a.ping_result == b.ping_result
        && a.ping_error == b.ping_error
        && a.email_result == b.email_result
        && a.email_error == b.email_error
}

fn bytes_of(w: LogWrite) -> Vec<u8> {
    match w {
        LogWrite::Create(b) => b,
        LogWrite::Append(b) => b,
    }
}

fn sample_entries() -> Vec<StatsEntry> {
    vec![
        entry(9, "http://x/api/health?state=AbC12xZ", "AbC12xZ", PingResult::Success, None, EmailResult::NotSent, None),
        entry(
            10,
            "http://x/api/health?state=q1",
            "q1",
            PingResult::Failure,
            Some("got error response 500 from server"),
            EmailResult::SentSuccessfully,
            None,
        ),
        entry(
            11,
            "http://x/a,b",
            "st\"ate",
            PingResult::Failure,
            Some("line one\nline two, with \"quotes\"\r"),
            EmailResult::FailedToSend,
            Some(""),
        ),
        entry(12, "", "ünïcødé ✓", PingResult::Success, None, EmailResult::NotSent, Some("x")),
    ]
}

#[test]
fn row_has_exact_bytes() {
    let e = entry(
        9,
        "http://x/api/health?state=AbC12xZ",
        "AbC12xZ",
        PingResult::Failure,
        Some("a,b"),
        EmailResult::FailedToSend,
        Some("say \"hi\""),
    );
    let row = String::from_utf8(encode_entry(&e)).unwrap();
    assert_eq!(
        row,
        "1,2024-03-05T07:08:09.000000123Z,http://x/api/health?state=AbC12xZ,AbC12xZ,Failure,\"a,b\",FailedToSend,\"say \"\"hi\"\"\"\n"
    );
}

#[test]
fn absent_and_empty_errors_differ() {
    let e = entry(9, "u", "s", PingResult::Success, None, EmailResult::NotSent, Some(""));
    let row = String::from_utf8(encode_entry(&e)).unwrap();
    assert_eq!(row, "1,2024-03-05T07:08:09.000000123Z,u,s,Success,,NotSent,\"\"\n");
}

#[test]
fn header_names_the_fields() {
    assert_eq!(
        String::from_utf8(encode_header()).unwrap(),
        "entry_version,timestamp,pinged_url,request_state,ping_result,ping_error,email_result,email_error\n"
    );
    assert_eq!(HEADER.as_bytes(), encode_header().as_slice());
}

#[test]
fn append_then_load_round_trip() {
    let entries = sample_entries();
    let mut file: Vec<u8> = Vec::new();
    for (i, e) in entries.iter().enumerate() {
        let state = if i == 0 { StoreState::Missing } else { StoreState::File };
        let w = store_write(state, e).unwrap();
        match (&w, i) {
            (LogWrite::Create(_), 0) => {}
            (LogWrite::Append(_), n) if n > 0 => {}
            _ => panic!("wrong kind of write"),
        }
        file.extend_from_slice(&bytes_of(w));
    }
    let loaded = load_from_file(StoreState::File, &file).unwrap();
    assert_eq!(loaded.len(), entries.len());
    for (a, b) in loaded.iter().zip(entries.iter()) {
        assert!(same(a, b));
    }
    assert_eq!(loaded[2].email_error, Some(String::new()));
    assert_eq!(loaded[0].ping_error, None);
}

#[test]
fn header_only_store_is_empty() {
    let loaded = load_from_file(StoreState::File, &encode_header()).unwrap();
    assert!(loaded.is_empty());
    let loaded = load_from_file(StoreState::File, &[]).unwrap();
    assert!(loaded.is_empty());
}

#[test]
fn directory_is_fatal_for_both_operations() {
    let e = sample_entries().remove(0);
    assert_eq!(store_write(StoreState::NotAFile, &e).unwrap_err(), StatsFileError::NotAFile);
    assert_eq!(load_from_file(StoreState::NotAFile, &[]).unwrap_err(), StatsFileError::NotAFile);
    let r = log_entry(
        StoreState::NotAFile,
        "AbC12xZ".to_string(),
        "u".to_string(),
        PingResult::Success,
        None,
        EmailResult::NotSent,
        None,
    );
    assert_eq!(r.unwrap_err(), StatsFileError::NotAFile);
}

#[test]
fn missing_store_cannot_be_loaded() {
    assert_eq!(load_from_file(StoreState::Missing, &[]).unwrap_err(), StatsFileError::Missing);
}

#[test]
fn malformed_rows_are_refused() {
    let mut file = encode_header();
    file.extend_from_slice(b"1,2024-03-05T07:08:09.000000123Z,u,s,Maybe,,NotSent,\n");
    assert_eq!(load_from_file(StoreState::File, &file).unwrap_err(), StatsFileError::Malformed);
    let mut file = encode_header();
    file.extend_from_slice(b"1,2024-13-05T07:08:09.000000123Z,u,s,Success,,NotSent,\n");
    assert_eq!(load_from_file(StoreState::File, &file).unwrap_err(), StatsFileError::Malformed);
    let mut file = encode_header();
    file.extend_from_slice(b"1,2024-03-05T07:08:09.000000123Z,u,s,Success,,NotSent\n");
    assert_eq!(load_from_file(StoreState::File, &file).unwrap_err(), StatsFileError::Malformed);
    let mut file = encode_header();
    file.extend_from_slice(b"1,2024-03-05T07:08:09.000000123Z,\"u,s,Success,,NotSent,\n");
    assert_eq!(load_from_file(StoreState::File, &file).unwrap_err(), StatsFileError::Malformed);
    assert_eq!(
        load_from_file(StoreState::File, b"not,a,header\n").unwrap_err(),
        StatsFileError::Malformed
    );
}

#[test]
fn log_entry_creates_then_appends() {
    let created = log_entry(
        StoreState::Missing,
        "AbC12xZ".to_string(),
        "http://x/api/health?state=AbC12xZ".to_string(),
        PingResult::Success,
        None,
        EmailResult::NotSent,
        None,
    )
    .unwrap();
    assert_eq!(created.0.entry_version, ENTRY_VERSION);
    assert_eq!(created.0.request_state, "AbC12xZ");
    let mut file = match created.1 {
        LogWrite::Create(b) => b,
        LogWrite::Append(_) => panic!("expected a new store"),
    };
    assert!(file.starts_with(HEADER.as_bytes()));
    let appended = log_entry(
        StoreState::File,
        "Zz9".to_string(),
        "u2".to_string(),
        PingResult::Failure,
        Some("boom".to_string()),
        EmailResult::FailedToSend,
        Some("smtp down".to_string()),
    )
    .unwrap();
    let row = match appended.1 {
        LogWrite::Append(b) => b,
        LogWrite::Create(_) => panic!("expected an append"),
    };
    assert!(!row.starts_with(b"entry_version"));
    file.extend_from_slice(&row);
    let loaded = load_from_file(StoreState::File, &file).unwrap();
    assert_eq!(loaded.len(), 2);
    assert!(same(&loaded[0], &created.0));
    assert!(same(&loaded[1], &appended.0));
}

#[test]
fn timestamp_text_round_trip() {
    let t = parse_timestamp_bytes(b"1999-12-31T23:59:59.999999999Z").unwrap();
    assert_eq!(t, Timestamp::from_parts(1999, 12, 31, 23, 59, 59, 999_999_999).unwrap());
    assert!(parse_timestamp_bytes(b"1999-12-31T24:59:59.999999999Z").is_none());
    assert!(parse_timestamp_bytes(b"1999-12-31 23:59:59.999999999Z").is_none());
    assert!(Timestamp::from_parts(2024, 0, 1, 0, 0, 0, 0).is_none());
    assert!(Timestamp::from_parts(10000, 1, 1, 0, 0, 0, 0).is_none());
}

#[test]
fn clock_gives_valid_time() {
    let t = Timestamp::now().unwrap();
    assert!(t.year >= 2000 && t.month >= 1 && t.month <= 12);
}

#[test]
fn largest_version_round_trips() {
    let mut e = entry(9, "u", "s", PingResult::Success, None, EmailResult::NotSent, None);
    e.entry_version = u32::MAX;
    let mut file = encode_header();
    file.extend_from_slice(&encode_entry(&e));
    let loaded = load_from_file(StoreState::File, &file).unwrap();
    assert_eq!(loaded[0].entry_version, u32::MAX);
    let mut file = encode_header();
    file.extend_from_slice(b"4294967296,2024-03-05T07:08:09.000000123Z,u,s,Success,,NotSent,\n");
    assert_eq!(load_from_file(StoreState::File, &file).unwrap_err(), StatsFileError::Malformed);
}

#[test]
fn timestamp_fractions_of_any_precision() {
    let t = |n: u32| Timestamp::from_parts(2023, 6, 1, 12, 0, 0, n).unwrap();
    assert_eq!(parse_timestamp_bytes(b"2023-06-01T12:00:00Z"), Some(t(0)));
    assert_eq!(parse_timestamp_bytes(b"2023-06-01T12:00:00.123Z"), Some(t(123_000_000)));
    assert_eq!(parse_timestamp_bytes(b"2023-06-01T12:00:00.123456Z"), Some(t(123_456_000)));
    assert_eq!(parse_timestamp_bytes(b"2023-06-01T12:00:00.123456789Z"), Some(t(123_456_789)));
    assert!(parse_timestamp_bytes(b"2023-06-01T12:00:00.12Z").is_none());
    assert!(parse_timestamp_bytes(b"2023-06-01T12:00:00.Z").is_none());
}

#[test]
fn clock_readings() {
    assert_eq!(
        Timestamp::from_clock(2024, 6, 30, 23, 59, 59, 1_500_000_000),
        Timestamp::from_parts(2024, 6, 30, 23, 59, 59, 999_999_999)
    );
    assert_eq!(Timestamp::from_clock(-1, 1, 1, 0, 0, 0, 0), None);
    assert_eq!(Timestamp::from_clock(10000, 1, 1, 0, 0, 0, 0), None);
    assert_eq!(
        Timestamp::from_clock(2024, 2, 3, 4, 5, 6, 7),
        Timestamp::from_parts(2024, 2, 3, 4, 5, 6, 7)
    );
}
