use pihole_metrics::handler::CursorFile;
use pihole_metrics::handler::Outcome;
use pihole_metrics::handler::extract;
use pihole_metrics::handler::format_error;
use pihole_metrics::handler::load_cursor;
use pihole_metrics::record::SourceRow;

fn row(id: u64, upstream: Option<&str>) -> SourceRow {
    SourceRow {
        id,
        timestamp: 10,
        query_type: 1,
        status: 2,
        domain: "example.com".to_string(),
        client: "10.0.0.2".to_string(),
        upstream: upstream.map(|u| u.to_string()),
        reply_type: 3,
    }
}

fn body_of(outcome: Outcome) -> (String, u64, bool) {
    match outcome {
        Outcome::Success { body, next, persist } => (body, next, persist),
        Outcome::Failure { message } => panic!("unexpected failure: {}", message),
    }
}

#[test]
fn scenario_first_run_then_empty_then_one_more() {
    // Cursor file absent: the cursor starts at 0.
    let cursor = load_cursor(CursorFile::Absent).unwrap();
    assert_eq!(cursor, 0);

    // First call: rows 1..3 are eligible; three lines, cursor becomes 3.
    let rows = vec![row(1, Some("8.8.8.8")), row(2, Some("8.8.8.8")), row(3, Some("8.8.8.8"))];
    let (body, next, persist) = body_of(extract(cursor, 5000, Ok(rows)));
    assert_eq!(body.lines().count(), 3);
    assert_eq!(
        body,
        "1,10001,1,2,3,10.0.0.2,example.com,8.8.8.8\n\
         2,10002,1,2,3,10.0.0.2,example.com,8.8.8.8\n\
         3,10003,1,2,3,10.0.0.2,example.com,8.8.8.8\n"
    );
    assert_eq!(next, 3);
    assert!(persist);

    // Second call: no new rows; empty body, cursor stays 3, no write.
    let (body, next, persist) = body_of(extract(3, 5000, Ok(Vec::new())));
    assert_eq!(body, "");
    assert_eq!(next, 3);
    assert!(!persist);

    // Third call, after row 4 arrived: exactly one line, cursor becomes 4.
    let (body, next, persist) = body_of(extract(3, 5000, Ok(vec![row(4, Some("8.8.8.8"))])));
    assert_eq!(body, "4,10004,1,2,3,10.0.0.2,example.com,8.8.8.8\n");
    assert_eq!(next, 4);
    assert!(persist);
}

#[test]
fn limit_enforcement() {
    // limit 2 with 5 eligible rows: exactly two lines, and the cursor
    // advances to the second-lowest id, not the highest eligible one.
    let rows = vec![row(10, None), row(20, None), row(30, None), row(40, None), row(50, None)];
    let (body, next, persist) = body_of(extract(5, 2, Ok(rows)));
    assert_eq!(body.lines().count(), 2);
    assert_eq!(next, 20);
    assert!(persist);
    assert!(body.starts_with("10,"));
    assert!(body.contains("\n20,"));
    assert!(!body.contains("30"));
}

#[test]
fn empty_batch_is_idempotent() {
    let (body, next, persist) = body_of(extract(77, 5000, Ok(Vec::new())));
    assert_eq!(body, "");
    assert_eq!(next, 77);
    assert!(!persist);
}

#[test]
fn null_upstream_is_normalized() {
    let (body, _, _) = body_of(extract(0, 5000, Ok(vec![row(1, None)])));
    assert_eq!(body, "1,10001,1,2,3,10.0.0.2,example.com,null\n");
    assert!(body.trim_end().ends_with(",null"));
}

#[test]
fn query_failure_leaves_cursor_untouched() {
    // A failed query produces no cursor to persist...
    match extract(9, 5000, Err("no such table: queries".to_string())) {
        Outcome::Failure { message } => {
            assert_eq!(message, "Failed to execute query: no such table: queries");
        },
        Outcome::Success { .. } => panic!("a failed query must not succeed"),
    }
    // ...so a later successful call still fetches from cursor 9.
    let (body, next, _) = body_of(extract(9, 5000, Ok(vec![row(10, None), row(11, None)])));
    assert_eq!(body.lines().count(), 2);
    assert_eq!(next, 11);
}

#[test]
fn cursor_monotone_across_requests() {
    // Across successful requests the persisted cursor never decreases,
    // whatever order the source hands rows back in.
    let mut cursor = 0;
    let batches = vec![
        vec![row(2, None), row(1, None)],
        vec![],
        vec![row(3, None)],
        vec![],
    ];
    for batch in batches {
        let (_, next, _) = body_of(extract(cursor, 5000, Ok(batch)));
        assert!(next >= cursor);
        cursor = next;
    }
    assert_eq!(cursor, 3);
}

#[test]
fn serialized_calls_deliver_each_id_once() {
    // Serialized requests, re-querying with each new cursor until the
    // output is empty: ids 1..=5 each appear exactly once over the run.
    let source: Vec<u64> = vec![1, 2, 3, 4, 5];
    let mut cursor = 0;
    let mut seen: Vec<u64> = Vec::new();
    loop {
        let eligible: Vec<SourceRow> =
            source.iter().filter(|id| **id > cursor).take(2).map(|id| row(*id, None)).collect();
        let was_empty = eligible.is_empty();
        let (body, next, _) = body_of(extract(cursor, 2, Ok(eligible)));
        for line in body.lines() {
            let id: u64 = line.split(',').next().unwrap().parse().unwrap();
            assert!(!seen.contains(&id), "id {} delivered twice", id);
            seen.push(id);
        }
        cursor = next;
        if was_empty {
            break;
        }
    }
    seen.sort();
    assert_eq!(seen, source);
}

#[test]
fn load_cursor_reads_trimmed_decimal() {
    let got = load_cursor(CursorFile::Contents { text: "  42\n".to_string() });
    assert_eq!(got.unwrap(), 42);
    let got = load_cursor(CursorFile::Contents { text: "18446744073709551615".to_string() });
    assert_eq!(got.unwrap(), 18446744073709551615);
}

#[test]
fn load_cursor_rejects_malformed_file() {
    let got = load_cursor(CursorFile::Contents { text: "not-a-number".to_string() });
    let message = got.unwrap_err();
    assert!(message.starts_with("Failed to parse last ID: "));
    let got = load_cursor(CursorFile::Contents { text: "".to_string() });
    assert!(got.is_err());
    let got = load_cursor(CursorFile::Contents { text: "-3".to_string() });
    assert!(got.is_err());
    let got = load_cursor(CursorFile::Contents { text: "18446744073709551616".to_string() });
    assert!(got.is_err());
}

#[test]
fn load_cursor_reports_unreadable_file() {
    let got = load_cursor(CursorFile::Unreadable { detail: "permission denied".to_string() });
    assert_eq!(got.unwrap_err(), "Failed to read lock file: permission denied");
}

#[test]
fn format_error_joins_header_and_detail() {
    assert_eq!(format_error("Failed to lock lockfile", "disk full".to_string()),
        "Failed to lock lockfile: disk full");
}
