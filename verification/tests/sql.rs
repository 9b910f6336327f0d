use chat_server::sql::TableRow;
use chat_server::status::Status;
use chat_server::wire::{
    decimal_string, encode_record, frame_record, joined_notice, left_notice, signed_decimal_string,
};
use rusqlite::Connection;

fn row(name: &str, timestamp: usize, content: &str, time: &str, status: Status) -> TableRow {
    TableRow::new(
        name.to_string(),
        timestamp,
        content.to_string(),
        time.to_string(),
        status.code(),
    )
}

fn store() -> Connection {
    let conn = Connection::open_in_memory().unwrap();
    conn.execute(TableRow::init_table(), ()).unwrap();
    conn
}

fn insert_1(conn: &Connection, row: &TableRow) {
    let done = conn
        .execute(
            TableRow::insert_row(),
            (row.name(), row.timestamp(), row.content(), row.time()),
        )
        .unwrap();
    assert_eq!(done, 1);
}

fn query_10(conn: &Connection, timestamp: Option<usize>) -> Vec<TableRow> {
    let mut stmt = conn.prepare(TableRow::select_rows(timestamp)).unwrap();
    let read = |r: &rusqlite::Row<'_>| {
        Ok(TableRow::restored(r.get(0)?, r.get(1)?, r.get(2)?, r.get(3)?))
    };
    match timestamp {
        Some(before) => stmt
            .query_map((before,), read)
            .unwrap()
            .map(|x| x.unwrap())
            .collect(),
        None => stmt
            .query_map((), read)
            .unwrap()
            .map(|x| x.unwrap())
            .collect(),
    }
}

#[test]
fn status_codes() {
    assert_eq!(Status::Normal.code(), 0);
    assert_eq!(Status::Connected.code(), 1);
    assert_eq!(Status::Disconnected.code(), 2);
    assert_eq!(Status::RollBack.code(), 3);
}

#[test]
fn new_keeps_every_member() {
    let r = row("ann", 42, "hello", "10:15", Status::Connected);
    assert_eq!(r.name(), "ann");
    assert_eq!(r.timestamp(), 42);
    assert_eq!(r.content(), "hello");
    assert_eq!(r.time(), "10:15");
    assert_eq!(r.status(), 1);
}

#[test]
fn restored_row_is_marked_as_replayed() {
    let r = TableRow::restored("ann".to_string(), 7, "hi".to_string(), "noon".to_string());
    assert_eq!(r.name(), "ann");
    assert_eq!(r.timestamp(), 7);
    assert_eq!(r.content(), "hi");
    assert_eq!(r.time(), "noon");
    assert_eq!(r.status(), 3);
}

#[test]
fn decimal_of_unsigned() {
    assert_eq!(decimal_string(0), "0");
    assert_eq!(decimal_string(7), "7");
    assert_eq!(decimal_string(10), "10");
    assert_eq!(decimal_string(1234567890), "1234567890");
    assert_eq!(decimal_string(usize::MAX), usize::MAX.to_string());
}

#[test]
fn decimal_of_signed() {
    assert_eq!(signed_decimal_string(0), "0");
    assert_eq!(signed_decimal_string(3), "3");
    assert_eq!(signed_decimal_string(127), "127");
    assert_eq!(signed_decimal_string(-1), "-1");
    assert_eq!(signed_decimal_string(-128), "-128");
}

#[test]
fn frame_puts_members_in_order() {
    assert_eq!(
        frame_record("\"a\"", 5, "\"b\"", "\"c\"", 2),
        "{\"name\":\"a\",\"timestamp\":5,\"content\":\"b\",\"time\":\"c\",\"status\":2}"
    );
}

#[test]
fn system_notice_texts() {
    assert_eq!(left_notice(2), "id: 2 disconnected");
    assert_eq!(joined_notice(2), "id: 2 connected");
    assert_eq!(left_notice(4071), "id: 4071 disconnected");
    assert_eq!(joined_notice(10), "id: 10 connected");
}

#[test]
fn to_msg_of_a_plain_record() {
    let r = row("system", 1, "id: 2 disconnected", "2024-01-01 10:00:00", Status::Disconnected);
    assert_eq!(
        r.to_msg(),
        "{\"name\":\"system\",\"timestamp\":1,\"content\":\"id: 2 disconnected\",\"time\":\"2024-01-01 10:00:00\",\"status\":2}"
    );
}

#[test]
fn to_msg_escapes_strings() {
    let r = row("a\"b", 9, "line\nbreak \\ tab\t", "t", Status::Normal);
    assert_eq!(
        r.to_msg(),
        "{\"name\":\"a\\\"b\",\"timestamp\":9,\"content\":\"line\\nbreak \\\\ tab\\t\",\"time\":\"t\",\"status\":0}"
    );
    assert_eq!(
        encode_record("a\"b", 9, "line\nbreak \\ tab\t", "t", 0),
        r.to_msg()
    );
}

#[test]
fn to_msg_reads_back_as_json() {
    let r = row("Zoë \u{1F600}", 18446744073709551615, "{\"x\":[1,2]}\u{0001}", "12:00", Status::Normal);
    let value: serde_json::Value = serde_json::from_str(&r.to_msg()).unwrap();
    let object = value.as_object().unwrap();
    assert_eq!(object.len(), 5);
    assert_eq!(value["name"].as_str(), Some("Zoë \u{1F600}"));
    assert_eq!(value["timestamp"].as_u64(), Some(18446744073709551615));
    assert_eq!(value["content"].as_str(), Some("{\"x\":[1,2]}\u{0001}"));
    assert_eq!(value["time"].as_str(), Some("12:00"));
    assert_eq!(value["status"].as_i64(), Some(0));
}

#[test]
fn to_msg_of_a_negative_status() {
    let r = TableRow::new("n".to_string(), 0, String::new(), String::new(), -5);
    assert_eq!(
        r.to_msg(),
        "{\"name\":\"n\",\"timestamp\":0,\"content\":\"\",\"time\":\"\",\"status\":-5}"
    );
}

#[test]
fn statements() {
    assert_eq!(
        TableRow::init_table(),
        "CREATE TABLE msg(name TEXT, timestamp INTEGER, content TEXT, time TEXT);"
    );
    assert_eq!(
        TableRow::insert_row(),
        "INSERT INTO msg (name, timestamp, content, time) VALUES (?1, ?2, ?3, ?4);"
    );
    assert_eq!(
        TableRow::select_rows(None),
        "SELECT * FROM msg ORDER BY timestamp DESC LIMIT 10"
    );
    assert_eq!(
        TableRow::select_rows(Some(3)),
        "SELECT * FROM msg WHERE timestamp < ? ORDER BY timestamp DESC LIMIT 10"
    );
}

#[test]
fn test_query() {
    let conn = store();
    insert_1(
        &conn,
        &TableRow::new(
            "123".to_string(),
            1,
            "456".to_string(),
            "time is what".to_string(),
            Status::Normal.code(),
        ),
    );

    let rows = query_10(&conn, None);
    println!("{:?}", rows);
    assert_eq!(rows.len(), 1);
    assert_eq!(rows[0].name(), "123");
    assert_eq!(rows[0].timestamp(), 1);
    assert_eq!(rows[0].content(), "456");
    assert_eq!(rows[0].time(), "time is what");
    assert_eq!(rows[0].status(), Status::RollBack.code());
}

#[test]
fn test_query_10() {
    let conn = store();

    for i in 0..20 {
        insert_1(
            &conn,
            &TableRow::new(
                "anonymous".to_string(),
                i,
                format!("any content: {i}"),
                "time is what".to_string(),
                Status::Normal.code(),
            ),
        );
    }

    let latest = query_10(&conn, None);
    println!("{:#?}", latest);
    assert_eq!(latest.len(), 10);
    for (k, r) in latest.iter().enumerate() {
        assert_eq!(r.timestamp(), 19 - k);
        assert_eq!(r.content(), format!("any content: {}", 19 - k));
        assert_eq!(r.name(), "anonymous");
    }

    let before_one = query_10(&conn, Some(1));
    println!("{:#?}", before_one);
    assert_eq!(before_one.len(), 1);
    assert_eq!(before_one[0].timestamp(), 0);

    let before_fifteen = query_10(&conn, Some(15));
    assert_eq!(before_fifteen.len(), 10);
    assert_eq!(before_fifteen[0].timestamp(), 14);
    assert_eq!(before_fifteen[9].timestamp(), 5);
}

#[test]
fn appended_record_is_among_the_latest() {
    let conn = store();
    for i in 1..=30 {
        insert_1(&conn, &row("ann", i, "older", "t", Status::Normal));
    }
    let last = row("bob", 31, "the newest", "t", Status::Normal);
    insert_1(&conn, &last);
    let latest = query_10(&conn, None);
    assert!(latest.len() <= 10);
    assert!(latest
        .iter()
        .any(|r| r.timestamp() == 31 && r.name() == "bob" && r.content() == "the newest"));
    assert_eq!(latest[0].timestamp(), 31);
}

#[test]
fn empty_store_has_no_history() {
    let conn = store();
    assert!(query_10(&conn, None).is_empty());
    assert!(query_10(&conn, Some(100)).is_empty());
}
