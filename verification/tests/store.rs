use home_office_tracker::date::CalendarDate;
use home_office_tracker::export::{get_export, store_key};
use home_office_tracker::parse::parse_dates_or_default;
use home_office_tracker::store::{
    delete_is_success, delete_reply, insert_is_success, DeleteReply, InsertReply,
};
use rusqlite::Connection;

fn date(year: i32, month: u32, day: u32) -> CalendarDate {
    CalendarDate::from_ymd(year, month, day).unwrap()
}

fn create_table(conn: &Connection) {
    conn.execute("CREATE TABLE IF NOT EXISTS home_office_days (date TEXT PRIMARY KEY)", [])
        .unwrap();
}

fn setup_test_db() -> Connection {
    let conn = Connection::open_in_memory().unwrap();
    create_table(&conn);
    conn
}

fn add_date(conn: &Connection, date: CalendarDate) -> InsertReply {
    let key = store_key(date);
    match conn.execute("INSERT INTO home_office_days (date) VALUES (?1)", [key.as_str()]) {
        Ok(_) => InsertReply::Inserted,
        Err(err) => match err.sqlite_error_code() {
            Some(rusqlite::ErrorCode::ConstraintViolation) => InsertReply::AlreadyPresent,
            _ => InsertReply::Failed,
        },
    }
}

fn remove_date(conn: &Connection, date: CalendarDate) -> DeleteReply {
    let key = store_key(date);
    match conn.execute("DELETE FROM home_office_days WHERE date = ?1", [key.as_str()]) {
        Ok(rows) => delete_reply(rows),
        Err(_) => DeleteReply::Failed,
    }
}

fn list_keys(conn: &Connection) -> Vec<String> {
    let mut output = Vec::new();
    conn.prepare("SELECT date FROM home_office_days ORDER BY date")
        .unwrap()
        .query_map([], |row| row.get::<_, String>(0))
        .unwrap()
        .for_each(|date| output.push(date.unwrap()));
    output
}

#[test]
fn test_create_table() {
    let conn = setup_test_db();
    let table_exists: bool = conn
        .prepare("SELECT name FROM sqlite_master WHERE type='table' AND name='home_office_days'")
        .unwrap()
        .exists([])
        .unwrap();

    assert!(table_exists);
}

#[test]
fn test_add_date() {
    let conn = setup_test_db();
    let date = date(2025, 1, 1);

    assert!(insert_is_success(add_date(&conn, date)));

    let result: String =
        conn.query_row("SELECT date FROM home_office_days", [], |row| row.get(0)).unwrap();

    assert_eq!(result, "2025-01-01");
}

#[test]
fn test_remove_date() {
    let conn = setup_test_db();
    let date = date(2025, 1, 1);

    assert!(insert_is_success(add_date(&conn, date)));
    assert!(delete_is_success(remove_date(&conn, date)));

    let count: i64 =
        conn.query_row("SELECT COUNT(*) FROM home_office_days", [], |row| row.get(0)).unwrap();

    assert_eq!(count, 0);
}

#[test]
fn test_list_dates() {
    let conn = setup_test_db();
    let date1 = date(2025, 1, 1);
    let date2 = date(2025, 1, 2);

    assert!(insert_is_success(add_date(&conn, date1)));
    assert!(insert_is_success(add_date(&conn, date2)));

    let output = list_keys(&conn);

    assert_eq!(output, vec!["2025-01-01", "2025-01-02"]);
}

#[test]
fn test_export_dates() {
    let conn = setup_test_db();
    assert!(insert_is_success(add_date(&conn, date(2025, 1, 1))));
    assert!(insert_is_success(add_date(&conn, date(2025, 1, 2))));
    assert!(insert_is_success(add_date(&conn, date(2025, 1, 3))));

    let export = get_export(&list_keys(&conn)).unwrap();

    assert_eq!(export, vec!["2025-01-01 :: 2025-01-03"]);
}

#[test]
fn adding_a_stored_date_again_changes_nothing_and_succeeds() {
    let conn = setup_test_db();
    assert_eq!(add_date(&conn, date(2025, 1, 1)), InsertReply::Inserted);
    assert_eq!(add_date(&conn, date(2025, 1, 3)), InsertReply::Inserted);
    let before = list_keys(&conn);

    let reply = add_date(&conn, date(2025, 1, 1));

    assert_eq!(reply, InsertReply::AlreadyPresent);
    assert!(insert_is_success(reply));
    assert_eq!(list_keys(&conn), before);
    assert_eq!(get_export(&before).unwrap(), vec!["2025-01-01", "2025-01-03"]);
}

#[test]
fn deleting_a_date_that_is_not_stored_succeeds() {
    let conn = setup_test_db();
    assert_eq!(add_date(&conn, date(2025, 1, 1)), InsertReply::Inserted);

    let reply = remove_date(&conn, date(2025, 1, 2));

    assert_eq!(reply, DeleteReply::Absent);
    assert!(delete_is_success(reply));
    assert_eq!(list_keys(&conn), vec!["2025-01-01"]);
}

#[test]
fn a_parsed_range_is_stored_and_exported_again() {
    let conn = setup_test_db();
    let dates = parse_dates_or_default(Some("2025-02-27::2025-03-02".to_string())).unwrap();
    for day in &dates {
        assert_eq!(add_date(&conn, *day), InsertReply::Inserted);
    }
    assert_eq!(add_date(&conn, date(2025, 3, 4)), InsertReply::Inserted);

    assert_eq!(
        get_export(&list_keys(&conn)).unwrap(),
        vec!["2025-02-27 :: 2025-03-02", "2025-03-04"]
    );
}
