use home_office_tracker::date::CalendarDate;
use home_office_tracker::menu::{menu_choice, parse_reply, parse_reply_or, MenuChoice};
use home_office_tracker::store::{
    delete_is_success, delete_reply, insert_is_success, DeleteReply, InsertReply,
};

fn date(year: i32, month: u32, day: u32) -> CalendarDate {
    CalendarDate::from_ymd(year, month, day).unwrap()
}

#[test]
fn keys_choose_actions() {
    for key in ['\r', '\n', '1', 't', 'T'] {
        assert_eq!(menu_choice(key), MenuChoice::AddToday);
    }
    for key in ['2', 'a', 'A'] {
        assert_eq!(menu_choice(key), MenuChoice::AddSpecific);
    }
    for key in ['3', 'l', 'L'] {
        assert_eq!(menu_choice(key), MenuChoice::List);
    }
    for key in ['4', 'd', 'D'] {
        assert_eq!(menu_choice(key), MenuChoice::Delete);
    }
    for key in ['5', 'e', 'E'] {
        assert_eq!(menu_choice(key), MenuChoice::Export);
    }
    for key in ['0', '6', 'x', ' ', 'q', '\t'] {
        assert_eq!(menu_choice(key), MenuChoice::Invalid);
    }
}

#[test]
fn keys_choose_as_their_lower_case_does() {
    for code in 0..=255u8 {
        let key = code as char;
        assert_eq!(menu_choice(key), menu_choice(key.to_ascii_lowercase()));
    }
}

#[test]
fn an_empty_reply_means_today() {
    let today = date(2025, 6, 1);
    assert_eq!(parse_reply_or("", today), Some(today));
    assert_eq!(parse_reply_or("  \n", today), Some(today));
    assert_eq!(parse_reply_or("2025-01-02\n", today), Some(date(2025, 1, 2)));
    assert_eq!(parse_reply_or("02.01.2025\n", today), None);
    assert_eq!(parse_reply_or("soon", today), None);
}

#[test]
fn a_reply_is_read_year_first_only() {
    assert_eq!(parse_reply(" 2025-01-02\n"), Some(date(2025, 1, 2)));
    assert_eq!(parse_reply("02.01.2025"), None);
    assert_eq!(parse_reply(""), None);
}

#[test]
fn a_date_that_was_there_counts_as_added() {
    assert!(insert_is_success(InsertReply::Inserted));
    assert!(insert_is_success(InsertReply::AlreadyPresent));
    assert!(!insert_is_success(InsertReply::Failed));
}

#[test]
fn a_delete_that_removed_nothing_found_the_date_absent() {
    assert_eq!(delete_reply(0), DeleteReply::Absent);
    assert_eq!(delete_reply(1), DeleteReply::Deleted);
    assert_eq!(delete_reply(7), DeleteReply::Deleted);
}

#[test]
fn a_date_that_was_not_there_counts_as_deleted() {
    assert!(delete_is_success(DeleteReply::Deleted));
    assert!(delete_is_success(DeleteReply::Absent));
    assert!(!delete_is_success(DeleteReply::Failed));
}
