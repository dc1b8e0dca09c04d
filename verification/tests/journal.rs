use maroon::journal::{
    check_sum_request, default_request_size, journal_entry, journal_slot, journal_window, judge_sum,
    sums_accepted_message, CheckAndStoreIdResponse, IncCounterRequest, IncStringRequest, SumRequest, SumsError,
};

fn sum(id: &str, a: i32, b: i32, c: i32) -> SumRequest {
    SumRequest { id: id.to_string(), a, b, c }
}

#[test]
fn counters_count_from_one() {
    let r = IncCounterRequest::new(3);
    assert_eq!(r.key(), 3);
    assert_eq!(r.next_value(None), 1);
    assert_eq!(r.next_value(Some(41)), 42);
}

#[test]
fn strings_grow_by_a_dot() {
    let r = IncStringRequest::new(1);
    assert_eq!(r.key(), 1);
    assert_eq!(r.next_value(None), ".");
    assert_eq!(r.next_value(Some("..".to_string())), "...");
}

#[test]
fn journal_queries_read_the_latest_entries() {
    assert_eq!(default_request_size(), 10);
    assert_eq!(journal_window(10, 3), (0, 3));
    assert_eq!(journal_window(2, 30), (28, 2));
    assert_eq!(journal_window(1000, 500), (0, 500));
    assert_eq!(journal_window(5000, 2500), (1500, 1000));
    assert_eq!(journal_window(0, 5), (5, 0));
    assert_eq!(journal_slot(None), (0, 1));
    assert_eq!(journal_slot(Some(9)), (9, 10));
}

#[test]
fn sums_are_judged() {
    assert_eq!(check_sum_request(&sum("", 1, 2, 3)), Err(SumsError::EmptyId));
    assert_eq!(check_sum_request(&sum("x", 1, 2, 3)), Ok(()));
    assert_eq!(judge_sum(&sum("x", 1, 2, 3), CheckAndStoreIdResponse::Unique), Ok(()));
    assert_eq!(judge_sum(&sum("x", 1, 2, 4), CheckAndStoreIdResponse::Unique), Err(SumsError::WrongSum));
    assert_eq!(judge_sum(&sum("x", 1, 2, 3), CheckAndStoreIdResponse::Duplicate), Err(SumsError::Duplicate));
    assert_eq!(judge_sum(&sum("x", -5, 2, -3), CheckAndStoreIdResponse::Unique), Ok(()));
}

#[test]
fn refusals_have_their_status_and_text() {
    assert_eq!(SumsError::EmptyId.status(), 400);
    assert_eq!(SumsError::EmptyId.message(), "Error: id cannot be empty.\n");
    assert_eq!(SumsError::Duplicate.status(), 409);
    assert_eq!(SumsError::Duplicate.message(), "Error: Duplicate request ID.\n");
    assert_eq!(SumsError::WrongSum.status(), 400);
    assert_eq!(SumsError::WrongSum.message(), "Error: c must equal a + b.\n");
    assert_eq!(sums_accepted_message(), "OK\n");
}

#[test]
fn accepted_sums_are_journaled_as_submitted() {
    let e = journal_entry(&sum("req-1", 2, 3, 5), 1234);
    assert_eq!(e.id, "req-1");
    assert_eq!((e.a, e.b, e.c, e.timestamp_us), (2, 3, 5, 1234));
}
