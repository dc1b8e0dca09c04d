use maroon::ackermann::{ackermann, ackermann_transcript, AckAction};

#[test]
fn ackermann_values() {
    assert_eq!(ackermann(0, 0), 1);
    assert_eq!(ackermann(0, 7), 8);
    assert_eq!(ackermann(1, 0), 2);
    assert_eq!(ackermann(1, 5), 7);
    assert_eq!(ackermann(2, 3), 9);
    assert_eq!(ackermann(3, 3), 61);
}

fn texts(actions: &[AckAction]) -> Vec<String> {
    actions
        .iter()
        .map(|a| match a {
            AckAction::Sleep(ms) => format!("sleep {ms}"),
            AckAction::Write(s) => s.clone(),
        })
        .collect()
}

#[test]
fn transcript_of_a_base_case() {
    let mut actions = Vec::new();
    assert_eq!(ackermann_transcript(0, 4, 0, &mut actions), 5);
    assert_eq!(texts(&actions), vec!["sleep 10", "ack(0,4) = 5"]);
}

#[test]
fn transcript_of_one_one() {
    let mut actions = Vec::new();
    assert_eq!(ackermann_transcript(1, 1, 0, &mut actions), 3);
    assert_eq!(
        texts(&actions),
        vec![
            "ack(1,1) ...",
            "  ack(1,0) ...",
            "sleep 10",
            "    ack(0,1) = 2",
            "sleep 10",
            "  ack(1,0) = 2",
            "sleep 10",
            "  ack(0,2) = 3",
            "sleep 10",
            "ack(1,1) = 3",
        ]
    );
}

#[test]
fn transcript_matches_the_plain_value() {
    let mut actions = Vec::new();
    assert_eq!(ackermann_transcript(2, 2, 4, &mut actions) as u64, ackermann(2, 2));
    match &actions[0] {
        AckAction::Write(s) => assert_eq!(s, "    ack(2,2) ..."),
        _ => panic!("the first action writes"),
    }
}

#[test]
fn ackermann_rows_follow_their_closed_forms() {
    for n in 0..10u64 {
        assert_eq!(ackermann(1, n), n + 2);
        assert_eq!(ackermann(2, n), 2 * n + 3);
        assert_eq!(ackermann(3, n), (1u64 << (n + 3)) - 3);
    }
}
