use yerd_dump::transport::{Conn, ConnAction, ConnEvent, CONNECT_TIMEOUT_MS, LOOPBACK};

#[test]
fn only_the_loopback_address_is_used() {
    assert_eq!(LOOPBACK, [127, 0, 0, 1]);
    assert_eq!(CONNECT_TIMEOUT_MS, 50);
}

#[test]
fn the_first_line_connects_and_is_written() {
    let mut conn = Conn::Idle;
    assert_eq!(conn.send(ConnEvent::Send), ConnAction::Connect);
    assert_eq!(conn.send(ConnEvent::Connected(true)), ConnAction::Write);
    assert_eq!(conn, Conn::Live);
    assert_eq!(conn.send(ConnEvent::Written(true)), ConnAction::Done);
    assert_eq!(conn, Conn::Live);
}

#[test]
fn later_lines_reuse_the_connection() {
    let mut conn = Conn::Live;
    for _ in 0..3 {
        assert_eq!(conn.send(ConnEvent::Send), ConnAction::Write);
        assert_eq!(conn.send(ConnEvent::Written(true)), ConnAction::Done);
    }
    assert_eq!(conn, Conn::Live);
}

#[test]
fn a_failed_connect_is_not_tried_again() {
    let mut conn = Conn::Idle;
    assert_eq!(conn.send(ConnEvent::Send), ConnAction::Connect);
    assert_eq!(conn.send(ConnEvent::Connected(false)), ConnAction::Done);
    assert_eq!(conn, Conn::Dead);
    assert_eq!(conn.send(ConnEvent::Send), ConnAction::Done);
    assert_eq!(conn, Conn::Dead);
}

#[test]
fn a_failed_write_ends_the_connection() {
    let mut conn = Conn::Live;
    assert_eq!(conn.send(ConnEvent::Send), ConnAction::Write);
    assert_eq!(conn.send(ConnEvent::Written(false)), ConnAction::Done);
    assert_eq!(conn, Conn::Dead);
    for event in [ConnEvent::Send, ConnEvent::Connected(true), ConnEvent::Written(true)] {
        assert_eq!(conn.send(event), ConnAction::Done);
        assert_eq!(conn, Conn::Dead);
    }
}

#[test]
fn at_most_one_connect_in_any_short_history() {
    let events = [
        ConnEvent::Send,
        ConnEvent::Connected(true),
        ConnEvent::Connected(false),
        ConnEvent::Written(true),
        ConnEvent::Written(false),
    ];
    for n in 0..5usize.pow(5) {
        let mut conn = Conn::Idle;
        let mut connects = 0;
        let mut connected = false;
        let mut rest = n;
        for _ in 0..5 {
            let event = events[rest % 5];
            rest /= 5;
            connected = connected || event == ConnEvent::Connected(true);
            match conn.send(event) {
                ConnAction::Connect => connects += 1,
                ConnAction::Write => assert!(connected),
                ConnAction::Done => {}
            }
        }
        assert!(connects <= 1);
    }
}
