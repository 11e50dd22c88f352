use adnl::history::{PacketsHistory, HISTORY_BITS};
use adnl::peer::AdnlPeerState;

#[test]
fn new_history_has_seen_nothing() {
    let history = PacketsHistory::new(true);
    assert_eq!(history.seqno(), 0);
}

#[test]
fn bump_seqno_counts_up_by_one() {
    let mut history = PacketsHistory::new(false);
    let mut last = history.seqno();
    for expected in 1..=1000u64 {
        let seqno = history.bump_seqno();
        assert_eq!(seqno, expected);
        assert!(seqno > last);
        assert_eq!(history.seqno(), seqno);
        last = seqno;
    }
}

#[test]
fn each_seqno_is_delivered_once_in_any_order() {
    let mut history = PacketsHistory::new(true);
    // 1..=500 in a scrambled order: 7 is coprime to 500
    let order: Vec<u64> = (0..500u64).map(|i| (i * 7) % 500 + 1).collect();
    for &seqno in &order {
        assert!(history.deliver_packet(seqno), "first delivery of {seqno}");
    }
    assert_eq!(history.seqno(), 500);
    for &seqno in &order {
        assert!(!history.deliver_packet(seqno), "replay of {seqno}");
    }
}

#[test]
fn replay_is_refused_at_once() {
    let mut history = PacketsHistory::new(true);
    assert!(history.deliver_packet(5));
    assert!(!history.deliver_packet(5));
    assert!(history.deliver_packet(3));
    assert!(!history.deliver_packet(3));
    assert!(!history.deliver_packet(5));
    assert_eq!(history.seqno(), 5);
}

#[test]
fn seqno_below_the_window_is_refused() {
    let mut history = PacketsHistory::new(true);
    assert!(history.deliver_packet(HISTORY_BITS + 10));
    // the window is (max - 512, max]
    assert!(!history.deliver_packet(10));
    assert!(!history.deliver_packet(9));
    assert!(!history.deliver_packet(1));
    assert!(history.deliver_packet(11));
    assert!(!history.deliver_packet(11));
    assert!(history.deliver_packet(HISTORY_BITS + 9));
}

#[test]
fn window_slides_and_forgets() {
    let mut history = PacketsHistory::new(true);
    assert!(history.deliver_packet(1));
    assert!(history.deliver_packet(2));
    assert!(history.deliver_packet(2 + HISTORY_BITS));
    // 2 fell out of the window, 3 is its lowest member
    assert!(!history.deliver_packet(2));
    assert!(history.deliver_packet(3));
    // a jump of more than a window clears everything
    assert!(history.deliver_packet(10 * HISTORY_BITS));
    assert!(history.deliver_packet(10 * HISTORY_BITS - 1));
    assert!(history.deliver_packet(9 * HISTORY_BITS + 1));
    assert!(!history.deliver_packet(9 * HISTORY_BITS));
    // numbers that share a window bit with an old one are fresh
    assert!(history.deliver_packet(10 * HISTORY_BITS - 510));
    assert!(!history.deliver_packet(10 * HISTORY_BITS - 510));
}

#[test]
fn seqno_zero_is_delivered_once_to_a_new_history() {
    let mut history = PacketsHistory::new(true);
    assert!(history.deliver_packet(0));
    assert!(!history.deliver_packet(0));
}

#[test]
fn largest_seqno_is_handled() {
    let mut history = PacketsHistory::new(true);
    assert!(history.deliver_packet(u64::MAX));
    assert!(!history.deliver_packet(u64::MAX));
    assert!(history.deliver_packet(u64::MAX - 511));
    assert!(!history.deliver_packet(u64::MAX - 512));
    assert_eq!(history.seqno(), u64::MAX);
}

#[test]
fn unchecked_history_delivers_everything_and_tracks_the_maximum() {
    let mut history = PacketsHistory::new(false);
    assert!(history.deliver_packet(5));
    assert!(history.deliver_packet(5));
    assert!(history.deliver_packet(1));
    assert!(history.deliver_packet(5000));
    assert!(history.deliver_packet(2));
    assert_eq!(history.seqno(), 5000);
}

#[test]
fn reset_forgets_everything() {
    let mut history = PacketsHistory::new(true);
    assert!(history.deliver_packet(9));
    history.reset();
    assert_eq!(history.seqno(), 0);
    assert!(history.deliver_packet(9));
    assert!(!history.deliver_packet(9));
}

#[test]
fn priority_classes_count_separately() {
    let mut state = AdnlPeerState::for_send();
    assert_eq!(state.bump_seqno(false), 1);
    assert_eq!(state.bump_seqno(false), 2);
    assert_eq!(state.bump_seqno(true), 1);
    assert_eq!(state.bump_seqno(false), 3);
    assert_eq!(state.seqno(true), 1);
    assert_eq!(state.seqno(false), 3);
    let mut state = AdnlPeerState::for_receive_with_reinit_date(100, true);
    assert_eq!(state.reinit_date(), 100);
    assert!(state.deliver_packet(4, false));
    assert!(state.deliver_packet(4, true));
    assert!(!state.deliver_packet(4, false));
    state.reset_history();
    assert_eq!(state.seqno(false), 0);
    assert_eq!(state.reinit_date(), 100);
}
