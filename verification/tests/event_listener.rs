use floppy_server::event_listener::{
    bet_placed_signature_hash, decode_bet_placed, EventListener, LogEntry, POLL_INTERVAL_SECS,
};
use floppy_server::primitives::U256;

fn placed(requester_last: u8, bet_id: u64) -> LogEntry {
    let mut data = vec![0u8; 64];
    data[12] = 0xaa;
    data[31] = requester_last;
    data[56..].copy_from_slice(&bet_id.to_be_bytes());
    LogEntry { topics: vec![bet_placed_signature_hash()], data }
}

#[test]
fn the_topic_is_the_digest_of_the_event_signature() {
    let expected = alloy::primitives::keccak256("BetPlaced(address,uint256)".as_bytes());
    assert_eq!(bet_placed_signature_hash(), expected.0);
    assert_ne!(bet_placed_signature_hash().to_vec(), b"BetPlaced(address,uint256)".to_vec());
}

#[test]
fn a_placed_bet_is_decoded() {
    let event = decode_bet_placed(&placed(7, 42)).unwrap();
    assert_eq!(event.bet_id, U256::from_u64(42));
    assert_eq!(event.requester.bytes[0], 0xaa);
    assert_eq!(event.requester.bytes[19], 7);
    assert_eq!(&event.requester.bytes[1..19], &[0u8; 18]);
}

#[test]
fn malformed_logs_are_not_decoded() {
    let mut other_event = placed(1, 1);
    other_event.topics[0][0] ^= 1;
    assert_eq!(decode_bet_placed(&other_event), None);

    let mut no_topic = placed(1, 1);
    no_topic.topics.clear();
    assert_eq!(decode_bet_placed(&no_topic), None);

    let mut extra_topic = placed(1, 1);
    extra_topic.topics.push([0u8; 32]);
    assert_eq!(decode_bet_placed(&extra_topic), None);

    let mut short = placed(1, 1);
    short.data.truncate(63);
    assert_eq!(decode_bet_placed(&short), None);

    let mut long = placed(1, 1);
    long.data.push(0);
    assert_eq!(decode_bet_placed(&long), None);

    let mut dirty = placed(1, 1);
    dirty.data[0] = 1;
    assert_eq!(decode_bet_placed(&dirty), None);
}

#[test]
fn a_batch_yields_its_bets_in_order_and_passes_over_what_does_not_decode() {
    let mut broken = placed(1, 2);
    broken.data.truncate(10);
    let logs = vec![placed(1, 3), broken, placed(2, 1), placed(3, 3)];
    let ids = EventListener::placed_bets(&logs);
    assert_eq!(ids, vec![U256::from_u64(3), U256::from_u64(1), U256::from_u64(3)]);
    assert_eq!(EventListener::placed_bets(&Vec::new()), Vec::new());
}

#[test]
fn the_cursor_starts_at_the_head_and_never_moves_back() {
    let mut listener = EventListener::new(100);
    assert_eq!(listener.last_block(), 100);
    assert_eq!(listener.query_range(100), Some((100, 100)));
    assert_eq!(listener.query_range(120), Some((100, 120)));
    assert_eq!(listener.query_range(99), None);

    listener.finish_batch(120, false);
    assert_eq!(listener.last_block(), 120);
    listener.finish_batch(110, false);
    assert_eq!(listener.last_block(), 120);
    listener.finish_batch(120, false);
    assert_eq!(listener.last_block(), 120);
    assert_eq!(listener.query_range(130), Some((120, 130)));
}

#[test]
fn a_batch_to_retry_leaves_the_cursor() {
    let mut listener = EventListener::new(100);
    listener.finish_batch(150, true);
    assert_eq!(listener.last_block(), 100);
    assert_eq!(listener.query_range(160), Some((100, 160)));
    listener.finish_batch(160, false);
    assert_eq!(listener.last_block(), 160);
}

#[test]
fn the_poll_interval_is_five_seconds() {
    assert_eq!(POLL_INTERVAL_SECS, 5);
}
