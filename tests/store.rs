use aggregator::store::{ApplyError, Message, StateStore, StateView, Variant};
use aggregator::text::decode_text;

fn entries(view: StateView) -> Vec<(String, String)> {
    match view {
        StateView::KeyValue(mut v) => {
            v.sort();
            v
        }
        StateView::Counter(_) => panic!("expected a key-value view"),
    }
}

fn count(view: StateView) -> u64 {
    match view {
        StateView::Counter(n) => n,
        StateView::KeyValue(_) => panic!("expected a counter view"),
    }
}

fn pairs(items: &[(&str, &str)]) -> Vec<(String, String)> {
    items.iter().map(|(k, v)| (k.to_string(), v.to_string())).collect()
}

#[test]
fn key_value_last_write_wins_scenario() {
    let mut store = StateStore::new(Variant::KeyValue);
    assert_eq!(store.apply("a", b"1"), Ok(()));
    assert_eq!(store.apply("b", b"2"), Ok(()));
    assert_eq!(store.apply("a", b"3"), Ok(()));
    assert_eq!(entries(store.snapshot()), pairs(&[("a", "3"), ("b", "2")]));
}

#[test]
fn counter_skips_undecodable_payload() {
    let mut store = StateStore::new(Variant::Counter);
    let payloads: [&[u8]; 5] = [b"one", b"two", &[0xff, 0xfe], b"four", b"five"];
    let mut errors = 0;
    for p in payloads.iter() {
        if store.apply("t", p).is_err() {
            errors += 1;
        }
    }
    assert_eq!(errors, 1);
    assert_eq!(count(store.snapshot()), 4);
}

#[test]
fn counter_counts_every_valid_message() {
    let mut store = StateStore::new(Variant::Counter);
    for i in 0..37 {
        assert_eq!(store.apply(&format!("topic/{}", i % 3), b"x"), Ok(()));
    }
    assert_eq!(count(store.snapshot()), 37);
}

#[test]
fn new_stores_start_empty() {
    assert_eq!(count(StateStore::new(Variant::Counter).snapshot()), 0);
    assert!(entries(StateStore::new(Variant::KeyValue).snapshot()).is_empty());
    assert_eq!(StateStore::new(Variant::KeyValue).kind(), Variant::KeyValue);
    assert_eq!(StateStore::new(Variant::Counter).kind(), Variant::Counter);
}

#[test]
fn undecodable_payload_leaves_key_value_state_unchanged() {
    let mut store = StateStore::new(Variant::KeyValue);
    assert_eq!(store.apply("a", b"1"), Ok(()));
    assert_eq!(store.apply("a", &[0xc3, 0x28]), Err(ApplyError::Decode));
    assert_eq!(store.apply("b", &[0x80]), Err(ApplyError::Decode));
    assert_eq!(entries(store.snapshot()), pairs(&[("a", "1")]));
}

#[test]
fn undecodable_payload_leaves_counter_unchanged() {
    let mut store = StateStore::new(Variant::Counter);
    assert_eq!(store.apply("a", b"1"), Ok(()));
    assert_eq!(store.apply("a", &[0xed, 0xa0, 0x80]), Err(ApplyError::Decode));
    assert_eq!(count(store.snapshot()), 1);
}

#[test]
fn redelivery_is_absorbed_by_key_value() {
    let mut once = StateStore::new(Variant::KeyValue);
    let mut twice = StateStore::new(Variant::KeyValue);
    for store in [&mut once, &mut twice] {
        assert_eq!(store.apply("k", b"old"), Ok(()));
        assert_eq!(store.apply("other", b"z"), Ok(()));
    }
    assert_eq!(once.apply("k", b"new"), Ok(()));
    assert_eq!(twice.apply("k", b"new"), Ok(()));
    assert_eq!(twice.apply("k", b"new"), Ok(()));
    assert_eq!(entries(once.snapshot()), entries(twice.snapshot()));
    assert_eq!(entries(twice.snapshot()), pairs(&[("k", "new"), ("other", "z")]));
}

#[test]
fn key_value_keeps_latest_payload_per_key() {
    let mut store = StateStore::new(Variant::KeyValue);
    let keys = ["x", "y", "z"];
    for i in 0..30 {
        let payload = format!("v{}", i);
        assert_eq!(store.apply(keys[i % 3], payload.as_bytes()), Ok(()));
    }
    assert_eq!(entries(store.snapshot()), pairs(&[("x", "v27"), ("y", "v28"), ("z", "v29")]));
}

#[test]
fn payload_is_decoded_as_utf8_text() {
    let mut store = StateStore::new(Variant::KeyValue);
    assert_eq!(store.apply("t", "h\u{e9}llo \u{1f600}".as_bytes()), Ok(()));
    assert_eq!(store.apply("", b""), Ok(()));
    assert_eq!(
        entries(store.snapshot()),
        pairs(&[("", ""), ("t", "h\u{e9}llo \u{1f600}")])
    );
}

#[test]
fn decode_text_accepts_only_utf8() {
    assert_eq!(decode_text(b"abc"), Some("abc".to_string()));
    assert_eq!(decode_text(&[0xe2, 0x82, 0xac]), Some("\u{20ac}".to_string()));
    assert_eq!(decode_text(&[0xe2, 0x82]), None);
    assert_eq!(decode_text(&[b'a', 0xff]), None);
    assert_eq!(decode_text(b""), Some(String::new()));
}

#[test]
fn apply_all_folds_in_order_and_reports_each() {
    let mut store = StateStore::new(Variant::KeyValue);
    let msgs = vec![
        Message { topic: "a".to_string(), payload: b"1".to_vec() },
        Message { topic: "b".to_string(), payload: vec![0xff] },
        Message { topic: "a".to_string(), payload: b"2".to_vec() },
    ];
    let results = store.apply_all(&msgs);
    assert_eq!(results, vec![Ok(()), Err(ApplyError::Decode), Ok(())]);
    assert_eq!(entries(store.snapshot()), pairs(&[("a", "2")]));
}

#[test]
fn apply_all_on_counter() {
    let mut store = StateStore::new(Variant::Counter);
    let msgs: Vec<Message> = (0..10)
        .map(|i| Message { topic: "t".to_string(), payload: if i == 4 { vec![0xc0] } else { vec![b'a'] } })
        .collect();
    let results = store.apply_all(&msgs);
    assert_eq!(results.iter().filter(|r| r.is_ok()).count(), 9);
    assert_eq!(results[4], Err(ApplyError::Decode));
    assert_eq!(count(store.snapshot()), 9);
    assert_eq!(store.apply_all(&Vec::new()), Vec::new());
    assert_eq!(count(store.snapshot()), 9);
}

#[test]
fn apply_text_upserts() {
    let mut store = StateStore::new(Variant::KeyValue);
    assert_eq!(store.apply_text("k".to_string(), "1".to_string()), Ok(()));
    assert_eq!(store.apply_text("k".to_string(), "2".to_string()), Ok(()));
    assert_eq!(entries(store.snapshot()), pairs(&[("k", "2")]));
}
