use shard_json_array::assembly::{closing, opening, stopped_message, InOrder};

fn assemble(array_only: bool, arrivals: &[(u64, &str)]) -> String {
    let mut order = InOrder::new();
    let mut text = opening(array_only).as_bytes().to_vec();
    for (i, data) in arrivals {
        text.extend(order.accept(*i, data.as_bytes().to_vec()));
    }
    text.extend(closing(array_only).as_bytes());
    String::from_utf8(text).unwrap()
}

#[test]
fn documents_of_both_forms() {
    assert_eq!(
        assemble(true, &[(0, "{}"), (1, "1"), (2, "2")]),
        "[\n{},\n1,\n2\n]\n"
    );
    assert_eq!(
        assemble(false, &[(0, "{}"), (1, "1")]),
        "{\"entities\":[\n{},\n1\n]}\n"
    );
    assert_eq!(assemble(true, &[]), "[\n\n]\n");
    assert_eq!(assemble(false, &[]), "{\"entities\":[\n\n]}\n");
}

#[test]
fn any_order_gives_the_same_document() {
    let expected = assemble(true, &[(0, "a"), (1, "b"), (2, "c"), (3, "d")]);
    let items = ["a", "b", "c", "d"];
    for p in 0..4usize {
        for q in 0..4usize {
            for r in 0..4usize {
                for s in 0..4usize {
                    let order = [p, q, r, s];
                    if (0..4).all(|k| order.contains(&k)) {
                        let arrivals: Vec<(u64, &str)> =
                            order.iter().map(|&k| (k as u64, items[k])).collect();
                        assert_eq!(assemble(true, &arrivals), expected);
                    }
                }
            }
        }
    }
}

#[test]
fn items_wait_for_their_turn() {
    let mut order = InOrder::new();
    assert!(order.complete(0));
    assert!(!order.complete(3));
    assert_eq!(order.accept(2, vec![3]), Vec::<u8>::new());
    assert_eq!(order.accept(1, vec![2]), Vec::<u8>::new());
    assert_eq!(order.written(), 0);
    assert_eq!(order.accept(0, vec![1]), b"\x01,\n\x02,\n\x03".to_vec());
    assert_eq!(order.written(), 3);
    assert!(order.complete(3));
    assert!(!order.complete(4));
}

#[test]
fn a_late_duplicate_is_never_written() {
    let mut order = InOrder::new();
    assert_eq!(order.accept(0, vec![1]), vec![1]);
    assert_eq!(order.accept(0, vec![9]), Vec::<u8>::new());
    assert_eq!(order.accept(1, vec![2]), b",\n\x02".to_vec());
}

#[test]
fn an_early_duplicate_replaces() {
    let mut order = InOrder::new();
    assert_eq!(order.accept(1, vec![5]), Vec::<u8>::new());
    assert_eq!(order.accept(1, vec![6]), Vec::<u8>::new());
    assert_eq!(order.accept(0, vec![4]), b"\x04,\n\x06".to_vec());
}

#[test]
fn a_stopped_run_says_how_far_it_came() {
    assert_eq!(
        stopped_message(3, 10),
        "generator workers stopped before producing all items (wrote 3 of 10)"
    );
    assert_eq!(
        stopped_message(0, u64::MAX),
        "generator workers stopped before producing all items (wrote 0 of 18446744073709551615)"
    );
}

#[test]
fn documents_are_json() {
    let array: serde_json::Value =
        serde_json::from_str(&assemble(true, &[(1, "2"), (0, "1")])).unwrap();
    assert_eq!(array, serde_json::Value::from(vec![1, 2]));
    let object: serde_json::Value =
        serde_json::from_str(&assemble(false, &[(1, "2"), (0, "1")])).unwrap();
    assert_eq!(object["entities"], serde_json::Value::from(vec![1, 2]));
    assert_eq!(object.as_object().unwrap().len(), 1);
    let empty: serde_json::Value = serde_json::from_str(&assemble(false, &[])).unwrap();
    assert_eq!(object["entities"].as_array().unwrap().len(), 2);
    assert_eq!(empty["entities"].as_array().unwrap().len(), 0);
}
