use shard_json_array::dispatch::{check_shards, expecting, ArrayStream, ObjectScan, StreamError};

fn deal(count: u64, shards: usize) -> Vec<Vec<u64>> {
    let mut stream = ArrayStream::new(shards);
    let mut dealt = vec![Vec::new(); shards];
    for element in 0..count {
        dealt[stream.next_shard()].push(element);
        stream.record_sent();
    }
    assert_eq!(stream.total(), count);
    dealt
}

#[test]
fn shards_take_turns() {
    assert_eq!(
        deal(8, 3),
        vec![vec![0, 3, 6], vec![1, 4, 7], vec![2, 5]]
    );
    assert_eq!(deal(2, 4), vec![vec![0], vec![1], vec![], vec![]]);
    assert_eq!(deal(3, 1), vec![vec![0, 1, 2]]);
    assert_eq!(deal(0, 2), vec![Vec::<u64>::new(), Vec::new()]);
}

#[test]
fn every_element_is_found_where_it_was_dealt() {
    let shards = 7;
    let dealt = deal(100, shards);
    for i in 0..100usize {
        assert_eq!(dealt[i % shards][i / shards], i as u64);
    }
    for shard in &dealt {
        assert!(shard.len() == 14 || shard.len() == 15);
    }
    assert_eq!(dealt.iter().map(|s| s.len()).sum::<usize>(), 100);
}

#[test]
fn an_object_needs_a_key() {
    let mut scan = ObjectScan::new(None);
    assert!(!scan.takes(&"entities".to_string()));
    scan.add_array(3);
    assert_eq!(scan.finish(), Err(StreamError::ObjectWithoutKey));
}

#[test]
fn an_object_without_the_key_is_refused() {
    let scan = ObjectScan::new(Some("entities"));
    assert!(!scan.takes(&"entitie".to_string()));
    assert!(!scan.takes(&"Entities".to_string()));
    assert_eq!(
        scan.finish(),
        Err(StreamError::KeyNotFound {
            key: "entities".to_string()
        })
    );
}

#[test]
fn all_members_of_the_key_count() {
    let mut scan = ObjectScan::new(Some("entities"));
    assert!(scan.takes(&"entities".to_string()));
    scan.add_array(5);
    scan.add_array(2);
    assert_eq!(scan.total(), 7);
    assert_eq!(scan.finish(), Ok(7));
}

#[test]
fn an_empty_array_is_found() {
    let mut scan = ObjectScan::new(Some("k"));
    scan.add_array(0);
    assert_eq!(scan.finish(), Ok(0));
}

#[test]
fn no_shards_no_run() {
    assert_eq!(check_shards(0), Err(StreamError::NoShards));
    assert_eq!(check_shards(1), Ok(()));
}

#[test]
fn errors_say_what_is_wrong() {
    assert_eq!(StreamError::NoShards.message(), "num_shards must be > 0");
    assert_eq!(
        StreamError::ObjectWithoutKey.message(),
        "got a JSON object but no --array-key was provided"
    );
    assert_eq!(
        StreamError::KeyNotFound {
            key: "items".to_string()
        }
        .message(),
        "object did not contain an 'items' array (use --array-key to set the key)"
    );
    assert_eq!(
        StreamError::SendFailed {
            shard: 12,
            reason: "gone".to_string()
        }
        .message(),
        "send to shard 12 failed: gone"
    );
}

#[test]
fn expectations() {
    assert_eq!(expecting(None), "a top-level JSON array");
    assert_eq!(
        expecting(Some("entities")),
        "a top-level array or an object with an 'entities' array"
    );
}

#[test]
fn each_array_of_an_object_begins_at_the_first_shard() {
    let members = [("a", 4u64), ("b", 9), ("a", 2)];
    let shards = 3;
    let mut scan = ObjectScan::new(Some("a"));
    let mut counts = vec![0u64; shards];
    for (key, elements) in members {
        if scan.takes(&key.to_string()) {
            let mut stream = ArrayStream::new(shards);
            for _ in 0..elements {
                counts[stream.next_shard()] += 1;
                stream.record_sent();
            }
            scan.add_array(stream.total());
        }
    }
    assert_eq!(counts, vec![3, 2, 1]);
    assert_eq!(scan.finish(), Ok(6));
}
