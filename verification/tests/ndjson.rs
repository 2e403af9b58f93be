use serde_json::Value;
use shard_json_array::dispatch::ArrayStream;
use shard_json_array::ndjson::{end_line, LineError, ShardLines};

fn parse(text: &str) -> Value {
    serde_json::from_str(text).unwrap()
}

#[test]
fn one_compact_line_per_element() {
    let mut lines = ShardLines::new();
    assert_eq!(
        lines.next_line(&parse("{ \"b\" : [1, 2,\n 3], \"a\": null }")),
        Ok(b"{\"a\":null,\"b\":[1,2,3]}\n".to_vec())
    );
    assert_eq!(lines.next_line(&Value::Null), Ok(b"null\n".to_vec()));
    assert_eq!(lines.next_line(&Value::Bool(true)), Ok(b"true\n".to_vec()));
    assert_eq!(lines.next_line(&parse("\"\"")), Ok(b"\"\"\n".to_vec()));
    assert_eq!(lines.total(), 4);
}

#[test]
fn line_breaks_in_strings_are_escaped() {
    let mut object = serde_json::Map::new();
    object.insert("a\nb".to_string(), Value::String("c\r\nd".to_string()));
    let mut lines = ShardLines::new();
    assert_eq!(
        lines.next_line(&Value::Object(object)),
        Ok(b"{\"a\\nb\":\"c\\r\\nd\"}\n".to_vec())
    );
}

#[test]
fn end_line_adds_the_break() {
    assert_eq!(end_line(b"x".to_vec()), b"x\n".to_vec());
    assert_eq!(end_line(Vec::new()), b"\n".to_vec());
}

#[test]
fn the_error_has_a_message() {
    assert_eq!(
        LineError::NotSerialized.message(),
        "failed to serialize JSON element"
    );
}

#[test]
fn shards_read_back_line_by_line() {
    let elements: Vec<Value> = (0..23)
        .map(|i| parse(&format!("{{\"i\": {}, \"s\": \"x\\ny\"}}", i)))
        .collect();
    let shards = 4;
    let mut stream = ArrayStream::new(shards);
    let mut files = vec![Vec::new(); shards];
    let mut counters: Vec<ShardLines> = (0..shards).map(|_| ShardLines::new()).collect();
    for element in &elements {
        let shard = stream.next_shard();
        files[shard].extend(counters[shard].next_line(element).unwrap());
        stream.record_sent();
    }
    let mut total = 0;
    for shard in 0..shards {
        let text = String::from_utf8(files[shard].clone()).unwrap();
        assert_eq!(text.lines().count() as u64, counters[shard].total());
        for (k, line) in text.lines().enumerate() {
            assert_eq!(parse(line), elements[k * shards + shard]);
        }
        total += counters[shard].total();
    }
    assert_eq!(total, stream.total());
}
