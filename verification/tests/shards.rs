use shard_json_array::shards::{output_path_for, shard_file_name, shard_paths, shard_width};
use std::path::{Path, PathBuf};

#[test]
fn width_is_the_number_of_digits() {
    assert_eq!(shard_width(1), 1);
    assert_eq!(shard_width(9), 1);
    assert_eq!(shard_width(10), 2);
    assert_eq!(shard_width(99), 2);
    assert_eq!(shard_width(100), 3);
    assert_eq!(shard_width(1000), 4);
    assert_eq!(shard_width(1_000_000), 7);
}

#[test]
fn width_agrees_with_the_logarithm() {
    for shards in 1..5000usize {
        let expected = ((shards as f64).log10().floor() as usize) + 1;
        assert_eq!(shard_width(shards), expected, "{}", shards);
    }
}

#[test]
fn file_name_pads_the_index_only() {
    assert_eq!(
        shard_file_name("data", 3, 12, 2),
        "data.shard-03-of-12.ndjson.zst"
    );
    assert_eq!(
        shard_file_name("data", 0, 1, 1),
        "data.shard-0-of-1.ndjson.zst"
    );
    assert_eq!(
        shard_file_name("", 7, 8, 0),
        ".shard-7-of-8.ndjson.zst"
    );
    assert_eq!(
        shard_file_name("x", 123, 5, 2),
        "x.shard-123-of-5.ndjson.zst"
    );
}

#[test]
fn file_name_equals_the_formatted_one() {
    for width in 0..6usize {
        for idx in [0usize, 1, 9, 10, 99, 100, 12345] {
            let expected = format!("s.shard-{:0width$}-of-{}.ndjson.zst", idx, 20000, width = width);
            assert_eq!(shard_file_name("s", idx, 20000, width), expected);
        }
    }
}

#[test]
fn shards_stand_beside_the_input() {
    assert_eq!(
        output_path_for(Path::new("/data/in/big.json"), 1, 10, 2),
        PathBuf::from("/data/in/big.shard-01-of-10.ndjson.zst")
    );
    assert_eq!(
        output_path_for(Path::new("big.json"), 1, 3, 1),
        PathBuf::from("big.shard-1-of-3.ndjson.zst")
    );
    assert_eq!(
        output_path_for(Path::new("a/archive.tar.gz"), 0, 2, 1),
        PathBuf::from("a/archive.tar.shard-0-of-2.ndjson.zst")
    );
    assert_eq!(
        output_path_for(Path::new("a/.hidden"), 0, 2, 1),
        PathBuf::from("a/.hidden.shard-0-of-2.ndjson.zst")
    );
}

#[test]
fn a_path_without_a_name_gets_one() {
    assert_eq!(
        output_path_for(Path::new("/"), 0, 2, 1),
        PathBuf::from("./input.shard-0-of-2.ndjson.zst")
    );
    assert_eq!(
        output_path_for(Path::new(""), 0, 2, 1),
        PathBuf::from("./input.shard-0-of-2.ndjson.zst")
    );
    assert_eq!(
        output_path_for(Path::new("a/.."), 0, 2, 1),
        PathBuf::from("a/input.shard-0-of-2.ndjson.zst")
    );
}

#[test]
fn non_ascii_names_are_kept() {
    assert_eq!(
        output_path_for(Path::new("d/über.json"), 0, 1, 1),
        PathBuf::from("d/über.shard-0-of-1.ndjson.zst")
    );
}

#[test]
fn paths_of_a_run_are_distinct_and_sorted() {
    let paths = shard_paths(Path::new("d/x.json"), 120, shard_width(120));
    assert_eq!(paths.len(), 120);
    for i in 1..paths.len() {
        assert!(paths[i - 1].to_string_lossy() < paths[i].to_string_lossy());
        assert_eq!(
            paths[i - 1].to_string_lossy().len(),
            paths[i].to_string_lossy().len()
        );
    }
    assert_eq!(paths[7], PathBuf::from("d/x.shard-007-of-120.ndjson.zst"));
}

#[test]
fn paths_are_distinct_with_a_narrow_width() {
    let paths = shard_paths(Path::new("x.json"), 30, 0);
    for i in 0..paths.len() {
        for j in 0..i {
            assert_ne!(paths[i], paths[j]);
        }
    }
}

#[test]
fn a_wider_width_keeps_length_and_order() {
    let paths = shard_paths(Path::new("x.json"), 12, 5);
    assert_eq!(paths[3], PathBuf::from("x.shard-00003-of-12.ndjson.zst"));
    for i in 1..paths.len() {
        assert!(paths[i - 1].to_string_lossy() < paths[i].to_string_lossy());
        assert_eq!(
            paths[i - 1].to_string_lossy().len(),
            paths[i].to_string_lossy().len()
        );
    }
}

#[test]
fn no_shards_take_one_digit() {
    assert_eq!(shard_width(0), 1);
}

#[test]
fn a_shard_has_the_directory_of_the_input() {
    for input in [
        "b.json", "/b.json", "//b.json", "./b.json", "../b.json", "a/b.json", "a//b.json", "a/./b.json", "././b.json",
        "/./b.json", "a/b.json/", "a/b/.", "a/..", "..", ".", "./", ".hidden", "a/.b.c",
    ] {
        let path = Path::new(input);
        let out = output_path_for(path, 0, 2, 1);
        assert_eq!(
            out.parent().map(|dir| dir.as_os_str()),
            path.parent().map(|dir| dir.as_os_str()),
            "{}",
            input
        );
        assert_ne!(out.as_os_str(), path.as_os_str());
    }
    for input in ["", "/", "//"] {
        let out = output_path_for(Path::new(input), 0, 2, 1);
        assert_eq!(out.parent().map(|dir| dir.as_os_str()), Some(Path::new(".").as_os_str()));
    }
}

#[test]
fn sharding_a_shard_leaves_it_alone() {
    let input = Path::new("d/x.shard-0-of-2.ndjson.zst");
    let out = output_path_for(input, 0, 2, 1);
    assert_eq!(out, PathBuf::from("d/x.shard-0-of-2.ndjson.shard-0-of-2.ndjson.zst"));
    assert_ne!(out, input);
    for input in [".zst", ".shard-0-of-2.ndjson.zst", "input.shard-0-of-2.ndjson.zst"] {
        for path in shard_paths(Path::new(input), 2, 1) {
            assert_ne!(path, PathBuf::from(input));
        }
    }
}

#[test]
fn the_stem_of_a_shard_ends_before_its_last_dot() {
    let out = output_path_for(Path::new("d/x.json"), 1, 2, 1);
    assert_eq!(out.file_stem().map(Path::new), Some(Path::new("x.shard-1-of-2.ndjson")));
}
