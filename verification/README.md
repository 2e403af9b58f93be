# shard_json_array

Splits one huge JSON array into N zstd-compressed NDJSON files, and generates
large JSON documents to try that on. The decisions are a library verified with
Verus; the files, threads and command lines around it are ordinary Rust.

* `src/` is the verified library. Its contracts say where every element of an
  array ends up, what the files of a run are called, what a generated entity
  consists of, and that items which arrive in any order make the same document.
* `tests/` runs the library on concrete values.
* `app/` holds the two programs, `shard-json-array` and `generate-entities`, in
  one binary that goes by the name it is called under.

What is not proved is stated where it is used: the functions and types marked
`external_body` or `external_type_specification` in `src/`, and the one
`assume_specification`, each with a comment that says what is taken on trust of
the standard library or of `rand`, `serde_json`, `uuid` and `chrono`.

A run with `--seed` draws the same content for every entity, on however many
threads. Identifiers and times are fresh in each run.
