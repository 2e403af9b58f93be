use chrono::{DateTime, Utc};
use rand::distributions::{Alphanumeric, DistString};
use rand::rngs::StdRng;
use rand::{Rng, RngCore, SeedableRng};
use shard_json_array::clock::{earlier, rand_between_days, Timestamp, MAX_DISTANCE, MAX_SECS, MIN_SECS};
use shard_json_array::entity::Entity;
use shard_json_array::generate::{compose_entity, entity_of_run, generate_entity, MAX_CONTRIBUTORS};
use shard_json_array::ids::EntityIds;
use shard_json_array::text::{
    filler_text, hex_digit, hexish, join_words, many_words, repeat_lorem, wordish, words, LOREM,
};

fn rng(seed: u64) -> StdRng {
    StdRng::seed_from_u64(seed)
}

fn word(r: &mut StdRng, len: usize) -> String {
    Alphanumeric.sample_string(r, len).to_lowercase()
}

fn word_list(r: &mut StdRng, min: usize, max: usize) -> Vec<String> {
    let n = r.gen_range(min..=max);
    (0..n)
        .map(|_| {
            let len = r.gen_range(3..12);
            word(r, len)
        })
        .collect()
}

fn hex(r: &mut StdRng, len: usize) -> String {
    (0..len)
        .map(|_| {
            let d: usize = r.gen_range(0..16);
            char::from(b"0123456789abcdef"[d])
        })
        .collect()
}

fn prose(r: &mut StdRng, min: usize, max: usize) -> String {
    let target = r.gen_range(min..=max);
    let mut text = format!("{} ", LOREM).repeat(target / LOREM.len() + 1);
    text.truncate(target);
    text
}

fn seconds(r: &mut StdRng, max_days: i64) -> i64 {
    let days: i64 = r.gen_range(0..=max_days);
    let secs: i32 = r.gen_range(0..86_400);
    days * 86_400 + i64::from(secs)
}

#[test]
fn text_is_drawn_as_it_is_used() {
    for seed in 0..20 {
        let (mut a, mut b) = (rng(seed), rng(seed));
        assert_eq!(wordish(&mut a, 12), word(&mut b, 12));
        assert_eq!(words(&mut a, 2, 5), word_list(&mut b, 2, 5).join(" "));
        assert_eq!(many_words(&mut a, 3, 9), word_list(&mut b, 3, 9));
        assert_eq!(hexish(&mut a, 40), hex(&mut b, 40));
        assert_eq!(repeat_lorem(&mut a, 200, 2000), prose(&mut b, 200, 2000));
        assert_eq!(rand_between_days(&mut a, 1000), seconds(&mut b, 1000));
        assert_eq!(a.next_u64(), b.next_u64());
    }
}

#[test]
fn words_are_lowercase() {
    let mut r = rng(3);
    for len in 0..50 {
        let w = wordish(&mut r, len);
        assert_eq!(w.len(), len);
        assert!(w.chars().all(|c| c.is_ascii_lowercase() || c.is_ascii_digit()));
    }
    assert_eq!(words(&mut r, 0, 0), "");
    assert_eq!(many_words(&mut r, 0, 0), Vec::<String>::new());
    assert_eq!(words(&mut r, 4, 4).split(' ').count(), 4);
}

#[test]
fn hex_digits_only() {
    let h = hexish(&mut rng(5), 400);
    assert_eq!(h.len(), 400);
    assert!(h.chars().all(|c| c.is_ascii_hexdigit() && !c.is_ascii_uppercase()));
}

#[test]
fn prose_repeats_itself() {
    assert!(LOREM.is_ascii());
    let period = LOREM.len() + 1;
    let text = repeat_lorem(&mut rng(1), 2000, 2000);
    assert_eq!(text.len(), 2000);
    assert!(text.starts_with(LOREM));
    assert_eq!(&text[LOREM.len()..period], " ");
    assert_eq!(&text[period..], &text[..2000 - period]);
    assert_eq!(repeat_lorem(&mut rng(1), 0, 0), "");
    assert_eq!(repeat_lorem(&mut rng(1), 5, 5), "Lorem");
}

#[test]
fn parts_of_text() {
    assert_eq!(hex_digit(0), "0");
    assert_eq!(hex_digit(10), "a");
    assert_eq!(hex_digit(15), "f");
    assert_eq!(join_words(&Vec::new()), "");
    assert_eq!(join_words(&vec!["a".to_string()]), "a");
    let list = vec!["a".to_string(), "bc".to_string(), "d".to_string()];
    assert_eq!(join_words(&list), "a bc d");
    assert_eq!(filler_text(11), "Lorem ipsum");
    assert_eq!(filler_text(0), "");
    assert_eq!(filler_text(LOREM.len() + 6), format!("{} Lorem", LOREM));
}

#[test]
fn times_are_the_seconds_of_dates() {
    assert_eq!(DateTime::<Utc>::MIN_UTC.timestamp(), MIN_SECS);
    assert_eq!(DateTime::<Utc>::MAX_UTC.timestamp(), MAX_SECS);
    assert_eq!(chrono::Duration::MAX.num_seconds(), MAX_DISTANCE);
    let t = Timestamp { secs: 1000, nanos: 7 };
    assert_eq!(earlier(t, 1), Timestamp { secs: 999, nanos: 7 });
    let date = DateTime::from_timestamp(1000, 7).unwrap() - chrono::Duration::seconds(90_000);
    let shifted = earlier(t, 90_000);
    assert_eq!(shifted.secs, date.timestamp());
    assert_eq!(shifted.nanos, date.timestamp_subsec_nanos());
    let days = chrono::Duration::days(3) + chrono::Duration::seconds(5);
    assert_eq!(days.num_seconds(), 3 * 86_400 + 5);
}

fn ids() -> EntityIds {
    EntityIds {
        entity: 1,
        owner: 2,
        contributors: (100..100 + MAX_CONTRIBUTORS as u128).collect(),
    }
}

#[test]
fn entities_are_drawn_in_order() {
    for seed in 0..4 {
        let (mut a, mut r) = (rng(seed), rng(seed));
        let now = Timestamp {
            secs: 1_700_000_000,
            nanos: 5,
        };
        let e: Entity = compose_entity(17, &mut a, now, &ids());

        assert_eq!(now.secs - e.created_at.secs, seconds(&mut r, 1000));
        assert_eq!(now.secs - e.updated_at.secs, seconds(&mut r, 100));
        assert_eq!((e.created_at.nanos, e.updated_at.nanos), (5, 5));
        assert_eq!(e.owner.id, 2);
        assert_eq!(e.owner.login, word(&mut r, 12));
        assert_eq!(e.owner.name, word_list(&mut r, 2, 5).join(" "));
        assert_eq!(e.owner.followers, r.gen_range(0..50_000u32));
        assert_eq!(e.description, prose(&mut r, 5_000, 9_000));
        assert_eq!(e.readme, prose(&mut r, 10_000, 18_000));
        assert_eq!(e.tags, word_list(&mut r, 40, 65));
        assert_eq!(e.topics, word_list(&mut r, 15, 30));

        let files: i32 = r.gen_range(20..40);
        assert_eq!(e.files.len(), files as usize);
        for f in &e.files {
            let dir = word(&mut r, 6);
            let name = word(&mut r, 8);
            assert_eq!(f.path, format!("src/{}/{}.rs", dir, name));
            assert_eq!(f.size, r.gen_range(200..10_000u64));
            assert_eq!(f.checksum, hex(&mut r, 40));
            assert_eq!(f.preview, word_list(&mut r, 40, 80).join(" "));
        }
        let contributors: i32 = r.gen_range(5..25);
        assert_eq!(e.contributors.len(), contributors as usize);
        for (k, c) in e.contributors.iter().enumerate() {
            assert_eq!(c.id, 100 + k as u128);
            assert_eq!(c.login, word(&mut r, 10));
            assert_eq!(c.commits, r.gen_range(1..10_000u32));
        }
        let languages: i32 = r.gen_range(3..10);
        assert_eq!(e.metadata.languages.len(), languages as usize);
        for l in &e.metadata.languages {
            assert_eq!(*l, word(&mut r, 6));
        }
        let attributes: i32 = r.gen_range(30..60);
        assert_eq!(e.extra.attributes.len(), attributes as usize);
        for a in &e.extra.attributes {
            assert_eq!(a.key, word_list(&mut r, 1, 3).join(" "));
            assert_eq!(a.value, word_list(&mut r, 3, 8).join(" "));
        }
        let notes: i32 = r.gen_range(10..30);
        assert_eq!(e.extra.notes.len(), notes as usize);
        for n in &e.extra.notes {
            assert_eq!(*n, prose(&mut r, 200, 800));
        }
        assert_eq!(e.id, 1);
        let kind = if r.gen_bool(0.5) { "repository" } else { "service" };
        assert_eq!(e.kind, kind);
        let first = word(&mut r, 6);
        let second = word(&mut r, 6);
        assert_eq!(e.name, format!("{}-{}-17", first, second));
        assert_eq!(e.license.key, "apache-2.0");
        assert_eq!(e.license.name, "Apache License 2.0");
        assert_eq!(e.license.spdx_id, "Apache-2.0");
        let hosts = ["example.com", "api.example.com", "docs.example.com"];
        assert_eq!(e.urls.len(), 3);
        for (url, host) in e.urls.iter().zip(hosts) {
            let first = word(&mut r, 8);
            let second = word(&mut r, 8);
            assert_eq!(*url, format!("https://{}/{}/{}", host, first, second));
        }
        assert_eq!(e.permissions.admin, r.gen_bool(0.2));
        assert_eq!(e.permissions.maintain, r.gen_bool(0.3));
        assert_eq!(e.permissions.push, r.gen_bool(0.5));
        assert_eq!(e.permissions.triage, r.gen_bool(0.5));
        assert!(e.permissions.pull);
        assert_eq!(e.metadata.stars, r.gen_range(0..100_000u32));
        assert_eq!(e.metadata.forks, r.gen_range(0..50_000u32));
        assert_eq!(e.metadata.watchers, r.gen_range(0..100_000u32));
        assert_eq!(e.metadata.issues_open, r.gen_range(0..10_000u32));
        assert_eq!(e.metadata.releases, r.gen_range(0..500u32));
        assert_eq!(a.next_u64(), r.next_u64());
    }
}

#[test]
fn a_seed_reproduces_the_content() {
    let a = entity_of_run(42, 3);
    let b = entity_of_run(42, 3);
    assert_eq!(a.name, b.name);
    assert!(a.name.ends_with("-3"));
    assert_eq!(a.readme, b.readme);
    assert_eq!(a.files, b.files);
    assert_eq!(a.metadata, b.metadata);
    assert_eq!(a.extra, b.extra);
    assert_eq!(
        a.created_at.secs - a.updated_at.secs,
        b.created_at.secs - b.updated_at.secs
    );
    assert_ne!(a.id, b.id);
    let words: Vec<&str> = a.name.split('-').collect();
    assert_eq!(words.len(), 3);
    assert_eq!((words[0].len(), words[1].len(), words[2]), (6, 6, "3"));
    assert_ne!(a.name, entity_of_run(42, 4).name);
    assert_ne!(a.name, entity_of_run(43, 3).name);
}

#[test]
fn a_generated_entity_is_new() {
    let before = Utc::now().timestamp();
    let e = generate_entity(5, &mut rng(9));
    let after = Utc::now().timestamp();
    assert!(e.created_at.secs <= after && e.created_at.secs > before - 1001 * 86_400);
    assert!(e.updated_at.secs <= after && e.updated_at.secs > before - 101 * 86_400);
    assert!(e.created_at.nanos < 1_000_000_000);
    let version = uuid::Uuid::from_u128(e.id).get_version_num();
    assert_eq!(version, 4);
    assert_eq!(uuid::Uuid::from_u128(e.owner.id).get_version_num(), 4);
    for c in &e.contributors {
        assert_eq!(uuid::Uuid::from_u128(c.id).get_version_num(), 4);
        assert_ne!(c.id, e.id);
    }
}

#[test]
fn fresh_identifiers_are_random() {
    let ids = EntityIds::fresh(10);
    assert_eq!(ids.contributors.len(), 10);
    let mut all = ids.contributors.clone();
    all.push(ids.entity);
    all.push(ids.owner);
    for id in &all {
        assert_eq!((id >> 76) & 0xf, 4);
        assert_eq!((id >> 62) & 0x3, 2);
    }
    all.sort();
    all.dedup();
    assert_eq!(all.len(), 12);
}

fn is_word(text: &str, len: usize) -> bool {
    text.len() == len && text.chars().all(|c| c.is_ascii_lowercase() || c.is_ascii_digit())
}

#[test]
fn paths_and_addresses_have_their_shape() {
    let e = entity_of_run(8, 1);
    for f in &e.files {
        let inner = f.path.strip_prefix("src/").unwrap().strip_suffix(".rs").unwrap();
        let (dir, name) = inner.split_once('/').unwrap();
        assert!(is_word(dir, 6) && is_word(name, 8), "{}", f.path);
    }
    let bases = [
        "https://example.com/",
        "https://api.example.com/",
        "https://docs.example.com/",
    ];
    for (url, base) in e.urls.iter().zip(bases) {
        let (first, second) = url.strip_prefix(base).unwrap().split_once('/').unwrap();
        assert!(is_word(first, 8) && is_word(second, 8), "{}", url);
    }
}

#[test]
fn the_number_only_ends_the_name() {
    let now = Timestamp {
        secs: 1_700_000_000,
        nanos: 0,
    };
    let (mut a, mut b) = (rng(5), rng(5));
    let x = compose_entity(1, &mut a, now, &ids());
    let y = compose_entity(234, &mut b, now, &ids());
    assert_eq!(
        x.name.strip_suffix("-1").unwrap(),
        y.name.strip_suffix("-234").unwrap()
    );
    assert_ne!(x.name, y.name);
    assert_eq!(x.files, y.files);
    assert_eq!(x.contributors, y.contributors);
    assert_eq!(x.extra, y.extra);
    assert_eq!(x.created_at, y.created_at);
    assert_eq!(a.next_u64(), b.next_u64());
}
