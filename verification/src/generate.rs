//! Generating entities: which draws make which part, in which order.
use rand::rngs::StdRng;
use vstd::prelude::*;

use crate::clock::{
    current_time, distance_draw, earlier, is_clock_reading, rand_between_days, Timestamp, DAY_SECS,
    MAX_SECS, MIN_SECS,
};
use crate::decimal::{decimal, is_numeral, law_decimal_reads_back, lemma_decimal, push_decimal};
use crate::entity::{
    Attribute, AttributeView, Contributor, ContributorView, Entity, EntityView, Extra, ExtraView,
    FileMeta, FileMetaView, License, LicenseView, Metadata, MetadataView, Owner, OwnerView,
    Permissions,
};
use crate::ids::{
    draw_id, draws_do_not_repeat, law_ids_drawn_separately, EntityIds, IdFor,
};
use crate::random::{
    draw_ratio, draw_u32, draw_u64, ratio_draw, rng_state, seeded_state, uniform_draw,
};
use crate::seeds::{entity_rng, entity_seed_spec, mixed};
use crate::text::{
    are_words, hex_draw, hexish, is_hex, is_prose, is_sentence, is_word, lorem_draw, many_words,
    many_words_draw, repeat_lorem, texts, word_draw, wordish, words, words_draw,
};

verus! {

/// The most contributors that an entity has.
pub const MAX_CONTRIBUTORS: usize = 24;

// What is drawn

/// The owner: login, name and followers are drawn in this order.
pub open spec fn owner_draw(state: int, id: u128) -> (OwnerView, int) {
    let (login, s1) = word_draw(state, 12);
    let (name, s2) = words_draw(s1, 2, 5);
    let (followers, s3) = uniform_draw(s2, 32, 0, 49_999);
    (OwnerView { id, login, name, followers: followers as u32 }, s3)
}

/// A source file: the two parts of its path, its size, its checksum and its preview.
pub open spec fn file_draw(state: int) -> (FileMetaView, int) {
    let (dir, s1) = word_draw(state, 6);
    let (name, s2) = word_draw(s1, 8);
    let (size, s3) = uniform_draw(s2, 64, 200, 9_999);
    let (checksum, s4) = hex_draw(s3, 40);
    let (preview, s5) = words_draw(s4, 40, 80);
    (
        FileMetaView {
            path: "src/"@ + dir + "/"@ + name + ".rs"@,
            size: size as u64,
            checksum,
            preview,
        },
        s5,
    )
}

/// `count` source files, one after the other.
pub open spec fn files_draw(state: int, count: nat) -> (Seq<FileMetaView>, int)
    decreases count,
{
    if count == 0 {
        (Seq::empty(), state)
    } else {
        let (list, s1) = files_draw(state, (count - 1) as nat);
        let (file, s2) = file_draw(s1);
        (list.push(file), s2)
    }
}

/// A contributor: login and number of commits.
pub open spec fn contributor_draw(state: int, id: u128) -> (ContributorView, int) {
    let (login, s1) = word_draw(state, 10);
    let (commits, s2) = uniform_draw(s1, 32, 1, 9_999);
    (ContributorView { id, login, commits: commits as u32 }, s2)
}

/// `count` contributors, with the first `count` of the identifiers.
pub open spec fn contributors_draw(state: int, ids: Seq<u128>, count: nat) -> (
    Seq<ContributorView>,
    int,
)
    decreases count,
{
    if count == 0 {
        (Seq::empty(), state)
    } else {
        let (list, s1) = contributors_draw(state, ids, (count - 1) as nat);
        let (contributor, s2) = contributor_draw(s1, ids[count - 1]);
        (list.push(contributor), s2)
    }
}

/// `count` words of 6 characters.
pub open spec fn languages_draw(state: int, count: nat) -> (Seq<Seq<char>>, int)
    decreases count,
{
    if count == 0 {
        (Seq::empty(), state)
    } else {
        let (list, s1) = languages_draw(state, (count - 1) as nat);
        let (word, s2) = word_draw(s1, 6);
        (list.push(word), s2)
    }
}

/// `count` attributes: key and value of each.
pub open spec fn attributes_draw(state: int, count: nat) -> (Seq<AttributeView>, int)
    decreases count,
{
    if count == 0 {
        (Seq::empty(), state)
    } else {
        let (list, s1) = attributes_draw(state, (count - 1) as nat);
        let (key, s2) = words_draw(s1, 1, 3);
        let (value, s3) = words_draw(s2, 3, 8);
        (list.push(AttributeView { key, value }), s3)
    }
}

/// `count` notes of filler prose.
pub open spec fn notes_draw(state: int, count: nat) -> (Seq<Seq<char>>, int)
    decreases count,
{
    if count == 0 {
        (Seq::empty(), state)
    } else {
        let (list, s1) = notes_draw(state, (count - 1) as nat);
        let (note, s2) = lorem_draw(s1, 200, 800);
        (list.push(note), s2)
    }
}

/// The kind of an entity, one of two with even chances.
pub open spec fn kind_draw(state: int) -> (Seq<char>, int) {
    let (repository, s1) = ratio_draw(state, 1, 2);
    (
        if repository {
            "repository"@
        } else {
            "service"@
        },
        s1,
    )
}

/// The name of entity `i`: two words and the number.
pub open spec fn name_draw(state: int, i: u64) -> (Seq<char>, int) {
    let (first, s1) = word_draw(state, 6);
    let (second, s2) = word_draw(s1, 6);
    (first + "-"@ + second + "-"@ + decimal(i as nat), s2)
}

/// An address: two words below `base`.
pub open spec fn url_draw(state: int, base: Seq<char>) -> (Seq<char>, int) {
    let (first, s1) = word_draw(state, 8);
    let (second, s2) = word_draw(s1, 8);
    (base + first + "/"@ + second, s2)
}

/// The three addresses of an entity.
pub open spec fn urls_draw(state: int) -> (Seq<Seq<char>>, int) {
    let (site, s1) = url_draw(state, "https://example.com/"@);
    let (api, s2) = url_draw(s1, "https://api.example.com/"@);
    let (docs, s3) = url_draw(s2, "https://docs.example.com/"@);
    (seq![site, api, docs], s3)
}

/// The permissions; pulling is always permitted.
pub open spec fn permissions_draw(state: int) -> (Permissions, int) {
    let (admin, s1) = ratio_draw(state, 1, 5);
    let (maintain, s2) = ratio_draw(s1, 3, 10);
    let (push, s3) = ratio_draw(s2, 1, 2);
    let (triage, s4) = ratio_draw(s3, 1, 2);
    (Permissions { admin, maintain, push, triage, pull: true }, s4)
}

/// The counters, around the languages drawn before.
pub open spec fn metadata_draw(state: int, languages: Seq<Seq<char>>) -> (MetadataView, int) {
    let (stars, s1) = uniform_draw(state, 32, 0, 99_999);
    let (forks, s2) = uniform_draw(s1, 32, 0, 49_999);
    let (watchers, s3) = uniform_draw(s2, 32, 0, 99_999);
    let (issues_open, s4) = uniform_draw(s3, 32, 0, 9_999);
    let (releases, s5) = uniform_draw(s4, 32, 0, 499);
    (
        MetadataView {
            stars: stars as u32,
            forks: forks as u32,
            watchers: watchers as u32,
            issues_open: issues_open as u32,
            releases: releases as u32,
            languages,
        },
        s5,
    )
}

/// The one license.
pub open spec fn license_spec() -> LicenseView {
    LicenseView { key: "apache-2.0"@, name: "Apache License 2.0"@, spdx_id: "Apache-2.0"@ }
}

/// Entity `i` as drawn from `state`, with the time and the identifiers given.
pub open spec fn entity_draw(state: int, i: u64, now: Timestamp, ids: EntityIds) -> (
    EntityView,
    int,
) {
    let (created_offset, s1) = distance_draw(state, 1000);
    let (updated_offset, s2) = distance_draw(s1, 100);
    let (owner, s3) = owner_draw(s2, ids.owner);
    let (description, s4) = lorem_draw(s3, 5_000, 9_000);
    let (readme, s5) = lorem_draw(s4, 10_000, 18_000);
    let (tags, s6) = many_words_draw(s5, 40, 65);
    let (topics, s7) = many_words_draw(s6, 15, 30);
    let (file_count, s8) = uniform_draw(s7, 32, 20, 39);
    let (files, s9) = files_draw(s8, file_count as nat);
    let (contributor_count, s10) = uniform_draw(s9, 32, 5, 24);
    let (contributors, s11) = contributors_draw(
        s10,
        ids.contributors@,
        contributor_count as nat,
    );
    let (language_count, s12) = uniform_draw(s11, 32, 3, 9);
    let (languages, s13) = languages_draw(s12, language_count as nat);
    let (attribute_count, s14) = uniform_draw(s13, 32, 30, 59);
    let (attributes, s15) = attributes_draw(s14, attribute_count as nat);
    let (note_count, s16) = uniform_draw(s15, 32, 10, 29);
    let (notes, s17) = notes_draw(s16, note_count as nat);
    let (kind, s18) = kind_draw(s17);
    let (name, s19) = name_draw(s18, i);
    let (urls, s20) = urls_draw(s19);
    let (permissions, s21) = permissions_draw(s20);
    let (metadata, s22) = metadata_draw(s21, languages);
    (
        EntityView {
            id: ids.entity,
            kind,
            name,
            owner,
            created_at: now@.earlier(created_offset),
            updated_at: now@.earlier(updated_offset),
            description,
            readme,
            tags,
            topics,
            license: license_spec(),
            files,
            contributors,
            urls,
            permissions,
            metadata,
            extra: ExtraView { attributes, notes },
        },
        s22,
    )
}

// What holds of every entity

/// What holds of every owner.
pub open spec fn owner_ok(owner: OwnerView) -> bool {
    &&& owner.login.len() == 12
    &&& is_word(owner.login)
    &&& is_sentence(owner.name, 2, 5)
    &&& owner.followers < 50_000
}

/// `path` is that of a source file: `src/`, a word of 6 characters, `/`, a word of 8 and `.rs`.
pub open spec fn is_source_path(path: Seq<char>) -> bool {
    exists|dir: Seq<char>, name: Seq<char>|
        {
            &&& #[trigger] is_word(dir)
            &&& #[trigger] is_word(name)
            &&& dir.len() == 6
            &&& name.len() == 8
            &&& path == "src/"@ + dir + "/"@ + name + ".rs"@
        }
}

/// `url` is `base`, a word of 8 characters, `/` and another word of 8.
pub open spec fn is_url_below(url: Seq<char>, base: Seq<char>) -> bool {
    exists|first: Seq<char>, second: Seq<char>|
        {
            &&& #[trigger] is_word(first)
            &&& #[trigger] is_word(second)
            &&& first.len() == 8
            &&& second.len() == 8
            &&& url == base + first + "/"@ + second
        }
}

/// What holds of the addresses of every entity.
pub open spec fn urls_ok(urls: Seq<Seq<char>>) -> bool {
    &&& urls.len() == 3
    &&& is_url_below(urls[0], "https://example.com/"@)
    &&& is_url_below(urls[1], "https://api.example.com/"@)
    &&& is_url_below(urls[2], "https://docs.example.com/"@)
}

/// What holds of every source file.
pub open spec fn file_ok(file: FileMetaView) -> bool {
    &&& is_source_path(file.path)
    &&& 200 <= file.size < 10_000
    &&& file.checksum.len() == 40
    &&& is_hex(file.checksum)
    &&& is_sentence(file.preview, 40, 80)
}

/// What holds of every contributor.
pub open spec fn contributor_ok(contributor: ContributorView) -> bool {
    &&& contributor.login.len() == 10
    &&& is_word(contributor.login)
    &&& 1 <= contributor.commits < 10_000
}

/// What holds of every attribute.
pub open spec fn attribute_ok(attribute: AttributeView) -> bool {
    is_sentence(attribute.key, 1, 3) && is_sentence(attribute.value, 3, 8)
}

/// What holds of the counters of every entity.
pub open spec fn metadata_ok(metadata: MetadataView) -> bool {
    &&& metadata.stars < 100_000
    &&& metadata.forks < 50_000
    &&& metadata.watchers < 100_000
    &&& metadata.issues_open < 10_000
    &&& metadata.releases < 500
    &&& 3 <= metadata.languages.len() < 10
    &&& forall|i: int|
        0 <= i < metadata.languages.len() ==> is_word(#[trigger] metadata.languages[i])
            && metadata.languages[i].len() == 6
}

/// `name` is a name for entity `i`: two words of 6 characters and the number.
pub open spec fn is_name_of(name: Seq<char>, i: u64) -> bool {
    exists|first: Seq<char>, second: Seq<char>|
        {
            &&& #[trigger] is_word(first)
            &&& #[trigger] is_word(second)
            &&& first.len() == 6
            &&& second.len() == 6
            &&& name == first + "-"@ + second + "-"@ + decimal(i as nat)
        }
}

/// What holds of every entity `i` generated at `now`.
pub open spec fn entity_ok(e: EntityView, i: u64, now: Timestamp) -> bool {
    &&& e.kind == "repository"@ || e.kind == "service"@
    &&& is_name_of(e.name, i)
    &&& now.secs - 1001 * DAY_SECS < e.created_at.secs <= now.secs
    &&& now.secs - 101 * DAY_SECS < e.updated_at.secs <= now.secs
    &&& owner_ok(e.owner)
    &&& e.created_at.nanos == now.nanos
    &&& e.updated_at.nanos == now.nanos
    &&& 5_000 <= e.description.len() <= 9_000
    &&& is_prose(e.description)
    &&& 10_000 <= e.readme.len() <= 18_000
    &&& is_prose(e.readme)
    &&& 40 <= e.tags.len() <= 65
    &&& are_words(e.tags)
    &&& 15 <= e.topics.len() <= 30
    &&& are_words(e.topics)
    &&& 20 <= e.files.len() < 40
    &&& forall|i: int| 0 <= i < e.files.len() ==> file_ok(#[trigger] e.files[i])
    &&& 5 <= e.contributors.len() < 25
    &&& forall|i: int| 0 <= i < e.contributors.len() ==> contributor_ok(#[trigger] e.contributors[i])
    &&& urls_ok(e.urls)
    &&& e.permissions.pull
    &&& metadata_ok(e.metadata)
    &&& 30 <= e.extra.attributes.len() < 60
    &&& forall|i: int|
        0 <= i < e.extra.attributes.len() ==> attribute_ok(#[trigger] e.extra.attributes[i])
    &&& 10 <= e.extra.notes.len() < 30
    &&& forall|i: int|
        0 <= i < e.extra.notes.len() ==> 200 <= (#[trigger] e.extra.notes[i]).len() <= 800
            && is_prose(e.extra.notes[i])
}

// Drawing it

/// Draws the owner.
fn generate_owner(rng: &mut StdRng, id: u128) -> (owner: Owner)
    ensures
        (owner@, rng_state(*final(rng))) == owner_draw(rng_state(*old(rng)), id),
        owner_ok(owner@),
{
    let login: String = wordish(rng, 12);
    let name: String = words(rng, 2, 5);
    let followers: u32 = draw_u32(rng, 0, 49_999);
    Owner { id, login, name, followers }
}

/// Draws a source file.
fn generate_file(rng: &mut StdRng) -> (file: FileMeta)
    ensures
        (file@, rng_state(*final(rng))) == file_draw(rng_state(*old(rng))),
        file_ok(file@),
{
    let dir: String = wordish(rng, 6);
    let name: String = wordish(rng, 8);
    let mut path: String = "src/".to_owned();
    path.append(dir.as_str());
    path.append("/");
    path.append(name.as_str());
    path.append(".rs");
    let size: u64 = draw_u64(rng, 200, 9_999);
    let checksum: String = hexish(rng, 40);
    let preview: String = words(rng, 40, 80);
    assert(is_word(dir@) && is_word(name@));
    FileMeta { path, size, checksum, preview }
}

/// The source files that a list stands for.
pub open spec fn file_views(list: Seq<FileMeta>) -> Seq<FileMetaView> {
    Seq::new(list.len(), |i: int| list[i]@)
}

/// Draws `count` source files.
fn generate_files(rng: &mut StdRng, count: u32) -> (list: Vec<FileMeta>)
    ensures
        (file_views(list@), rng_state(*final(rng))) == files_draw(
            rng_state(*old(rng)),
            count as nat,
        ),
        list@.len() == count,
        forall|i: int| 0 <= i < count ==> file_ok(#[trigger] file_views(list@)[i]),
{
    let ghost start = rng_state(*rng);
    let mut list: Vec<FileMeta> = Vec::new();
    let mut i: u32 = 0;
    assert(file_views(list@) =~= Seq::<FileMetaView>::empty());
    while i < count
        invariant
            i <= count,
            list@.len() == i,
            (file_views(list@), rng_state(*rng)) == files_draw(start, i as nat),
            forall|k: int| 0 <= k < i ==> file_ok(#[trigger] file_views(list@)[k]),
        decreases count - i,
    {
        let ghost before = file_views(list@);
        let file: FileMeta = generate_file(rng);
        list.push(file);
        i = i + 1;
        assert(file_views(list@) =~= before.push(file@));
    }
    list
}

/// The contributors that a list stands for.
pub open spec fn contributor_views(list: Seq<Contributor>) -> Seq<ContributorView> {
    Seq::new(list.len(), |i: int| list[i]@)
}

/// Draws `count` contributors.
fn generate_contributors(rng: &mut StdRng, ids: &Vec<u128>, count: u32) -> (list: Vec<Contributor>)
    requires
        count <= ids@.len(),
    ensures
        (contributor_views(list@), rng_state(*final(rng))) == contributors_draw(
            rng_state(*old(rng)),
            ids@,
            count as nat,
        ),
        list@.len() == count,
        forall|i: int| 0 <= i < count ==> contributor_ok(#[trigger] contributor_views(list@)[i]),
{
    let ghost start = rng_state(*rng);
    let mut list: Vec<Contributor> = Vec::new();
    let mut i: u32 = 0;
    assert(contributor_views(list@) =~= Seq::<ContributorView>::empty());
    while i < count
        invariant
            i <= count,
            count <= ids@.len(),
            list@.len() == i,
            (contributor_views(list@), rng_state(*rng)) == contributors_draw(
                start,
                ids@,
                i as nat,
            ),
            forall|k: int| 0 <= k < i ==> contributor_ok(#[trigger] contributor_views(list@)[k]),
        decreases count - i,
    {
        let ghost before = contributor_views(list@);
        let id: u128 = ids[i as usize];
        let login: String = wordish(rng, 10);
        let commits: u32 = draw_u32(rng, 1, 9_999);
        let contributor: Contributor = Contributor { id, login, commits };
        list.push(contributor);
        i = i + 1;
        assert(contributor_views(list@) =~= before.push(contributor@));
    }
    list
}

/// Draws `count` languages.
fn generate_languages(rng: &mut StdRng, count: u32) -> (list: Vec<String>)
    ensures
        (texts(list@), rng_state(*final(rng))) == languages_draw(
            rng_state(*old(rng)),
            count as nat,
        ),
        list@.len() == count,
        forall|i: int|
            0 <= i < count ==> is_word(#[trigger] texts(list@)[i]) && texts(list@)[i].len() == 6,
{
    let ghost start = rng_state(*rng);
    let mut list: Vec<String> = Vec::new();
    let mut i: u32 = 0;
    assert(texts(list@) =~= Seq::<Seq<char>>::empty());
    while i < count
        invariant
            i <= count,
            list@.len() == i,
            (texts(list@), rng_state(*rng)) == languages_draw(start, i as nat),
            forall|k: int|
                0 <= k < i ==> is_word(#[trigger] texts(list@)[k]) && texts(list@)[k].len() == 6,
        decreases count - i,
    {
        let ghost before = texts(list@);
        let word: String = wordish(rng, 6);
        list.push(word);
        i = i + 1;
        assert(texts(list@) =~= before.push(word@));
    }
    list
}

/// The attributes that a list stands for.
pub open spec fn attribute_views(list: Seq<Attribute>) -> Seq<AttributeView> {
    Seq::new(list.len(), |i: int| list[i]@)
}

/// Draws `count` attributes.
fn generate_attributes(rng: &mut StdRng, count: u32) -> (list: Vec<Attribute>)
    ensures
        (attribute_views(list@), rng_state(*final(rng))) == attributes_draw(
            rng_state(*old(rng)),
            count as nat,
        ),
        list@.len() == count,
        forall|i: int| 0 <= i < count ==> attribute_ok(#[trigger] attribute_views(list@)[i]),
{
    let ghost start = rng_state(*rng);
    let mut list: Vec<Attribute> = Vec::new();
    let mut i: u32 = 0;
    assert(attribute_views(list@) =~= Seq::<AttributeView>::empty());
    while i < count
        invariant
            i <= count,
            list@.len() == i,
            (attribute_views(list@), rng_state(*rng)) == attributes_draw(start, i as nat),
            forall|k: int| 0 <= k < i ==> attribute_ok(#[trigger] attribute_views(list@)[k]),
        decreases count - i,
    {
        let ghost before = attribute_views(list@);
        let key: String = words(rng, 1, 3);
        let value: String = words(rng, 3, 8);
        let attribute: Attribute = Attribute { key, value };
        list.push(attribute);
        i = i + 1;
        assert(attribute_views(list@) =~= before.push(attribute@));
    }
    list
}

/// Draws `count` notes.
fn generate_notes(rng: &mut StdRng, count: u32) -> (list: Vec<String>)
    ensures
        (texts(list@), rng_state(*final(rng))) == notes_draw(rng_state(*old(rng)), count as nat),
        list@.len() == count,
        forall|i: int|
            0 <= i < count ==> 200 <= (#[trigger] texts(list@)[i]).len() <= 800 && is_prose(
                texts(list@)[i],
            ),
{
    let ghost start = rng_state(*rng);
    let mut list: Vec<String> = Vec::new();
    let mut i: u32 = 0;
    assert(texts(list@) =~= Seq::<Seq<char>>::empty());
    while i < count
        invariant
            i <= count,
            list@.len() == i,
            (texts(list@), rng_state(*rng)) == notes_draw(start, i as nat),
            forall|k: int|
                0 <= k < i ==> 200 <= (#[trigger] texts(list@)[k]).len() <= 800 && is_prose(
                    texts(list@)[k],
                ),
        decreases count - i,
    {
        let ghost before = texts(list@);
        let note: String = repeat_lorem(rng, 200, 800);
        list.push(note);
        i = i + 1;
        assert(texts(list@) =~= before.push(note@));
    }
    list
}

/// Draws the kind.
fn generate_kind(rng: &mut StdRng) -> (kind: &'static str)
    ensures
        (kind@, rng_state(*final(rng))) == kind_draw(rng_state(*old(rng))),
{
    if draw_ratio(rng, 1, 2) {
        "repository"
    } else {
        "service"
    }
}

/// Draws the name of entity `i`.
fn generate_name(rng: &mut StdRng, i: u64) -> (name: String)
    ensures
        (name@, rng_state(*final(rng))) == name_draw(rng_state(*old(rng)), i),
        is_name_of(name@, i),
{
    let first: String = wordish(rng, 6);
    let second: String = wordish(rng, 6);
    let mut name: String = first.as_str().to_owned();
    name.append("-");
    name.append(second.as_str());
    name.append("-");
    push_decimal(&mut name, i);
    assert(is_word(first@) && is_word(second@));
    name
}

/// Draws an address below `base`.
fn generate_url(rng: &mut StdRng, base: &str) -> (url: String)
    ensures
        (url@, rng_state(*final(rng))) == url_draw(rng_state(*old(rng)), base@),
        is_url_below(url@, base@),
{
    let first: String = wordish(rng, 8);
    let second: String = wordish(rng, 8);
    let mut url: String = base.to_owned();
    url.append(first.as_str());
    url.append("/");
    url.append(second.as_str());
    assert(is_word(first@) && is_word(second@));
    url
}

/// Draws the three addresses.
fn generate_urls(rng: &mut StdRng) -> (urls: Vec<String>)
    ensures
        (texts(urls@), rng_state(*final(rng))) == urls_draw(rng_state(*old(rng))),
        urls_ok(texts(urls@)),
{
    let site: String = generate_url(rng, "https://example.com/");
    let api: String = generate_url(rng, "https://api.example.com/");
    let docs: String = generate_url(rng, "https://docs.example.com/");
    let mut urls: Vec<String> = Vec::new();
    urls.push(site);
    urls.push(api);
    urls.push(docs);
    assert(texts(urls@) =~= seq![site@, api@, docs@]);
    urls
}

/// Draws the permissions.
fn generate_permissions(rng: &mut StdRng) -> (permissions: Permissions)
    ensures
        (permissions, rng_state(*final(rng))) == permissions_draw(rng_state(*old(rng))),
{
    let admin: bool = draw_ratio(rng, 1, 5);
    let maintain: bool = draw_ratio(rng, 3, 10);
    let push: bool = draw_ratio(rng, 1, 2);
    let triage: bool = draw_ratio(rng, 1, 2);
    Permissions { admin, maintain, push, triage, pull: true }
}

/// Draws the counters.
fn generate_metadata(rng: &mut StdRng, languages: Vec<String>) -> (metadata: Metadata)
    requires
        3 <= languages@.len() < 10,
        forall|i: int|
            0 <= i < languages@.len() ==> is_word(#[trigger] texts(languages@)[i])
                && texts(languages@)[i].len() == 6,
    ensures
        (metadata@, rng_state(*final(rng))) == metadata_draw(
            rng_state(*old(rng)),
            texts(languages@),
        ),
        metadata_ok(metadata@),
{
    let stars: u32 = draw_u32(rng, 0, 99_999);
    let forks: u32 = draw_u32(rng, 0, 49_999);
    let watchers: u32 = draw_u32(rng, 0, 99_999);
    let issues_open: u32 = draw_u32(rng, 0, 9_999);
    let releases: u32 = draw_u32(rng, 0, 499);
    Metadata { stars, forks, watchers, issues_open, releases, languages }
}

/// Entity `i`, with the time and the identifiers given: everything else is drawn.
pub fn compose_entity(i: u64, rng: &mut StdRng, now: Timestamp, ids: &EntityIds) -> (entity: Entity)
    requires
        MIN_SECS + 1001 * DAY_SECS <= now.secs <= MAX_SECS,
        ids.contributors@.len() >= MAX_CONTRIBUTORS,
    ensures
        (entity@, rng_state(*final(rng))) == entity_draw(rng_state(*old(rng)), i, now, *ids),
        entity_ok(entity@, i, now),
{
    let created_offset: i64 = rand_between_days(rng, 1000);
    let updated_offset: i64 = rand_between_days(rng, 100);
    let owner: Owner = generate_owner(rng, ids.owner);
    let description: String = repeat_lorem(rng, 5_000, 9_000);
    let readme: String = repeat_lorem(rng, 10_000, 18_000);
    let tags: Vec<String> = many_words(rng, 40, 65);
    let topics: Vec<String> = many_words(rng, 15, 30);
    let file_count: u32 = draw_u32(rng, 20, 39);
    let files: Vec<FileMeta> = generate_files(rng, file_count);
    let contributor_count: u32 = draw_u32(rng, 5, 24);
    let contributors: Vec<Contributor> = generate_contributors(
        rng,
        &ids.contributors,
        contributor_count,
    );
    let language_count: u32 = draw_u32(rng, 3, 9);
    let languages: Vec<String> = generate_languages(rng, language_count);
    let attribute_count: u32 = draw_u32(rng, 30, 59);
    let attributes: Vec<Attribute> = generate_attributes(rng, attribute_count);
    let note_count: u32 = draw_u32(rng, 10, 29);
    let notes: Vec<String> = generate_notes(rng, note_count);
    let kind: &'static str = generate_kind(rng);
    let name: String = generate_name(rng, i);
    let urls: Vec<String> = generate_urls(rng);
    let permissions: Permissions = generate_permissions(rng);
    let metadata: Metadata = generate_metadata(rng, languages);
    let entity: Entity = Entity {
        id: ids.entity,
        kind,
        name,
        owner,
        created_at: earlier(now, created_offset),
        updated_at: earlier(now, updated_offset),
        description,
        readme,
        tags,
        topics,
        license: License {
            key: "apache-2.0",
            name: "Apache License 2.0",
            spdx_id: "Apache-2.0",
        },
        files,
        contributors,
        urls,
        permissions,
        metadata,
        extra: Extra { attributes, notes },
    };
    assert(entity@.files =~= file_views(files@));
    assert(entity@.contributors =~= contributor_views(contributors@));
    assert(entity@.extra.attributes =~= attribute_views(attributes@));
    entity
}

/// `entity` is entity `i` as drawn between the states `before` and `after`, at the time `now`, which
/// the clock showed, and with the random identifiers `ids`, each drawn for what it is for.
pub open spec fn is_generated_with(
    entity: EntityView,
    i: u64,
    before: int,
    after: int,
    now: Timestamp,
    ids: EntityIds,
) -> bool {
    &&& entity_draw(before, i, now, ids) == (entity, after)
    &&& is_clock_reading(now)
    &&& ids.all_drawn()
    &&& 0 <= now.secs <= MAX_SECS
    &&& now.nanos < 1_000_000_000
    &&& ids.contributors@.len() == MAX_CONTRIBUTORS
    &&& ids.all_v4()
    &&& entity_ok(entity, i, now)
}

/// `entity` is entity `i` as drawn between the states `before` and `after`, at some time that the
/// clock showed and with some random identifiers.
pub open spec fn is_generated(entity: EntityView, i: u64, before: int, after: int) -> bool {
    exists|now: Timestamp, ids: EntityIds|
        is_generated_with(entity, i, before, after, now, ids)
}

/// Generates entity `i` from `rng`, the clock and fresh identifiers.
pub fn generate_entity(i: u64, rng: &mut StdRng) -> (entity: Entity)
    ensures
        is_generated(entity@, i, rng_state(*old(rng)), rng_state(*final(rng))),
{
    let now: Timestamp = current_time();
    let ids: EntityIds = EntityIds::fresh(MAX_CONTRIBUTORS);
    let ghost before = rng_state(*rng);
    let entity: Entity = compose_entity(i, rng, now, &ids);
    assert(is_generated_with(entity@, i, before, rng_state(*rng), now, ids));
    entity
}

/// `entity` is entity `i` of a run with this base seed.
pub open spec fn is_entity_of_run(entity: EntityView, base_seed: u64, i: u64) -> bool {
    exists|after: int|
        is_generated(entity, i, seeded_state(entity_seed_spec(base_seed, i)), after)
}

/// Entity `i` of a run with this base seed.
pub fn entity_of_run(base_seed: u64, i: u64) -> (entity: Entity)
    ensures
        is_entity_of_run(entity@, base_seed, i),
{
    let mut rng: StdRng = entity_rng(base_seed, i);
    generate_entity(i, &mut rng)
}

/// Two entities are alike but for their identifiers, times and names.
pub open spec fn same_but_name(a: EntityView, b: EntityView) -> bool {
    &&& a.kind == b.kind
    &&& a.owner.login == b.owner.login
    &&& a.owner.name == b.owner.name
    &&& a.owner.followers == b.owner.followers
    &&& a.description == b.description
    &&& a.readme == b.readme
    &&& a.tags == b.tags
    &&& a.topics == b.topics
    &&& a.license == b.license
    &&& a.files == b.files
    &&& same_contributors(a.contributors, b.contributors)
    &&& a.urls == b.urls
    &&& a.permissions == b.permissions
    &&& a.metadata == b.metadata
    &&& a.extra == b.extra
    &&& a.created_at.secs - a.updated_at.secs == b.created_at.secs - b.updated_at.secs
}

/// Two entities are alike but for their identifiers and times.
pub open spec fn same_content(a: EntityView, b: EntityView) -> bool {
    same_but_name(a, b) && a.name == b.name
}

/// Two names differ at most in the numbers `i` and `j` that they end with.
pub open spec fn same_but_number(a: Seq<char>, i: u64, b: Seq<char>, j: u64) -> bool {
    exists|stem: Seq<char>|
        a == #[trigger] (stem + decimal(i as nat)) && b == stem + decimal(j as nat)
}

/// Two lists of contributors are alike but for the identifiers.
pub open spec fn same_contributors(a: Seq<ContributorView>, b: Seq<ContributorView>) -> bool {
    &&& a.len() == b.len()
    &&& forall|i: int|
        0 <= i < a.len() ==> (#[trigger] a[i]).login == b[i].login && a[i].commits == b[i].commits
}

proof fn lemma_contributors_ignore_ids(state: int, a: Seq<u128>, b: Seq<u128>, count: nat)
    ensures
        contributors_draw(state, a, count).1 == contributors_draw(state, b, count).1,
        same_contributors(
            contributors_draw(state, a, count).0,
            contributors_draw(state, b, count).0,
        ),
    decreases count,
{
    if count > 0 {
        lemma_contributors_ignore_ids(state, a, b, (count - 1) as nat);
    }
}

/// The number of an entity, what the clock shows and which identifiers are given decide nothing
/// else about it: drawn from one state, two entities are alike but for the numbers at the end of
/// their names, and they leave the generator in one state.
pub proof fn law_number_only_ends_name(
    state: int,
    i: u64,
    now_a: Timestamp,
    ids_a: EntityIds,
    j: u64,
    now_b: Timestamp,
    ids_b: EntityIds,
)
    ensures
        same_but_name(
            entity_draw(state, i, now_a, ids_a).0,
            entity_draw(state, j, now_b, ids_b).0,
        ),
        same_but_number(
            entity_draw(state, i, now_a, ids_a).0.name,
            i,
            entity_draw(state, j, now_b, ids_b).0.name,
            j,
        ),
        i == j ==> entity_draw(state, i, now_a, ids_a).0.name == entity_draw(
            state,
            j,
            now_b,
            ids_b,
        ).0.name,
        entity_draw(state, i, now_a, ids_a).1 == entity_draw(state, j, now_b, ids_b).1,
{
    let s1 = distance_draw(state, 1000).1;
    let s2 = distance_draw(s1, 100).1;
    let s3 = owner_draw(s2, ids_a.owner).1;
    let s4 = lorem_draw(s3, 5_000, 9_000).1;
    let s5 = lorem_draw(s4, 10_000, 18_000).1;
    let s6 = many_words_draw(s5, 40, 65).1;
    let s7 = many_words_draw(s6, 15, 30).1;
    let (file_count, s8) = uniform_draw(s7, 32, 20, 39);
    let s9 = files_draw(s8, file_count as nat).1;
    let (contributor_count, s10) = uniform_draw(s9, 32, 5, 24);
    lemma_contributors_ignore_ids(
        s10,
        ids_a.contributors@,
        ids_b.contributors@,
        contributor_count as nat,
    );
    let s11 = contributors_draw(s10, ids_a.contributors@, contributor_count as nat).1;
    let (language_count, s12) = uniform_draw(s11, 32, 3, 9);
    let s13 = languages_draw(s12, language_count as nat).1;
    let (attribute_count, s14) = uniform_draw(s13, 32, 30, 59);
    let s15 = attributes_draw(s14, attribute_count as nat).1;
    let (note_count, s16) = uniform_draw(s15, 32, 10, 29);
    let s17 = notes_draw(s16, note_count as nat).1;
    let s18 = kind_draw(s17).1;
    let (first, s19) = word_draw(s18, 6);
    let (second, s20) = word_draw(s19, 6);
    let stem = first + "-"@ + second + "-"@;
    assert(entity_draw(state, i, now_a, ids_a).0.name == stem + decimal(i as nat));
    assert(entity_draw(state, j, now_b, ids_b).0.name == stem + decimal(j as nat));
}

/// What the clock shows and which identifiers are given decides nothing else about an entity.
pub proof fn law_content_from_state(
    state: int,
    i: u64,
    now_a: Timestamp,
    ids_a: EntityIds,
    now_b: Timestamp,
    ids_b: EntityIds,
)
    ensures
        same_content(
            entity_draw(state, i, now_a, ids_a).0,
            entity_draw(state, i, now_b, ids_b).0,
        ),
        entity_draw(state, i, now_a, ids_a).1 == entity_draw(state, i, now_b, ids_b).1,
{
    law_number_only_ends_name(state, i, now_a, ids_a, i, now_b, ids_b);
}

/// A base seed makes a run reproducible: what it generates as entity `i` is alike each time, but
/// for what comes from the clock and the operating system. Even the distance between the two
/// times of the entity is the same.
pub proof fn law_seed_fixes_content(a: EntityView, b: EntityView, base_seed: u64, i: u64)
    requires
        is_entity_of_run(a, base_seed, i),
        is_entity_of_run(b, base_seed, i),
    ensures
        same_content(a, b),
{
    let state = seeded_state(entity_seed_spec(base_seed, i));
    let after_a = choose|after: int| is_generated(a, i, state, after);
    let after_b = choose|after: int| is_generated(b, i, state, after);
    let (now_a, ids_a) = choose|now: Timestamp, ids: EntityIds|
        is_generated_with(a, i, state, after_a, now, ids);
    let (now_b, ids_b) = choose|now: Timestamp, ids: EntityIds|
        is_generated_with(b, i, state, after_b, now, ids);
    law_content_from_state(state, i, now_a, ids_a, now_b, ids_b);
}

/// Names for different numbers are different, however their words were drawn: each ends with its
/// number.
pub proof fn law_names_tell_numbers(a: Seq<char>, i: u64, b: Seq<char>, j: u64)
    requires
        i != j,
        is_name_of(a, i),
        is_name_of(b, j),
    ensures
        a != b,
{
    lemma_name_has_number(a, i);
    lemma_name_has_number(b, j);
    lemma_decimal(i as nat);
    lemma_decimal(j as nat);
}

/// Entities with different numbers have different names, from whatever states they were drawn.
pub proof fn law_generated_names_distinct(
    a: EntityView,
    i: u64,
    before_a: int,
    after_a: int,
    b: EntityView,
    j: u64,
    before_b: int,
    after_b: int,
)
    requires
        i != j,
        is_generated(a, i, before_a, after_a),
        is_generated(b, j, before_b, after_b),
    ensures
        a.name != b.name,
{
    law_names_tell_numbers(a.name, i, b.name, j);
}

/// No two entities have the same name, even in different runs: each name ends with the number of
/// its entity.
pub proof fn law_entity_names_distinct(
    a: EntityView,
    b: EntityView,
    seed_a: u64,
    seed_b: u64,
    i: u64,
    j: u64,
)
    requires
        i != j,
        is_entity_of_run(a, seed_a, i),
        is_entity_of_run(b, seed_b, j),
    ensures
        a.name != b.name,
{
    law_names_tell_numbers(a.name, i, b.name, j);
}

proof fn lemma_name_has_number(name: Seq<char>, i: u64)
    requires
        is_name_of(name, i),
    ensures
        name.skip(14) == decimal(i as nat),
{
    reveal_strlit("-");
    let (first, second) = choose|first: Seq<char>, second: Seq<char>|
        {
            &&& #[trigger] is_word(first)
            &&& #[trigger] is_word(second)
            &&& first.len() == 6
            &&& second.len() == 6
            &&& name == first + "-"@ + second + "-"@ + decimal(i as nat)
        };
    assert(name.skip(14) =~= decimal(i as nat));
}

// How the draws hang together

/// An entity is seen as its fields are.
pub proof fn law_entity_seen_whole(e: Entity)
    ensures
        e@.id == e.id,
        e@.kind == e.kind@,
        e@.name == e.name@,
        e@.owner == e.owner@,
        e@.created_at == e.created_at@,
        e@.updated_at == e.updated_at@,
        e@.description == e.description@,
        e@.readme == e.readme@,
        e@.tags == texts(e.tags@),
        e@.topics == texts(e.topics@),
        e@.license == e.license@,
        e@.files.len() == e.files@.len(),
        forall|k: int| 0 <= k < e.files@.len() ==> #[trigger] e@.files[k] == e.files@[k]@,
        e@.contributors.len() == e.contributors@.len(),
        forall|k: int|
            0 <= k < e.contributors@.len() ==> #[trigger] e@.contributors[k] == e.contributors@[k]@,
        e@.urls == texts(e.urls@),
        e@.permissions == e.permissions,
        e@.metadata == e.metadata@,
        e@.extra == e.extra@,
{
}

/// The parts of an entity are seen as their fields are.
pub proof fn law_parts_seen_whole(
    owner: Owner,
    license: License,
    file: FileMeta,
    contributor: Contributor,
    metadata: Metadata,
    extra: Extra,
    attribute: Attribute,
)
    ensures
        owner@ == (OwnerView {
            id: owner.id,
            login: owner.login@,
            name: owner.name@,
            followers: owner.followers,
        }),
        license@ == (LicenseView {
            key: license.key@,
            name: license.name@,
            spdx_id: license.spdx_id@,
        }),
        file@ == (FileMetaView {
            path: file.path@,
            size: file.size,
            checksum: file.checksum@,
            preview: file.preview@,
        }),
        contributor@ == (ContributorView {
            id: contributor.id,
            login: contributor.login@,
            commits: contributor.commits,
        }),
        metadata@ == (MetadataView {
            stars: metadata.stars,
            forks: metadata.forks,
            watchers: metadata.watchers,
            issues_open: metadata.issues_open,
            releases: metadata.releases,
            languages: texts(metadata.languages@),
        }),
        extra@.notes == texts(extra.notes@),
        extra@.attributes.len() == extra.attributes@.len(),
        forall|k: int|
            0 <= k < extra.attributes@.len() ==> #[trigger] extra@.attributes[k]
                == extra.attributes@[k]@,
        attribute@ == (AttributeView { key: attribute.key@, value: attribute.value@ }),
{
}

/// An owner keeps the identifier given; of the rest, the login is drawn first, then the name, and
/// then the followers.
pub proof fn law_owner_drawn(state: int, id: u128)
    ensures
        ({
            let (owner, after) = owner_draw(state, id);
            let s1 = word_draw(state, 12).1;
            let s2 = words_draw(s1, 2, 5).1;
            let followers = uniform_draw(s2, 32, 0, 49_999);
            &&& owner.id == id
            &&& owner.login == word_draw(state, 12).0
            &&& owner.name == words_draw(s1, 2, 5).0
            &&& 0 <= followers.0 < 50_000 ==> owner.followers == followers.0
            &&& after == followers.1
        }),
{
}

/// A file has a path of two drawn words below `src/`, and then a drawn size, checksum and preview.
pub proof fn law_file_drawn(state: int)
    ensures
        ({
            let (file, after) = file_draw(state);
            let dir = word_draw(state, 6);
            let name = word_draw(dir.1, 8);
            let size = uniform_draw(name.1, 64, 200, 9_999);
            let checksum = hex_draw(size.1, 40);
            let preview = words_draw(checksum.1, 40, 80);
            &&& file.path == "src/"@ + dir.0 + "/"@ + name.0 + ".rs"@
            &&& 200 <= size.0 < 10_000 ==> file.size == size.0
            &&& (file.checksum, file.preview) == (checksum.0, preview.0)
            &&& after == preview.1
        }),
{
}

/// Files are drawn one after the other: `a + b` are `a` and then `b` more.
pub proof fn law_files_drawn_one_by_one(state: int, a: nat, b: nat)
    ensures
        files_draw(state, 0) == (Seq::<FileMetaView>::empty(), state),
        files_draw(state, 1) == (seq![file_draw(state).0], file_draw(state).1),
        ({
            let first = files_draw(state, a);
            let second = files_draw(first.1, b);
            files_draw(state, a + b) == (first.0 + second.0, second.1)
        }),
        files_draw(state, a).0.len() == a,
    decreases b, a,
{
    assert(files_draw(state, 0) == (Seq::<FileMetaView>::empty(), state));
    assert(Seq::<FileMetaView>::empty().push(file_draw(state).0) =~= seq![file_draw(state).0]);
    reveal_with_fuel(files_draw, 2);
    let first = files_draw(state, a);
    if b == 0 {
        assert(first.0 + Seq::<FileMetaView>::empty() =~= first.0);
        if a > 0 {
            law_files_drawn_one_by_one(state, (a - 1) as nat, 0);
        }
    } else {
        law_files_drawn_one_by_one(state, a, (b - 1) as nat);
        let part = files_draw(first.1, (b - 1) as nat);
        let file = file_draw(part.1).0;
        assert((first.0 + part.0).push(file) =~= first.0 + part.0.push(file));
        assert((a + b - 1) as nat == a + (b - 1) as nat);
    }
}

/// A contributor keeps the identifier given; the login is drawn first, and then the commits.
pub proof fn law_contributor_drawn(state: int, id: u128)
    ensures
        ({
            let (contributor, after) = contributor_draw(state, id);
            let login = word_draw(state, 10);
            let commits = uniform_draw(login.1, 32, 1, 9_999);
            &&& contributor.id == id
            &&& contributor.login == login.0
            &&& 1 <= commits.0 < 10_000 ==> contributor.commits == commits.0
            &&& after == commits.1
        }),
{
}

/// Contributors are drawn one after the other, each with the identifier of its own number: `a + b`
/// are `a` and then `b` more with the identifiers that follow.
pub proof fn law_contributors_drawn_one_by_one(state: int, ids: Seq<u128>, a: nat, b: nat)
    requires
        a + b <= ids.len(),
    ensures
        contributors_draw(state, ids, 0) == (Seq::<ContributorView>::empty(), state),
        ids.len() > 0 ==> contributors_draw(state, ids, 1) == (
            seq![contributor_draw(state, ids[0]).0],
            contributor_draw(state, ids[0]).1,
        ),
        ({
            let first = contributors_draw(state, ids, a);
            let second = contributors_draw(first.1, ids.skip(a as int), b);
            contributors_draw(state, ids, a + b) == (first.0 + second.0, second.1)
        }),
        contributors_draw(state, ids, a).0.len() == a,
        forall|k: int|
            0 <= k < a ==> (#[trigger] contributors_draw(state, ids, a).0[k]).id == ids[k],
    decreases b, a,
{
    assert(contributors_draw(state, ids, 0) == (Seq::<ContributorView>::empty(), state));
    if ids.len() > 0 {
        let one = contributor_draw(state, ids[0]).0;
        assert(Seq::<ContributorView>::empty().push(one) =~= seq![one]);
    }
    reveal_with_fuel(contributors_draw, 2);
    let first = contributors_draw(state, ids, a);
    if b == 0 {
        assert(first.0 + Seq::<ContributorView>::empty() =~= first.0);
        if a > 0 {
            law_contributors_drawn_one_by_one(state, ids, (a - 1) as nat, 0);
        }
    } else {
        law_contributors_drawn_one_by_one(state, ids, a, (b - 1) as nat);
        let rest = ids.skip(a as int);
        let part = contributors_draw(first.1, rest, (b - 1) as nat);
        let contributor = contributor_draw(part.1, rest[b - 1]).0;
        assert(rest[b - 1] == ids[a + b - 1]);
        assert((first.0 + part.0).push(contributor) =~= first.0 + part.0.push(contributor));
        assert((a + b - 1) as nat == a + (b - 1) as nat);
    }
}

/// Languages are drawn one after the other, each a word of 6 characters.
pub proof fn law_languages_drawn_one_by_one(state: int, a: nat, b: nat)
    ensures
        languages_draw(state, 0) == (Seq::<Seq<char>>::empty(), state),
        languages_draw(state, 1) == (seq![word_draw(state, 6).0], word_draw(state, 6).1),
        ({
            let first = languages_draw(state, a);
            let second = languages_draw(first.1, b);
            languages_draw(state, a + b) == (first.0 + second.0, second.1)
        }),
        languages_draw(state, a).0.len() == a,
    decreases b, a,
{
    assert(languages_draw(state, 0) == (Seq::<Seq<char>>::empty(), state));
    assert(Seq::<Seq<char>>::empty().push(word_draw(state, 6).0) =~= seq![word_draw(state, 6).0]);
    reveal_with_fuel(languages_draw, 2);
    let first = languages_draw(state, a);
    if b == 0 {
        assert(first.0 + Seq::<Seq<char>>::empty() =~= first.0);
        if a > 0 {
            law_languages_drawn_one_by_one(state, (a - 1) as nat, 0);
        }
    } else {
        law_languages_drawn_one_by_one(state, a, (b - 1) as nat);
        let part = languages_draw(first.1, (b - 1) as nat);
        let word = word_draw(part.1, 6).0;
        assert((first.0 + part.0).push(word) =~= first.0 + part.0.push(word));
        assert((a + b - 1) as nat == a + (b - 1) as nat);
    }
}

/// Attributes are drawn one after the other, each a key of 1 to 3 words and then a value of 3 to 8.
pub proof fn law_attributes_drawn_one_by_one(state: int, a: nat, b: nat)
    ensures
        attributes_draw(state, 0) == (Seq::<AttributeView>::empty(), state),
        ({
            let key = words_draw(state, 1, 3);
            let value = words_draw(key.1, 3, 8);
            attributes_draw(state, 1) == (
                seq![AttributeView { key: key.0, value: value.0 }],
                value.1,
            )
        }),
        ({
            let first = attributes_draw(state, a);
            let second = attributes_draw(first.1, b);
            attributes_draw(state, a + b) == (first.0 + second.0, second.1)
        }),
        attributes_draw(state, a).0.len() == a,
    decreases b, a,
{
    let key = words_draw(state, 1, 3);
    let one = AttributeView { key: key.0, value: words_draw(key.1, 3, 8).0 };
    assert(attributes_draw(state, 0) == (Seq::<AttributeView>::empty(), state));
    assert(Seq::<AttributeView>::empty().push(one) =~= seq![one]);
    reveal_with_fuel(attributes_draw, 2);
    let first = attributes_draw(state, a);
    if b == 0 {
        assert(first.0 + Seq::<AttributeView>::empty() =~= first.0);
        if a > 0 {
            law_attributes_drawn_one_by_one(state, (a - 1) as nat, 0);
        }
    } else {
        law_attributes_drawn_one_by_one(state, a, (b - 1) as nat);
        let part = attributes_draw(first.1, (b - 1) as nat);
        let k = words_draw(part.1, 1, 3);
        let attribute = AttributeView { key: k.0, value: words_draw(k.1, 3, 8).0 };
        assert((first.0 + part.0).push(attribute) =~= first.0 + part.0.push(attribute));
        assert((a + b - 1) as nat == a + (b - 1) as nat);
    }
}

/// Notes are drawn one after the other, each prose of 200 to 800 characters.
pub proof fn law_notes_drawn_one_by_one(state: int, a: nat, b: nat)
    ensures
        notes_draw(state, 0) == (Seq::<Seq<char>>::empty(), state),
        notes_draw(state, 1) == (
            seq![lorem_draw(state, 200, 800).0],
            lorem_draw(state, 200, 800).1,
        ),
        ({
            let first = notes_draw(state, a);
            let second = notes_draw(first.1, b);
            notes_draw(state, a + b) == (first.0 + second.0, second.1)
        }),
        notes_draw(state, a).0.len() == a,
    decreases b, a,
{
    let one = lorem_draw(state, 200, 800).0;
    assert(notes_draw(state, 0) == (Seq::<Seq<char>>::empty(), state));
    assert(Seq::<Seq<char>>::empty().push(one) =~= seq![one]);
    reveal_with_fuel(notes_draw, 2);
    let first = notes_draw(state, a);
    if b == 0 {
        assert(first.0 + Seq::<Seq<char>>::empty() =~= first.0);
        if a > 0 {
            law_notes_drawn_one_by_one(state, (a - 1) as nat, 0);
        }
    } else {
        law_notes_drawn_one_by_one(state, a, (b - 1) as nat);
        let part = notes_draw(first.1, (b - 1) as nat);
        let note = lorem_draw(part.1, 200, 800).0;
        assert((first.0 + part.0).push(note) =~= first.0 + part.0.push(note));
        assert((a + b - 1) as nat == a + (b - 1) as nat);
    }
}

/// The kind is decided by one even chance: `repository` where it comes true, `service` where not.
pub proof fn law_kind_drawn(state: int)
    ensures
        ratio_draw(state, 1, 2).0 <==> kind_draw(state).0 == "repository"@,
        !ratio_draw(state, 1, 2).0 <==> kind_draw(state).0 == "service"@,
        kind_draw(state).1 == ratio_draw(state, 1, 2).1,
{
    reveal_strlit("repository");
    reveal_strlit("service");
    assert("repository"@.len() != "service"@.len());
}

/// A name is two drawn words and the number of the entity in digits, with a `-` after each word.
pub proof fn law_name_drawn(state: int, i: u64)
    ensures
        ({
            let first = word_draw(state, 6);
            let second = word_draw(first.1, 6);
            let name = name_draw(state, i);
            &&& name.1 == second.1
            &&& exists|numeral: Seq<char>|
                #[trigger] is_numeral(numeral, i as int) && name.0 == first.0 + "-"@ + second.0
                    + "-"@ + numeral
        }),
{
    law_decimal_reads_back(i as nat);
}

/// The three addresses are drawn one after the other, each two words below its host.
pub proof fn law_urls_drawn(state: int)
    ensures
        ({
            let a = word_draw(state, 8);
            let b = word_draw(a.1, 8);
            let c = word_draw(b.1, 8);
            let d = word_draw(c.1, 8);
            let e = word_draw(d.1, 8);
            let f = word_draw(e.1, 8);
            let urls = urls_draw(state);
            &&& urls.0.len() == 3
            &&& urls.0[0] == "https://example.com/"@ + a.0 + "/"@ + b.0
            &&& urls.0[1] == "https://api.example.com/"@ + c.0 + "/"@ + d.0
            &&& urls.0[2] == "https://docs.example.com/"@ + e.0 + "/"@ + f.0
            &&& urls.1 == f.1
        }),
{
}

/// Each permission is a chance of its own, in this order; pulling is always permitted.
pub proof fn law_permissions_drawn(state: int)
    ensures
        ({
            let admin = ratio_draw(state, 1, 5);
            let maintain = ratio_draw(admin.1, 3, 10);
            let push = ratio_draw(maintain.1, 1, 2);
            let triage = ratio_draw(push.1, 1, 2);
            let (permissions, after) = permissions_draw(state);
            &&& permissions.admin == admin.0
            &&& permissions.maintain == maintain.0
            &&& permissions.push == push.0
            &&& permissions.triage == triage.0
            &&& permissions.pull
            &&& after == triage.1
        }),
{
}

/// Each counter is a draw of its own, in this order; the languages are kept.
pub proof fn law_metadata_drawn(state: int, languages: Seq<Seq<char>>)
    ensures
        ({
            let stars = uniform_draw(state, 32, 0, 99_999);
            let forks = uniform_draw(stars.1, 32, 0, 49_999);
            let watchers = uniform_draw(forks.1, 32, 0, 99_999);
            let issues = uniform_draw(watchers.1, 32, 0, 9_999);
            let releases = uniform_draw(issues.1, 32, 0, 499);
            let (metadata, after) = metadata_draw(state, languages);
            &&& 0 <= stars.0 < 100_000 ==> metadata.stars == stars.0
            &&& 0 <= forks.0 < 50_000 ==> metadata.forks == forks.0
            &&& 0 <= watchers.0 < 100_000 ==> metadata.watchers == watchers.0
            &&& 0 <= issues.0 < 10_000 ==> metadata.issues_open == issues.0
            &&& 0 <= releases.0 < 500 ==> metadata.releases == releases.0
            &&& metadata.languages == languages
            &&& after == releases.1
        }),
{
}

/// The parts of an entity are drawn one after the other: the generator passes through states
/// `s[0]`, `s[1]` and so on, and each part is drawn from one of them and leaves the next. The
/// number of parts of a kind is drawn before them. What is not drawn is given, or the license.
pub proof fn law_parts_drawn_in_order(state: int, i: u64, now: Timestamp, ids: EntityIds)
    ensures
        ({
            let (e, after) = entity_draw(state, i, now, ids);
            exists|s: Seq<int>|
                {
                    &&& #[trigger] s.len() == 23
                    &&& s[0] == state
                    &&& (now.secs - e.created_at.secs, s[1]) == distance_draw(s[0], 1000)
                    &&& (now.secs - e.updated_at.secs, s[2]) == distance_draw(s[1], 100)
                    &&& (e.owner, s[3]) == owner_draw(s[2], ids.owner)
                    &&& (e.description, s[4]) == lorem_draw(s[3], 5_000, 9_000)
                    &&& (e.readme, s[5]) == lorem_draw(s[4], 10_000, 18_000)
                    &&& (e.tags, s[6]) == many_words_draw(s[5], 40, 65)
                    &&& (e.topics, s[7]) == many_words_draw(s[6], 15, 30)
                    &&& s[8] == uniform_draw(s[7], 32, 20, 39).1
                    &&& (e.files, s[9]) == files_draw(s[8], uniform_draw(s[7], 32, 20, 39).0 as nat)
                    &&& s[10] == uniform_draw(s[9], 32, 5, 24).1
                    &&& (e.contributors, s[11]) == contributors_draw(
                        s[10],
                        ids.contributors@,
                        uniform_draw(s[9], 32, 5, 24).0 as nat,
                    )
                    &&& s[12] == uniform_draw(s[11], 32, 3, 9).1
                    &&& (e.metadata.languages, s[13]) == languages_draw(
                        s[12],
                        uniform_draw(s[11], 32, 3, 9).0 as nat,
                    )
                    &&& s[14] == uniform_draw(s[13], 32, 30, 59).1
                    &&& (e.extra.attributes, s[15]) == attributes_draw(
                        s[14],
                        uniform_draw(s[13], 32, 30, 59).0 as nat,
                    )
                    &&& s[16] == uniform_draw(s[15], 32, 10, 29).1
                    &&& (e.extra.notes, s[17]) == notes_draw(
                        s[16],
                        uniform_draw(s[15], 32, 10, 29).0 as nat,
                    )
                    &&& (e.kind, s[18]) == kind_draw(s[17])
                    &&& (e.name, s[19]) == name_draw(s[18], i)
                    &&& (e.urls, s[20]) == urls_draw(s[19])
                    &&& (e.permissions, s[21]) == permissions_draw(s[20])
                    &&& (e.metadata, s[22]) == metadata_draw(s[21], e.metadata.languages)
                    &&& s[22] == after
                }
        }),
        ({
            let e = entity_draw(state, i, now, ids).0;
            &&& e.id == ids.entity
            &&& e.created_at.nanos == now.nanos
            &&& e.updated_at.nanos == now.nanos
            &&& e.license.key == "apache-2.0"@
            &&& e.license.name == "Apache License 2.0"@
            &&& e.license.spdx_id == "Apache-2.0"@
        }),
{
    let s1 = distance_draw(state, 1000).1;
    let s2 = distance_draw(s1, 100).1;
    let s3 = owner_draw(s2, ids.owner).1;
    let s4 = lorem_draw(s3, 5_000, 9_000).1;
    let s5 = lorem_draw(s4, 10_000, 18_000).1;
    let s6 = many_words_draw(s5, 40, 65).1;
    let s7 = many_words_draw(s6, 15, 30).1;
    let (file_count, s8) = uniform_draw(s7, 32, 20, 39);
    let s9 = files_draw(s8, file_count as nat).1;
    let (contributor_count, s10) = uniform_draw(s9, 32, 5, 24);
    let s11 = contributors_draw(s10, ids.contributors@, contributor_count as nat).1;
    let (language_count, s12) = uniform_draw(s11, 32, 3, 9);
    let s13 = languages_draw(s12, language_count as nat).1;
    let (attribute_count, s14) = uniform_draw(s13, 32, 30, 59);
    let s15 = attributes_draw(s14, attribute_count as nat).1;
    let (note_count, s16) = uniform_draw(s15, 32, 10, 29);
    let s17 = notes_draw(s16, note_count as nat).1;
    let s18 = kind_draw(s17).1;
    let s19 = name_draw(s18, i).1;
    let s20 = urls_draw(s19).1;
    let s21 = permissions_draw(s20).1;
    let s22 = entity_draw(state, i, now, ids).1;
    let s = seq![
        state,
        s1,
        s2,
        s3,
        s4,
        s5,
        s6,
        s7,
        s8,
        s9,
        s10,
        s11,
        s12,
        s13,
        s14,
        s15,
        s16,
        s17,
        s18,
        s19,
        s20,
        s21,
        s22,
    ];
    assert(s.len() == 23);
}

/// A generated entity is what is drawn for its number from the state that the generator was in, at a
/// time that the clock showed and with identifiers drawn for it; and the generator is left as the
/// drawing leaves it.
pub proof fn law_generated_is_drawn(e: EntityView, i: u64, before: int, after: int)
    requires
        is_generated(e, i, before, after),
    ensures
        exists|now: Timestamp, ids: EntityIds|
            {
                &&& #[trigger] entity_draw(before, i, now, ids) == (e, after)
                &&& is_clock_reading(now)
                &&& call_ensures(draw_id, (IdFor::Entity,), ids.entity)
                &&& call_ensures(draw_id, (IdFor::Owner,), ids.owner)
                &&& forall|k: int|
                    0 <= k < ids.contributors@.len() ==> call_ensures(
                        draw_id,
                        (IdFor::Contributor(k as usize),),
                        #[trigger] ids.contributors@[k],
                    )
            },
{
    let (now, ids) = choose|now: Timestamp, ids: EntityIds|
        is_generated_with(e, i, before, after, now, ids);
    assert forall|k: int| 0 <= k < ids.contributors@.len() implies call_ensures(
        draw_id,
        (IdFor::Contributor(k as usize),),
        #[trigger] ids.contributors@[k],
    ) by {
        law_ids_drawn_separately(ids, k);
    }
    law_ids_drawn_separately(ids, 0);
    assert(entity_draw(before, i, now, ids) == (e, after));
}

/// An entity is dated by the clock: there is a time that the clock showed when it was generated,
/// and its two times lie before that by the days and seconds drawn first, up to 1000 days and a part
/// of a day for the one, and up to 100 for the other.
pub proof fn law_entity_dated_by_clock(e: EntityView, i: u64, before: int, after: int)
    requires
        is_generated(e, i, before, after),
    ensures
        exists|now: Timestamp|
            {
                &&& #[trigger] is_clock_reading(now)
                &&& now.secs - 1001 * 86_400 < e.created_at.secs <= now.secs
                &&& now.secs - 101 * 86_400 < e.updated_at.secs <= now.secs
                &&& e.created_at.nanos == now.nanos
                &&& e.updated_at.nanos == now.nanos
                &&& now.secs - e.created_at.secs == uniform_draw(before, 64, 0, 1000).0 * 86_400
                    + uniform_draw(uniform_draw(before, 64, 0, 1000).1, 32, 0, 86_399).0
            },
{
    let (now, ids) = choose|now: Timestamp, ids: EntityIds|
        is_generated_with(e, i, before, after, now, ids);
    assert(is_clock_reading(now));
}

/// The same of every entity of a run, whatever the base seed: the seed does not date it.
pub proof fn law_run_dated_by_clock(e: EntityView, base_seed: u64, i: u64)
    requires
        is_entity_of_run(e, base_seed, i),
    ensures
        exists|now: Timestamp|
            {
                &&& #[trigger] is_clock_reading(now)
                &&& now.secs - 1001 * 86_400 < e.created_at.secs <= now.secs
                &&& now.secs - 101 * 86_400 < e.updated_at.secs <= now.secs
                &&& e.created_at.nanos == now.nanos
                &&& e.updated_at.nanos == now.nanos
            },
{
    let state = seeded_state(entity_seed_spec(base_seed, i));
    let after = choose|after: int| is_generated(e, i, state, after);
    law_entity_dated_by_clock(e, i, state, after);
}

/// What a run generates as entity `i` is drawn from a generator seeded with the mixed base seed,
/// combined with the number and mixed again.
pub proof fn law_run_seeds_each_entity(e: EntityView, base_seed: u64, i: u64)
    requires
        is_entity_of_run(e, base_seed, i),
    ensures
        exists|after: int|
            #[trigger] is_generated(e, i, seeded_state(mixed(mixed(base_seed) ^ i)), after),
{
}

/// The identifiers of an entity, its owner and its contributors are each from a draw of their own.
pub proof fn law_entity_ids_drawn_separately(e: EntityView, i: u64, before: int, after: int)
    requires
        is_generated(e, i, before, after),
    ensures
        call_ensures(draw_id, (IdFor::Entity,), e.id),
        call_ensures(draw_id, (IdFor::Owner,), e.owner.id),
        forall|k: int|
            0 <= k < e.contributors.len() ==> call_ensures(
                draw_id,
                (IdFor::Contributor(k as usize),),
                (#[trigger] e.contributors[k]).id,
            ),
{
    let (now, ids) = choose|now: Timestamp, ids: EntityIds|
        is_generated_with(e, i, before, after, now, ids);
    law_ids_drawn_separately(ids, 0);
    let s1 = distance_draw(before, 1000).1;
    let s2 = distance_draw(s1, 100).1;
    let s3 = owner_draw(s2, ids.owner).1;
    let s4 = lorem_draw(s3, 5_000, 9_000).1;
    let s5 = lorem_draw(s4, 10_000, 18_000).1;
    let s6 = many_words_draw(s5, 40, 65).1;
    let s7 = many_words_draw(s6, 15, 30).1;
    let (file_count, s8) = uniform_draw(s7, 32, 20, 39);
    let s9 = files_draw(s8, file_count as nat).1;
    let (count, s10) = uniform_draw(s9, 32, 5, 24);
    assert(e.contributors == contributors_draw(s10, ids.contributors@, count as nat).0);
    lemma_contributors_keep_ids(s10, ids.contributors@, count as nat);
    assert forall|k: int| 0 <= k < e.contributors.len() implies call_ensures(
        draw_id,
        (IdFor::Contributor(k as usize),),
        (#[trigger] e.contributors[k]).id,
    ) by {
        law_ids_drawn_separately(ids, k);
    }
}

proof fn lemma_contributors_keep_ids(state: int, ids: Seq<u128>, count: nat)
    ensures
        contributors_draw(state, ids, count).0.len() == count,
        forall|k: int|
            0 <= k < count ==> (#[trigger] contributors_draw(state, ids, count).0[k]).id == ids[k],
    decreases count,
{
    if count > 0 {
        lemma_contributors_keep_ids(state, ids, (count - 1) as nat);
    }
}

/// Unless a draw repeats another, the identifiers of an entity, its owner and its contributors are
/// all different.
pub proof fn law_entity_ids_distinct(e: EntityView, i: u64, before: int, after: int)
    requires
        is_generated(e, i, before, after),
        draws_do_not_repeat(),
    ensures
        e.id != e.owner.id,
        forall|k: int|
            0 <= k < e.contributors.len() ==> (#[trigger] e.contributors[k]).id != e.id
                && e.contributors[k].id != e.owner.id,
        forall|j: int, k: int|
            0 <= j < k < e.contributors.len() ==> (#[trigger] e.contributors[j]).id != (
            #[trigger] e.contributors[k]).id,
{
    law_entity_ids_drawn_separately(e, i, before, after);
    assert forall|j: int, k: int| 0 <= j < k < e.contributors.len() implies (
    #[trigger] e.contributors[j]).id != (#[trigger] e.contributors[k]).id by {
        assert(IdFor::Contributor(j as usize) != IdFor::Contributor(k as usize));
    }
}

/// The description, the readme and the notes of an entity are prose of the lengths drawn for them,
/// and so of every character.
pub proof fn law_entity_texts_are_prose(e: EntityView, i: u64, before: int, after: int)
    requires
        is_generated(e, i, before, after),
    ensures
        is_prose(e.description),
        5_000 <= e.description.len() <= 9_000,
        is_prose(e.readme),
        10_000 <= e.readme.len() <= 18_000,
        forall|k: int|
            0 <= k < e.extra.notes.len() ==> is_prose(#[trigger] e.extra.notes[k]) && 200
                <= e.extra.notes[k].len() <= 800,
{
}

} // verus!
