//! One shard's text: a line of JSON for each element.
use serde_json::Value;
use vstd::prelude::*;

use crate::assembly::concatenated;
use crate::dispatch::{
    dealt, dealt_of_object, law_dealt_in_turn, lemma_members_countable, members_countable, place,
};

verus! {

/// `serde_json::Value`, an element of the array.
#[verifier::external_type_specification]
#[verifier::external_body]
pub struct ExValue(Value);

/// `serde_json::Error`, why a value could not be written as JSON.
#[verifier::external_type_specification]
#[verifier::external_body]
pub struct ExJsonError(serde_json::Error);

/// The byte that ends a line.
pub const NEWLINE: u8 = 10;

/// The JSON text that `serde_json::to_writer` writes for a value.
pub uninterp spec fn json_text(value: Value) -> Seq<u8>;

/// `text` is not empty and has no line break.
pub open spec fn fits_a_line(text: Seq<u8>) -> bool {
    text.len() > 0 && !text.contains(NEWLINE)
}

/// `serde_json::to_writer` into memory: appends the compact JSON text of the value. It always
/// succeeds: the keys of a `Value` are strings, its numbers can all be written, and memory takes
/// whatever is written to it. Which text it is is left to the name `json_text`; it is never empty,
/// and it holds no line break, since control characters in strings are escaped and nothing is
/// written between tokens. The call descends into nested values, so it takes stack in proportion
/// to their depth, which the parser limits.
#[verifier::external_body]
fn append_json(bytes: &mut Vec<u8>, value: &Value) -> (r: Result<(), serde_json::Error>)
    ensures
        r is Ok,
        final(bytes)@ == old(bytes)@ + json_text(*value),
        fits_a_line(final(bytes)@.skip(old(bytes)@.len() as int)),
{
    serde_json::to_writer(bytes, value)
}

/// Why a shard could not be written.
#[derive(Debug, PartialEq, Eq)]
pub enum LineError {
    /// An element could not be written as JSON.
    NotSerialized,
}

impl LineError {
    /// The message for the error.
    pub open spec fn text(self) -> Seq<char> {
        "failed to serialize JSON element"@
    }

    /// The message for the error.
    pub fn message(&self) -> (text: String)
        ensures
            text@ == self.text(),
            text@ == "failed to serialize JSON element"@,
    {
        "failed to serialize JSON element".to_owned()
    }
}

/// The line for a text.
pub open spec fn line_of(text: Seq<u8>) -> Seq<u8> {
    text.push(NEWLINE)
}

/// Ends a text with a line break.
pub fn end_line(text: Vec<u8>) -> (line: Vec<u8>)
    ensures
        line@ == line_of(text@),
        line@ == text@.push(10),
{
    let mut line: Vec<u8> = text;
    line.push(NEWLINE);
    line
}

/// A shard that is being written, with the number of its lines so far.
#[derive(Debug)]
pub struct ShardLines {
    count: u64,
}

impl ShardLines {
    /// How many lines there are.
    pub closed spec fn count(&self) -> u64 {
        self.count
    }

    /// A shard without lines.
    pub fn new() -> (r: ShardLines)
        ensures
            r.count() == 0,
    {
        ShardLines { count: 0 }
    }

    /// The line for the next element: its JSON text on one line, line break included. Every
    /// element has one.
    pub fn next_line(&mut self, value: &Value) -> (r: Result<Vec<u8>, LineError>)
        requires
            old(self).count() < u64::MAX,
        ensures
            r is Ok,
            r->Ok_0@ == line_of(json_text(*value)),
            r->Ok_0@ == json_text(*value).push(10),
            fits_a_line(json_text(*value)),
            final(self).count() == old(self).count() + 1,
    {
        let mut text: Vec<u8> = Vec::new();
        match append_json(&mut text, value) {
            Ok(_) => {
                assert(text@ =~= json_text(*value));
                assert(text@.skip(0) =~= text@);
                self.count = self.count + 1;
                Ok(end_line(text))
            },
            Err(_) => Err(LineError::NotSerialized),
        }
    }

    /// How many lines were written.
    pub fn total(&self) -> (total: u64)
        ensures
            total == self.count(),
    {
        self.count
    }
}

/// The text of a shard with these lines.
pub open spec fn ndjson(texts: Seq<Seq<u8>>) -> Seq<u8>
    decreases texts.len(),
{
    if texts.len() == 0 {
        Seq::empty()
    } else {
        line_of(texts[0]) + ndjson(texts.drop_first())
    }
}

/// The lines of a text, as a reader sees them: what stands before each line break, and what is
/// left after the last.
pub open spec fn lines(bytes: Seq<u8>) -> Seq<Seq<u8>>
    decreases bytes.len(),
{
    if bytes.len() == 0 {
        Seq::empty()
    } else {
        let rest = lines(bytes.drop_first());
        if bytes[0] == NEWLINE {
            seq![Seq::<u8>::empty()] + rest
        } else if rest.len() == 0 {
            seq![seq![bytes[0]]]
        } else {
            seq![seq![bytes[0]] + rest[0]] + rest.drop_first()
        }
    }
}

proof fn lemma_first_line(text: Seq<u8>, rest: Seq<u8>)
    requires
        !text.contains(NEWLINE),
    ensures
        lines(line_of(text) + rest) == seq![text] + lines(rest),
    decreases text.len(),
{
    let bytes = line_of(text) + rest;
    if text.len() == 0 {
        assert(bytes.drop_first() =~= rest);
        assert(text =~= Seq::<u8>::empty());
    } else {
        let tail = text.drop_first();
        assert(!tail.contains(NEWLINE)) by {
            assert forall|i: int| 0 <= i < tail.len() implies tail[i] != NEWLINE by {
                assert(tail[i] == text[i + 1]);
                assert(text.contains(text[i + 1]));
            }
        }
        assert(text.contains(text[0]));
        lemma_first_line(tail, rest);
        assert(bytes.drop_first() =~= line_of(tail) + rest);
        let after = lines(bytes.drop_first());
        assert(after == seq![tail] + lines(rest));
        assert(after[0] == tail);
        assert(after.drop_first() =~= lines(rest));
        assert(seq![text[0]] + tail =~= text);
    }
}

/// Reading a shard line by line gives back the texts that were written to it, each as one line.
pub proof fn law_lines_read_back(texts: Seq<Seq<u8>>)
    requires
        forall|i: int| 0 <= i < texts.len() ==> fits_a_line(#[trigger] texts[i]),
    ensures
        lines(ndjson(texts)) == texts,
    decreases texts.len(),
{
    if texts.len() > 0 {
        let rest = texts.drop_first();
        assert forall|i: int| 0 <= i < rest.len() implies fits_a_line(#[trigger] rest[i]) by {
            assert(rest[i] == texts[i + 1]);
        }
        assert(fits_a_line(texts[0]));
        law_lines_read_back(rest);
        lemma_first_line(texts[0], ndjson(rest));
        assert(seq![texts[0]] + rest =~= texts);
    } else {
        assert(lines(ndjson(texts)) =~= texts);
    }
}

/// Writing one more line appends it to the text of the shard.
pub proof fn law_line_appended(texts: Seq<Seq<u8>>, text: Seq<u8>)
    ensures
        ndjson(texts.push(text)) == ndjson(texts) + line_of(text),
    decreases texts.len(),
{
    let all = texts.push(text);
    if texts.len() == 0 {
        assert(all.drop_first() =~= Seq::<Seq<u8>>::empty());
        assert(ndjson(all.drop_first()) =~= Seq::<u8>::empty());
        assert(ndjson(all) =~= ndjson(texts) + line_of(text));
    } else {
        law_line_appended(texts.drop_first(), text);
        assert(all.drop_first() =~= texts.drop_first().push(text));
        assert(ndjson(all) =~= ndjson(texts) + line_of(text));
    }
}

/// The text of a shard is its lines one after the other: each is what it holds and a line feed.
pub proof fn law_lines_add_up(a: Seq<Seq<u8>>, b: Seq<Seq<u8>>, text: Seq<u8>)
    ensures
        ndjson(Seq::empty()) == Seq::<u8>::empty(),
        ndjson(seq![text]) == text.push(10),
        ndjson(a + b) == ndjson(a) + ndjson(b),
    decreases a.len(),
{
    reveal_with_fuel(ndjson, 2);
    assert(seq![text].drop_first() =~= Seq::<Seq<u8>>::empty());
    assert(ndjson(seq![text]) =~= text.push(10));
    if a.len() == 0 {
        assert(a + b =~= b);
        assert(ndjson(a) + ndjson(b) =~= ndjson(b));
    } else {
        law_lines_add_up(a.drop_first(), b, text);
        assert((a + b).drop_first() =~= a.drop_first() + b);
        assert(ndjson(a + b) =~= ndjson(a) + ndjson(b));
    }
}

/// A shard is written line by line: `counts` are its numbers of lines on the way, `texts` what the
/// lines hold and `outs` the lines.
pub open spec fn is_shard_run(counts: Seq<u64>, texts: Seq<Seq<u8>>, outs: Seq<Seq<u8>>) -> bool {
    &&& counts.len() == texts.len() + 1
    &&& outs.len() == texts.len()
    &&& counts[0] == 0
    &&& forall|k: int|
        0 <= k < texts.len() ==> #[trigger] outs[k] == line_of(texts[k]) && counts[k + 1]
            == counts[k] + 1
}

/// What is written for a shard is its text, and what is counted is its lines.
pub proof fn law_shard_run(counts: Seq<u64>, texts: Seq<Seq<u8>>, outs: Seq<Seq<u8>>)
    requires
        is_shard_run(counts, texts, outs),
    ensures
        concatenated(outs) == ndjson(texts),
        counts.last() == texts.len(),
    decreases texts.len(),
{
    if texts.len() > 0 {
        let n = texts.len() - 1;
        let texts0 = texts.drop_last();
        let outs0 = outs.drop_last();
        let counts0 = counts.drop_last();
        assert forall|k: int| 0 <= k < texts0.len() implies #[trigger] outs0[k] == line_of(
            texts0[k],
        ) && counts0[k + 1] == counts0[k] + 1 by {
            assert(outs[k] == line_of(texts[k]));
        }
        law_shard_run(counts0, texts0, outs0);
        assert(outs[n] == line_of(texts[n]));
        law_line_appended(texts0, texts[n]);
        assert(texts0.push(texts[n]) =~= texts);
    }
}

/// Where each element of an array is found again: the `k`-th line of shard `shard` is the text of
/// element `k * shards + shard`.
pub proof fn law_array_read_back(texts: Seq<Seq<u8>>, shards: usize, shard: usize)
    requires
        shard < shards,
        texts.len() <= usize::MAX,
        forall|i: int| 0 <= i < texts.len() ==> fits_a_line(#[trigger] texts[i]),
    ensures
        lines(ndjson(dealt(texts, shards, shard))) == dealt(texts, shards, shard),
        forall|k: int|
            0 <= k < dealt(texts, shards, shard).len() ==> 0 <= #[trigger] place(k, shards, shard)
                < texts.len() && lines(ndjson(dealt(texts, shards, shard)))[k] == texts[place(
                k,
                shards,
                shard,
            )],
{
    law_dealt_in_turn(texts, shards, shard);
    let mine = dealt(texts, shards, shard);
    assert forall|k: int| 0 <= k < mine.len() implies fits_a_line(#[trigger] mine[k]) by {
        assert(0 <= place(k, shards, shard) < texts.len());
        assert(fits_a_line(texts[place(k, shards, shard)]));
    }
    law_lines_read_back(mine);
}

/// The texts of all elements under the key fit a line.
pub open spec fn members_fit(
    array_key: Option<Seq<char>>,
    members: Seq<(Seq<char>, Seq<Seq<u8>>)>,
) -> bool {
    forall|m: int, i: int|
        0 <= m < members.len() && array_key == Some(members[m].0) && 0 <= i < members[m].1.len()
            ==> fits_a_line(#[trigger] members[m].1[i])
}

proof fn lemma_object_texts_fit(
    array_key: Option<Seq<char>>,
    members: Seq<(Seq<char>, Seq<Seq<u8>>)>,
    shards: usize,
    shard: usize,
)
    requires
        shard < shards,
        members_fit(array_key, members),
        members_countable(array_key, members),
    ensures
        forall|k: int|
            0 <= k < dealt_of_object(array_key, members, shards, shard).len() ==> fits_a_line(
                #[trigger] dealt_of_object(array_key, members, shards, shard)[k],
            ),
    decreases members.len(),
{
    if members.len() > 0 {
        let before = members.drop_last();
        let n = members.len() - 1;
        assert forall|m: int, i: int|
            0 <= m < before.len() && array_key == Some(before[m].0) && 0 <= i
                < before[m].1.len() implies fits_a_line(#[trigger] before[m].1[i]) by {
            assert(before[m] == members[m]);
            assert(fits_a_line(members[m].1[i]));
        }
        lemma_members_countable(array_key, members);
        lemma_object_texts_fit(array_key, before, shards, shard);
        let texts = members[n].1;
        assert(members.last() == members[n]);
        let mine = dealt(texts, shards, shard);
        if array_key == Some(members[n].0) {
            law_dealt_in_turn(texts, shards, shard);
            assert forall|k: int| 0 <= k < mine.len() implies fits_a_line(#[trigger] mine[k]) by {
                assert(0 <= place(k, shards, shard) < texts.len());
                assert(fits_a_line(members[n].1[place(k, shards, shard)]));
            }
        }
        let all = dealt_of_object(array_key, members, shards, shard);
        let head = dealt_of_object(array_key, before, shards, shard);
        assert forall|k: int| 0 <= k < all.len() implies fits_a_line(#[trigger] all[k]) by {
            if k < head.len() {
                assert(all[k] == head[k]);
            } else {
                assert(all[k] == mine[k - head.len()]);
            }
        }
    }
}

/// Reading a shard of an object line by line gives back the texts of the elements that were dealt
/// to it, array after array.
pub proof fn law_object_read_back(
    array_key: Option<Seq<char>>,
    members: Seq<(Seq<char>, Seq<Seq<u8>>)>,
    shards: usize,
    shard: usize,
)
    requires
        shard < shards,
        members_fit(array_key, members),
        members_countable(array_key, members),
    ensures
        lines(ndjson(dealt_of_object(array_key, members, shards, shard))) == dealt_of_object(
            array_key,
            members,
            shards,
            shard,
        ),
{
    lemma_object_texts_fit(array_key, members, shards, shard);
    law_lines_read_back(dealt_of_object(array_key, members, shards, shard));
}

} // verus!
