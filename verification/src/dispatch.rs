//! Dealing the elements of a streamed JSON array out to the shards.
//!
//! The parser hands over the input piece by piece. These are the decisions made on the way: which
//! shard an element goes to, which members of an object are streamed, and what comes of it all.
use vstd::arithmetic::div_mod::{
    lemma_basic_div, lemma_div_is_ordered, lemma_div_plus_one, lemma_fundamental_div_mod,
    lemma_fundamental_div_mod_converse, lemma_mod_bound,
};
use vstd::prelude::*;

use crate::decimal::{decimal, is_numeral, law_decimal_reads_back, push_decimal};

verus! {

/// Why an input could not be sharded.
#[derive(Debug, PartialEq, Eq)]
pub enum StreamError {
    /// There is no shard to deal to.
    NoShards,
    /// The input is an object, and no key was given under which to look for the array.
    ObjectWithoutKey,
    /// The input is an object without a member of the given key.
    KeyNotFound { key: String },
    /// A shard no longer takes elements.
    SendFailed { shard: usize, reason: String },
}

/// What a `StreamError` says.
pub enum StreamErrorView {
    NoShards,
    ObjectWithoutKey,
    KeyNotFound { key: Seq<char> },
    SendFailed { shard: usize, reason: Seq<char> },
}

impl View for StreamError {
    type V = StreamErrorView;

    open spec fn view(&self) -> StreamErrorView {
        match *self {
            StreamError::NoShards => StreamErrorView::NoShards,
            StreamError::ObjectWithoutKey => StreamErrorView::ObjectWithoutKey,
            StreamError::KeyNotFound { key } => StreamErrorView::KeyNotFound { key: key@ },
            StreamError::SendFailed { shard, reason } => StreamErrorView::SendFailed {
                shard,
                reason: reason@,
            },
        }
    }
}

impl StreamErrorView {
    /// The message for the error.
    pub open spec fn text(self) -> Seq<char> {
        match self {
            StreamErrorView::NoShards => "num_shards must be > 0"@,
            StreamErrorView::ObjectWithoutKey =>
                "got a JSON object but no --array-key was provided"@,
            StreamErrorView::KeyNotFound { key } => "object did not contain an '"@ + key
                + "' array (use --array-key to set the key)"@,
            StreamErrorView::SendFailed { shard, reason } => "send to shard "@ + decimal(
                shard as nat,
            ) + " failed: "@ + reason,
        }
    }
}

impl StreamError {
    /// The message for the error.
    pub fn message(&self) -> (text: String)
        ensures
            text@ == self@.text(),
    {
        match self {
            StreamError::NoShards => "num_shards must be > 0".to_owned(),
            StreamError::ObjectWithoutKey =>
                "got a JSON object but no --array-key was provided".to_owned(),
            StreamError::KeyNotFound { key } => {
                let mut text: String = "object did not contain an '".to_owned();
                text.append(key.as_str());
                text.append("' array (use --array-key to set the key)");
                text
            },
            StreamError::SendFailed { shard, reason } => {
                let mut text: String = "send to shard ".to_owned();
                push_decimal(&mut text, *shard as u64);
                text.append(" failed: ");
                text.append(reason.as_str());
                text
            },
        }
    }
}

/// What an input is expected to be.
pub open spec fn expecting_text(array_key: Option<Seq<char>>) -> Seq<char> {
    match array_key {
        Some(key) => "a top-level array or an object with an '"@ + key + "' array"@,
        None => "a top-level JSON array"@,
    }
}

/// Says what an input is expected to be.
pub fn expecting(array_key: Option<&str>) -> (text: String)
    ensures
        text@ == expecting_text(
            match array_key {
                Some(key) => Some(key@),
                None => None,
            },
        ),
{
    match array_key {
        Some(key) => {
            let mut text: String = "a top-level array or an object with an '".to_owned();
            text.append(key);
            text.append("' array");
            text
        },
        None => "a top-level JSON array".to_owned(),
    }
}

/// Whether there are shards to deal to.
pub fn check_shards(shards: usize) -> (r: Result<(), StreamError>)
    ensures
        r matches Err(e) ==> e@ == StreamErrorView::NoShards,
        r is Err <==> shards == 0,
{
    if shards == 0 {
        Err(StreamError::NoShards)
    } else {
        Ok(())
    }
}

/// The shard that the element after `sent` others goes to: the shards take turns.
pub open spec fn shard_of(sent: u64, shards: usize) -> usize
    recommends
        shards > 0,
{
    (sent as usize) % shards
}

/// An array whose elements are being dealt out.
#[derive(Debug)]
pub struct ArrayStream {
    shards: usize,
    sent: u64,
}

/// What an `ArrayStream` has come to.
pub struct ArrayStreamView {
    /// How many shards take turns.
    pub shards: usize,
    /// How many elements are dealt out.
    pub sent: u64,
}

impl View for ArrayStream {
    type V = ArrayStreamView;

    closed spec fn view(&self) -> ArrayStreamView {
        ArrayStreamView { shards: self.shards, sent: self.sent }
    }
}

impl ArrayStreamView {
    /// The stream before any element was dealt out.
    pub open spec fn begin(shards: usize) -> ArrayStreamView {
        ArrayStreamView { shards, sent: 0 }
    }

    /// The shard that the next element goes to.
    pub open spec fn next_shard(self) -> usize {
        shard_of(self.sent, self.shards)
    }

    /// The stream after one more element was dealt out.
    pub open spec fn with_element(self) -> ArrayStreamView {
        ArrayStreamView { shards: self.shards, sent: (self.sent + 1) as u64 }
    }
}

impl ArrayStream {
    /// An array of which no element is dealt out yet: it begins at the first shard.
    pub fn new(shards: usize) -> (r: ArrayStream)
        ensures
            r@ == ArrayStreamView::begin(shards),
    {
        ArrayStream { shards, sent: 0 }
    }

    /// The shard that the next element goes to.
    pub fn next_shard(&self) -> (shard: usize)
        requires
            self@.shards > 0,
        ensures
            shard == self@.next_shard(),
            shard < self@.shards,
            self@.sent <= usize::MAX ==> shard as int == self@.sent as int % self@.shards as int,
    {
        (self.sent as usize) % self.shards
    }

    /// Notes that the next element has gone to its shard.
    pub fn record_sent(&mut self)
        requires
            old(self)@.sent < u64::MAX,
        ensures
            final(self)@ == old(self)@.with_element(),
            final(self)@.sent == old(self)@.sent + 1,
    {
        self.sent = self.sent + 1;
    }

    /// How many elements were dealt out.
    pub fn total(&self) -> (total: u64)
        ensures
            total == self@.sent,
    {
        self.sent
    }
}

/// An object whose members are being gone through for the array to stream.
#[derive(Debug)]
pub struct ObjectScan {
    array_key: Option<String>,
    total: u64,
    found: bool,
}

/// What an `ObjectScan` has come to.
pub struct ObjectScanView {
    /// The key to look for.
    pub array_key: Option<Seq<char>>,
    /// How many elements were dealt out.
    pub total: nat,
    /// Whether a member of that key was streamed.
    pub found: bool,
}

impl View for ObjectScan {
    type V = ObjectScanView;

    closed spec fn view(&self) -> ObjectScanView {
        ObjectScanView {
            array_key: match self.array_key {
                Some(key) => Some(key@),
                None => None,
            },
            total: self.total as nat,
            found: self.found,
        }
    }
}

impl ObjectScanView {
    /// The scan before any member was seen.
    pub open spec fn begin(array_key: Option<Seq<char>>) -> ObjectScanView {
        ObjectScanView { array_key, total: 0, found: false }
    }

    /// A member of this key is to be streamed; any other is passed over.
    pub open spec fn takes(self, key: Seq<char>) -> bool {
        self.array_key == Some(key)
    }

    /// The scan after a member of this key, with an array of `count` elements where it is streamed.
    pub open spec fn with_member(self, key: Seq<char>, count: nat) -> ObjectScanView {
        if self.takes(key) {
            self.with_array(count)
        } else {
            self
        }
    }

    /// The scan after an array of `count` elements was streamed.
    pub open spec fn with_array(self, count: nat) -> ObjectScanView {
        ObjectScanView { array_key: self.array_key, total: self.total + count, found: true }
    }

    /// What comes of the scan: the number of elements dealt out, or the error.
    pub open spec fn outcome(self) -> Result<nat, StreamErrorView> {
        match self.array_key {
            None => Err(StreamErrorView::ObjectWithoutKey),
            Some(key) => if self.found {
                Ok(self.total)
            } else {
                Err(StreamErrorView::KeyNotFound { key })
            },
        }
    }
}

impl ObjectScan {
    /// A scan for members of `array_key`.
    pub fn new(array_key: Option<&str>) -> (r: ObjectScan)
        ensures
            r@ == ObjectScanView::begin(
                match array_key {
                    Some(key) => Some(key@),
                    None => None,
                },
            ),
    {
        let array_key: Option<String> = match array_key {
            Some(key) => Some(key.to_owned()),
            None => None,
        };
        ObjectScan { array_key, total: 0, found: false }
    }

    /// Whether a member of this key is to be streamed.
    pub fn takes(&self, key: &String) -> (r: bool)
        ensures
            r == self@.takes(key@),
            r == (self@.array_key == Some(key@)),
    {
        match &self.array_key {
            Some(expected) => *key == *expected,
            None => false,
        }
    }

    /// Notes that the array of a member was streamed, with `count` elements.
    pub fn add_array(&mut self, count: u64)
        requires
            old(self)@.total + count <= u64::MAX,
        ensures
            final(self)@ == old(self)@.with_array(count as nat),
            final(self)@.array_key == old(self)@.array_key,
            final(self)@.total == old(self)@.total + count,
            final(self)@.found,
    {
        self.total = self.total + count;
        self.found = true;
    }

    /// How many elements were dealt out so far.
    pub fn total(&self) -> (total: u64)
        ensures
            total == self@.total,
    {
        self.total
    }

    /// What comes of the scan, once all members were seen.
    pub fn finish(self) -> (r: Result<u64, StreamError>)
        ensures
            match r {
                Ok(total) => self@.outcome() == Ok::<nat, StreamErrorView>(total as nat),
                Err(e) => self@.outcome() == Err::<nat, StreamErrorView>(e@),
            },
            match self@.array_key {
                None => r matches Err(e) && e@ == StreamErrorView::ObjectWithoutKey,
                Some(key) => if self@.found {
                    r matches Ok(total) && total == self@.total
                } else {
                    r matches Err(e) && e@ == (StreamErrorView::KeyNotFound { key })
                },
            },
    {
        match self.array_key {
            None => Err(StreamError::ObjectWithoutKey),
            Some(key) => if self.found {
                Ok(self.total)
            } else {
                Err(StreamError::KeyNotFound { key })
            },
        }
    }
}

// What the shards get

/// The elements of an array that one shard gets, in the order in which it gets them.
pub open spec fn dealt<T>(elements: Seq<T>, shards: usize, shard: usize) -> Seq<T>
    decreases elements.len(),
{
    if elements.len() == 0 {
        Seq::empty()
    } else {
        let before = dealt(elements.drop_last(), shards, shard);
        if shard_of((elements.len() - 1) as u64, shards) == shard {
            before.push(elements.last())
        } else {
            before
        }
    }
}

/// Which element of an array is the `k`-th that a shard gets.
pub open spec fn place(k: int, shards: usize, shard: usize) -> int {
    k * shards + shard
}

/// How many of the first `count` elements one shard gets.
pub open spec fn share(count: nat, shards: usize, shard: usize) -> nat {
    if count <= shard {
        0
    } else {
        ((count - shard - 1) / (shards as int) + 1) as nat
    }
}

proof fn lemma_share_step(count: nat, shards: usize, shard: usize)
    requires
        shard < shards,
    ensures
        share(count + 1, shards, shard) == share(count, shards, shard) + (if count % (shards as nat)
            == shard {
            1nat
        } else {
            0nat
        }),
        count % (shards as nat) == shard ==> count == share(count, shards, shard) * shards + shard,
{
    let n = shards as int;
    let c = count as int;
    lemma_fundamental_div_mod(c, n);
    lemma_mod_bound(c, n);
    let q = c / n;
    let r = c % n;
    assert(c == q * n + r) by (nonlinear_arith)
        requires
            c == n * q + r,
    ;
    if c >= shard {
        if r >= shard {
            // count - shard == q * n + (r - shard)
            lemma_fundamental_div_mod_converse(c - shard, n, q, r - shard);
            if r > shard {
                lemma_fundamental_div_mod_converse(c - shard - 1, n, q, r - shard - 1);
            } else if c > shard {
                assert(c - shard - 1 == (q - 1) * n + (n - 1)) by (nonlinear_arith)
                    requires
                        c == q * n + r,
                        r == shard,
                ;
                lemma_fundamental_div_mod_converse(c - shard - 1, n, q - 1, n - 1);
            } else {
                assert(q == 0) by (nonlinear_arith)
                    requires
                        c == q * n + r,
                        c == shard,
                        r == shard,
                        n > 0,
                ;
            }
        } else {
            // count - shard == (q - 1) * n + (n + r - shard)
            assert(c - shard == (q - 1) * n + (n + r - shard)) by (nonlinear_arith)
                requires
                    c == q * n + r,
            ;
            lemma_fundamental_div_mod_converse(c - shard, n, q - 1, n + r - shard);
            if c > shard {
                lemma_fundamental_div_mod_converse(c - shard - 1, n, q - 1, n + r - shard - 1);
            }
        }
    } else {
        lemma_fundamental_div_mod_converse(c, n, 0, c);
    }
}

/// Each shard gets every `shards`-th element, beginning with the one of its own number: its `k`-th
/// is element `k * shards + shard` of the array.
pub proof fn law_dealt_in_turn<T>(elements: Seq<T>, shards: usize, shard: usize)
    requires
        shard < shards,
        elements.len() <= usize::MAX,
    ensures
        dealt(elements, shards, shard).len() == share(elements.len(), shards, shard),
        forall|k: int|
            0 <= k < share(elements.len(), shards, shard) ==> 0 <= #[trigger] place(
                k,
                shards,
                shard,
            ) < elements.len() && dealt(elements, shards, shard)[k] == elements[place(
                k,
                shards,
                shard,
            )],
    decreases elements.len(),
{
    if elements.len() > 0 {
        let before = elements.drop_last();
        let last = before.len();
        law_dealt_in_turn(before, shards, shard);
        lemma_share_step(last, shards, shard);
        assert(last as u64 as usize == last);
        assert forall|k: int| 0 <= k < share(elements.len(), shards, shard) implies 0
            <= #[trigger] place(k, shards, shard) < elements.len() && dealt(
            elements,
            shards,
            shard,
        )[k] == elements[place(k, shards, shard)] by {
            if k < share(last, shards, shard) {
                assert(before[place(k, shards, shard)] == elements[place(k, shards, shard)]);
            }
        }
    }
}

/// Every element is dealt out: element `i` goes to shard `i % shards` and is number `i / shards`
/// there.
pub proof fn law_every_element_dealt<T>(elements: Seq<T>, shards: usize, i: int)
    requires
        0 < shards,
        0 <= i < elements.len() <= usize::MAX,
    ensures
        i / (shards as int) < dealt(elements, shards, (i % shards as int) as usize).len(),
        dealt(elements, shards, (i % shards as int) as usize)[i / (shards as int)] == elements[i],
{
    let n = shards as int;
    let shard = (i % n) as usize;
    lemma_mod_bound(i, n);
    law_dealt_in_turn(elements, shards, shard);
    lemma_fundamental_div_mod(i, n);
    assert(i == (i / n) * n + i % n) by (nonlinear_arith)
        requires
            i == n * (i / n) + i % n,
    ;
    assert(place(i / n, shards, shard) == i);
    lemma_share_step(i as nat, shards, shard);
    assert(share(i as nat, shards, shard) == i / n) by (nonlinear_arith)
        requires
            i == share(i as nat, shards, shard) * n + shard,
            i == (i / n) * n + shard,
            n > 0,
    ;
    lemma_share_monotone((i + 1) as nat, elements.len(), shards, shard);
}

proof fn lemma_share_monotone(a: nat, b: nat, shards: usize, shard: usize)
    requires
        a <= b,
        shard < shards,
    ensures
        share(a, shards, shard) <= share(b, shards, shard),
    decreases b,
{
    if a < b {
        lemma_share_monotone(a, (b - 1) as nat, shards, shard);
        lemma_share_step((b - 1) as nat, shards, shard);
    }
}

/// The elements of an array are spread evenly: an earlier shard gets as many as a later one, or
/// one more.
pub proof fn law_dealt_evenly<T>(elements: Seq<T>, shards: usize, a: usize, b: usize)
    requires
        a <= b < shards,
        elements.len() <= usize::MAX,
    ensures
        dealt(elements, shards, b).len() <= dealt(elements, shards, a).len() <= dealt(
            elements,
            shards,
            b,
        ).len() + 1,
{
    law_dealt_in_turn(elements, shards, a);
    law_dealt_in_turn(elements, shards, b);
    lemma_share_close(elements.len(), shards, a, b);
}

proof fn lemma_share_close(count: nat, shards: usize, a: usize, b: usize)
    requires
        a <= b < shards,
    ensures
        share(count, shards, b) <= share(count, shards, a) <= share(count, shards, b) + 1,
{
    let n = shards as int;
    let c = count as int;
    if c > b {
        let x = c - a - 1;
        let y = c - b - 1;
        lemma_div_is_ordered(y, x, n);
        lemma_div_is_ordered(x, y + n, n);
        lemma_div_plus_one(y, n);
    } else if c > a {
        lemma_basic_div(c - a - 1, n);
    }
}

/// How many of `count` elements the first `upto` shards get together.
pub open spec fn shares(count: nat, shards: usize, upto: nat) -> nat
    decreases upto,
{
    if upto == 0 {
        0
    } else {
        shares(count, shards, (upto - 1) as nat) + share(count, shards, (upto - 1) as usize)
    }
}

proof fn lemma_shares_step(count: nat, shards: usize, upto: nat)
    requires
        0 < shards,
        upto <= shards,
    ensures
        shares(count + 1, shards, upto) == shares(count, shards, upto) + (if count % (
        shards as nat) < upto {
            1nat
        } else {
            0nat
        }),
    decreases upto,
{
    lemma_mod_bound(count as int, shards as int);
    if upto > 0 {
        lemma_shares_step(count, shards, (upto - 1) as nat);
        lemma_share_step(count, shards, (upto - 1) as usize);
    }
}

proof fn lemma_shares_of_none(shards: usize, upto: nat)
    requires
        upto <= shards,
    ensures
        shares(0, shards, upto) == 0,
    decreases upto,
{
    if upto > 0 {
        lemma_shares_of_none(shards, (upto - 1) as nat);
    }
}

/// Nothing is lost and nothing is doubled: what the shards get of an array adds up to the number
/// of its elements.
pub proof fn law_shares_add_up(count: nat, shards: usize)
    requires
        0 < shards,
    ensures
        shares(count, shards, shards as nat) == count,
    decreases count,
{
    if count == 0 {
        lemma_shares_of_none(shards, shards as nat);
    } else {
        law_shares_add_up((count - 1) as nat, shards);
        lemma_shares_step((count - 1) as nat, shards, shards as nat);
        lemma_mod_bound(count - 1, shards as int);
    }
}

/// The elements that one shard receives where element `k` is sent to shard `targets[k]`, in the
/// order in which they are sent.
pub open spec fn received<T>(elements: Seq<T>, targets: Seq<usize>, shard: usize) -> Seq<T>
    decreases elements.len(),
{
    if elements.len() == 0 {
        Seq::empty()
    } else {
        let before = received(elements.drop_last(), targets.drop_last(), shard);
        if targets.last() == shard {
            before.push(elements.last())
        } else {
            before
        }
    }
}

/// An array is streamed: `states` are those of the stream on the way, from the one where nothing
/// was dealt out, and `targets` the shards that its elements are sent to.
pub open spec fn is_array_run(
    shards: usize,
    states: Seq<ArrayStreamView>,
    targets: Seq<usize>,
) -> bool {
    &&& states.len() == targets.len() + 1
    &&& states[0] == ArrayStreamView::begin(shards)
    &&& forall|k: int|
        0 <= k < targets.len() ==> {
            &&& (#[trigger] states[k]).sent < u64::MAX
            &&& targets[k] == states[k].next_shard()
            &&& states[k + 1] == states[k].with_element()
        }
}

/// Streaming an array gives each shard what it is to be dealt, and counts the elements.
pub proof fn law_array_run<T>(
    elements: Seq<T>,
    shards: usize,
    states: Seq<ArrayStreamView>,
    targets: Seq<usize>,
)
    requires
        is_array_run(shards, states, targets),
        elements.len() == targets.len(),
    ensures
        states.last().shards == shards,
        states.last().sent == elements.len(),
        forall|shard: usize| #[trigger]
            received(elements, targets, shard) == dealt(elements, shards, shard),
    decreases elements.len(),
{
    if elements.len() > 0 {
        let n = elements.len() - 1;
        let states0 = states.drop_last();
        let targets0 = targets.drop_last();
        assert forall|k: int| 0 <= k < targets0.len() implies {
            &&& (#[trigger] states0[k]).sent < u64::MAX
            &&& targets0[k] == states0[k].next_shard()
            &&& states0[k + 1] == states0[k].with_element()
        } by {
            assert(states[k].sent < u64::MAX);
        }
        law_array_run(elements.drop_last(), shards, states0, targets0);
        assert(states[n] == states0.last());
        assert(states[n].sent < u64::MAX);
        assert forall|shard: usize| #[trigger]
            received(elements, targets, shard) == dealt(elements, shards, shard) by {
            assert(received(elements.drop_last(), targets0, shard) == dealt(
                elements.drop_last(),
                shards,
                shard,
            ));
        }
    }
}

// Objects

/// The scan of an object with these members, each a key with the elements of its array.
pub open spec fn scanned<T>(
    array_key: Option<Seq<char>>,
    members: Seq<(Seq<char>, Seq<T>)>,
) -> ObjectScanView
    decreases members.len(),
{
    if members.len() == 0 {
        ObjectScanView::begin(array_key)
    } else {
        let (key, elements) = members.last();
        scanned(array_key, members.drop_last()).with_member(key, elements.len())
    }
}

/// What one shard gets of an object with these members: each array under the key is dealt out
/// from the first shard on.
pub open spec fn dealt_of_object<T>(
    array_key: Option<Seq<char>>,
    members: Seq<(Seq<char>, Seq<T>)>,
    shards: usize,
    shard: usize,
) -> Seq<T>
    decreases members.len(),
{
    if members.len() == 0 {
        Seq::empty()
    } else {
        let before = dealt_of_object(array_key, members.drop_last(), shards, shard);
        let (key, elements) = members.last();
        if array_key == Some(key) {
            before + dealt(elements, shards, shard)
        } else {
            before
        }
    }
}

/// How many elements of an object the first `upto` shards get together.
pub open spec fn shares_of_object<T>(
    array_key: Option<Seq<char>>,
    members: Seq<(Seq<char>, Seq<T>)>,
    shards: usize,
    upto: nat,
) -> nat
    decreases upto,
{
    if upto == 0 {
        0
    } else {
        shares_of_object(array_key, members, shards, (upto - 1) as nat) + dealt_of_object(
            array_key,
            members,
            shards,
            (upto - 1) as usize,
        ).len()
    }
}

/// One of the members has this key.
pub open spec fn has_key<T>(members: Seq<(Seq<char>, Seq<T>)>, key: Seq<char>) -> bool {
    exists|i: int| 0 <= i < members.len() && (#[trigger] members[i]).0 == key
}

/// The elements of each array under the key can be counted.
pub open spec fn members_countable<T>(
    array_key: Option<Seq<char>>,
    members: Seq<(Seq<char>, Seq<T>)>,
) -> bool {
    forall|m: int|
        0 <= m < members.len() && array_key == Some((#[trigger] members[m]).0)
            ==> members[m].1.len() <= usize::MAX
}

/// What can be counted can be counted without the last member, and in the last member.
pub proof fn lemma_members_countable<T>(
    array_key: Option<Seq<char>>,
    members: Seq<(Seq<char>, Seq<T>)>,
)
    requires
        members.len() > 0,
        members_countable(array_key, members),
    ensures
        members_countable(array_key, members.drop_last()),
        array_key == Some(members.last().0) ==> members.last().1.len() <= usize::MAX,
{
    let before = members.drop_last();
    assert forall|m: int|
        0 <= m < before.len() && array_key == Some(
            (#[trigger] before[m]).0,
        ) implies before[m].1.len() <= usize::MAX by {
        assert(before[m] == members[m]);
    }
    assert(members.last() == members[members.len() - 1]);
}

/// Streaming an object succeeds exactly where a key was given and a member has it; without a key
/// the object is refused, and without such a member the missing key is named.
pub proof fn law_object_outcome<T>(
    array_key: Option<Seq<char>>,
    members: Seq<(Seq<char>, Seq<T>)>,
)
    ensures
        match array_key {
            None => scanned(array_key, members).outcome() == Err::<nat, StreamErrorView>(
                StreamErrorView::ObjectWithoutKey,
            ),
            Some(key) => if has_key(members, key) {
                scanned(array_key, members).outcome() == Ok::<nat, StreamErrorView>(
                    scanned(array_key, members).total,
                )
            } else {
                scanned(array_key, members).outcome() == Err::<nat, StreamErrorView>(
                    StreamErrorView::KeyNotFound { key },
                )
            },
        },
        scanned(array_key, members).array_key == array_key,
        array_key is Some ==> scanned(array_key, members).found == has_key(members, array_key->0),
    decreases members.len(),
{
    if members.len() > 0 {
        let before = members.drop_last();
        law_object_outcome(array_key, before);
        if array_key is Some {
            let key = array_key->0;
            if has_key(before, key) {
                let i = choose|i: int| 0 <= i < before.len() && (#[trigger] before[i]).0 == key;
                assert(members[i].0 == key);
            }
            if has_key(members, key) {
                let i = choose|i: int| 0 <= i < members.len() && (#[trigger] members[i]).0 == key;
                if i < before.len() {
                    assert(before[i].0 == key);
                }
            }
            if members.last().0 == key {
                assert(members[members.len() - 1].0 == key);
            }
        }
    }
}

proof fn lemma_object_shares_step<T>(
    array_key: Option<Seq<char>>,
    members: Seq<(Seq<char>, Seq<T>)>,
    shards: usize,
    upto: nat,
)
    requires
        members.len() > 0,
        upto <= shards,
        array_key == Some(members.last().0) ==> members.last().1.len() <= usize::MAX,
    ensures
        shares_of_object(array_key, members, shards, upto) == shares_of_object(
            array_key,
            members.drop_last(),
            shards,
            upto,
        ) + (if array_key == Some(members.last().0) {
            shares(members.last().1.len(), shards, upto)
        } else {
            0nat
        }),
    decreases upto,
{
    if upto > 0 {
        lemma_object_shares_step(array_key, members, shards, (upto - 1) as nat);
        if array_key == Some(members.last().0) {
            law_dealt_in_turn(members.last().1, shards, (upto - 1) as usize);
        }
    }
}

/// The total that streaming an object reports is what the shards got together.
pub proof fn law_object_total<T>(
    array_key: Option<Seq<char>>,
    members: Seq<(Seq<char>, Seq<T>)>,
    shards: usize,
)
    requires
        0 < shards,
        members_countable(array_key, members),
    ensures
        shares_of_object(array_key, members, shards, shards as nat) == scanned(
            array_key,
            members,
        ).total,
    decreases members.len(),
{
    if members.len() == 0 {
        lemma_object_shares_of_none(array_key, members, shards, shards as nat);
    } else {
        let before = members.drop_last();
        lemma_members_countable(array_key, members);
        law_object_total(array_key, before, shards);
        law_object_outcome(array_key, before);
        lemma_object_shares_step(array_key, members, shards, shards as nat);
        law_shares_add_up(members.last().1.len(), shards);
    }
}

proof fn lemma_object_shares_of_none<T>(
    array_key: Option<Seq<char>>,
    members: Seq<(Seq<char>, Seq<T>)>,
    shards: usize,
    upto: nat,
)
    requires
        members.len() == 0,
    ensures
        shares_of_object(array_key, members, shards, upto) == 0,
    decreases upto,
{
    if upto > 0 {
        lemma_object_shares_of_none(array_key, members, shards, (upto - 1) as nat);
    }
}

/// The shards take turns: the first element goes to the first shard, and each further one to the
/// next, or from the last back to the first.
pub proof fn law_shards_take_turns(stream: ArrayStreamView)
    requires
        stream.shards > 0,
        stream.sent < usize::MAX,
        stream.sent < u64::MAX,
    ensures
        ArrayStreamView::begin(stream.shards).next_shard() == 0,
        stream.with_element().next_shard() == if stream.next_shard() + 1 == stream.shards {
            0
        } else {
            stream.next_shard() + 1
        },
        stream.with_element().shards == stream.shards,
        stream.with_element().sent == stream.sent + 1,
{
    let n = stream.shards as int;
    let c = stream.sent as int;
    lemma_fundamental_div_mod(c, n);
    lemma_mod_bound(c, n);
    let q = c / n;
    let r = c % n;
    assert(c == q * n + r) by (nonlinear_arith)
        requires
            c == n * q + r,
    ;
    if r + 1 < n {
        lemma_fundamental_div_mod_converse(c + 1, n, q, r + 1);
    } else {
        assert(c + 1 == (q + 1) * n + 0) by (nonlinear_arith)
            requires
                c == q * n + r,
                r + 1 == n,
        ;
        lemma_fundamental_div_mod_converse(c + 1, n, q + 1, 0);
    }
    lemma_fundamental_div_mod_converse(0, n, 0, 0);
}

/// Going through more members adds what they bring: their elements to the total, and the key where
/// one of them has it. A member with the key brings the elements of its array, any other nothing,
/// whatever was seen before.
pub proof fn law_scans_add_up<T>(
    array_key: Option<Seq<char>>,
    a: Seq<(Seq<char>, Seq<T>)>,
    b: Seq<(Seq<char>, Seq<T>)>,
    member: (Seq<char>, Seq<T>),
)
    ensures
        scanned(array_key, a + b).total == scanned(array_key, a).total + scanned(array_key, b).total,
        scanned(array_key, a + b).found == (scanned(array_key, a).found || scanned(
            array_key,
            b,
        ).found),
        scanned(array_key, seq![member]).total == if array_key == Some(member.0) {
            member.1.len()
        } else {
            0
        },
        scanned(array_key, seq![member]).found == (array_key == Some(member.0)),
        scanned(array_key, Seq::<(Seq<char>, Seq<T>)>::empty()).total == 0,
        !scanned(array_key, Seq::<(Seq<char>, Seq<T>)>::empty()).found,
        scanned(array_key, a).array_key == array_key,
    decreases b.len(),
{
    reveal_with_fuel(scanned, 2);
    assert(seq![member].drop_last() =~= Seq::<(Seq<char>, Seq<T>)>::empty());
    law_object_outcome(array_key, a);
    law_object_outcome(array_key, b);
    law_object_outcome(array_key, a + b);
    if b.len() == 0 {
        assert(a + b =~= a);
    } else {
        law_scans_add_up(array_key, a, b.drop_last(), member);
        law_object_outcome(array_key, b.drop_last());
        law_object_outcome(array_key, a + b.drop_last());
        assert((a + b).drop_last() =~= a + b.drop_last());
        assert((a + b).last() == b.last());
    }
}

/// A shard gets what the members of an object bring it, one member after the other: of one with the
/// key what it is dealt of the array, of any other nothing.
pub proof fn law_object_parts_dealt<T>(
    array_key: Option<Seq<char>>,
    a: Seq<(Seq<char>, Seq<T>)>,
    b: Seq<(Seq<char>, Seq<T>)>,
    member: (Seq<char>, Seq<T>),
    shards: usize,
    shard: usize,
)
    ensures
        dealt_of_object(array_key, a + b, shards, shard) == dealt_of_object(
            array_key,
            a,
            shards,
            shard,
        ) + dealt_of_object(array_key, b, shards, shard),
        dealt_of_object(array_key, seq![member], shards, shard) == if array_key == Some(member.0) {
            dealt(member.1, shards, shard)
        } else {
            Seq::empty()
        },
    decreases b.len(),
{
    reveal_with_fuel(dealt_of_object, 2);
    assert(seq![member].drop_last() =~= Seq::<(Seq<char>, Seq<T>)>::empty());
    assert(dealt_of_object(array_key, seq![member], shards, shard) =~= if array_key == Some(
        member.0,
    ) {
        dealt(member.1, shards, shard)
    } else {
        Seq::empty()
    });
    if b.len() == 0 {
        assert(a + b =~= a);
        assert(dealt_of_object(array_key, a, shards, shard) + dealt_of_object(
            array_key,
            b,
            shards,
            shard,
        ) =~= dealt_of_object(array_key, a, shards, shard));
    } else {
        law_object_parts_dealt(array_key, a, b.drop_last(), member, shards, shard);
        assert((a + b).drop_last() =~= a + b.drop_last());
        assert((a + b).last() == b.last());
        assert(dealt_of_object(array_key, a + b, shards, shard) =~= dealt_of_object(
            array_key,
            a,
            shards,
            shard,
        ) + dealt_of_object(array_key, b, shards, shard));
    }
}

/// The messages for errors: they give the key and the reason as they are, and the shard in digits.
pub proof fn law_errors_read(key: Seq<char>, shard: usize, reason: Seq<char>)
    ensures
        StreamErrorView::NoShards.text() == "num_shards must be > 0"@,
        StreamErrorView::ObjectWithoutKey.text()
            == "got a JSON object but no --array-key was provided"@,
        (StreamErrorView::KeyNotFound { key }).text() == "object did not contain an '"@ + key
            + "' array (use --array-key to set the key)"@,
        exists|numeral: Seq<char>|
            #[trigger] is_numeral(numeral, shard as int) && (StreamErrorView::SendFailed {
                shard,
                reason,
            }).text() == "send to shard "@ + numeral + " failed: "@ + reason,
        expecting_text(Some(key)) == "a top-level array or an object with an '"@ + key
            + "' array"@,
        expecting_text(None) == "a top-level JSON array"@,
{
    law_decimal_reads_back(shard as nat);
}

/// An error is seen as what it is, with what it holds.
pub proof fn law_errors_seen_whole(e: StreamError)
    ensures
        match e {
            StreamError::NoShards => e@ is NoShards,
            StreamError::ObjectWithoutKey => e@ is ObjectWithoutKey,
            StreamError::KeyNotFound { key } => e@ == (StreamErrorView::KeyNotFound { key: key@ }),
            StreamError::SendFailed { shard, reason } => e@ == (StreamErrorView::SendFailed {
                shard,
                reason: reason@,
            }),
        },
{
}

/// An object is gone through: `states` are those of the scan on the way, from the one before any
/// member was seen.
pub open spec fn is_object_run<T>(
    array_key: Option<Seq<char>>,
    states: Seq<ObjectScanView>,
    members: Seq<(Seq<char>, Seq<T>)>,
) -> bool {
    &&& states.len() == members.len() + 1
    &&& states[0] == ObjectScanView::begin(array_key)
    &&& forall|m: int|
        0 <= m < members.len() ==> states[m + 1] == (#[trigger] states[m]).with_member(
            members[m].0,
            members[m].1.len(),
        )
}

/// Each array under the key is streamed to the shards, from the first one on: element `k` of
/// member `m` goes to shard `targets[m][k]`.
pub open spec fn is_object_dealt<T>(
    array_key: Option<Seq<char>>,
    members: Seq<(Seq<char>, Seq<T>)>,
    shards: usize,
    targets: Seq<Seq<usize>>,
) -> bool {
    &&& targets.len() == members.len()
    &&& forall|m: int|
        0 <= m < members.len() && array_key == Some((#[trigger] members[m]).0) ==> {
            &&& targets[m].len() == members[m].1.len()
            &&& exists|states: Seq<ArrayStreamView>| is_array_run(shards, states, targets[m])
        }
}

/// The elements that one shard receives of an object, array after array.
pub open spec fn received_of_object<T>(
    array_key: Option<Seq<char>>,
    members: Seq<(Seq<char>, Seq<T>)>,
    targets: Seq<Seq<usize>>,
    shard: usize,
) -> Seq<T>
    decreases members.len(),
{
    if members.len() == 0 {
        Seq::empty()
    } else {
        let before = received_of_object(
            array_key,
            members.drop_last(),
            targets.drop_last(),
            shard,
        );
        let (key, elements) = members.last();
        if array_key == Some(key) {
            before + received(elements, targets.last(), shard)
        } else {
            before
        }
    }
}

/// Going through an object comes to the scan of its members.
pub proof fn law_object_run<T>(
    array_key: Option<Seq<char>>,
    states: Seq<ObjectScanView>,
    members: Seq<(Seq<char>, Seq<T>)>,
)
    requires
        is_object_run(array_key, states, members),
    ensures
        states.last() == scanned(array_key, members),
    decreases members.len(),
{
    if members.len() > 0 {
        let n = members.len() - 1;
        let states0 = states.drop_last();
        let members0 = members.drop_last();
        assert forall|m: int| 0 <= m < members0.len() implies states0[m + 1] == (
        #[trigger] states0[m]).with_member(members0[m].0, members0[m].1.len()) by {
            assert(states[m + 1] == states[m].with_member(members[m].0, members[m].1.len()));
        }
        law_object_run(array_key, states0, members0);
        assert(states[n] == states0.last());
        assert(states[n + 1] == states[n].with_member(members[n].0, members[n].1.len()));
    }
}

/// Streaming the arrays of an object gives each shard what it is to be dealt of the object.
pub proof fn law_object_dealt<T>(
    array_key: Option<Seq<char>>,
    members: Seq<(Seq<char>, Seq<T>)>,
    shards: usize,
    targets: Seq<Seq<usize>>,
    shard: usize,
)
    requires
        is_object_dealt(array_key, members, shards, targets),
    ensures
        received_of_object(array_key, members, targets, shard) == dealt_of_object(
            array_key,
            members,
            shards,
            shard,
        ),
    decreases members.len(),
{
    if members.len() > 0 {
        let n = members.len() - 1;
        let members0 = members.drop_last();
        let targets0 = targets.drop_last();
        assert forall|m: int|
            0 <= m < members0.len() && array_key == Some((#[trigger] members0[m]).0) implies {
            &&& targets0[m].len() == members0[m].1.len()
            &&& exists|states: Seq<ArrayStreamView>| is_array_run(shards, states, targets0[m])
        } by {
            assert(members0[m] == members[m]);
            assert(targets0[m] == targets[m]);
        }
        law_object_dealt(array_key, members0, shards, targets0, shard);
        assert(members.last() == members[n]);
        if array_key == Some(members[n].0) {
            let states = choose|states: Seq<ArrayStreamView>|
                is_array_run(shards, states, targets[n]);
            law_array_run(members[n].1, shards, states, targets[n]);
            assert(received(members[n].1, targets[n], shard) == dealt(
                members[n].1,
                shards,
                shard,
            ));
        }
    }
}

} // verus!
