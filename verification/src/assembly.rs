//! Assembling one JSON document from items that arrive in any order.
use std::collections::BTreeMap;
use vstd::prelude::*;
use vstd::utf8::{encode_utf8, is_ascii_chars_encode_utf8};

use crate::decimal::{decimal, is_numeral, law_decimal_reads_back, push_decimal};

verus! {

/// What stands between two items.
pub open spec fn separator() -> Seq<u8> {
    encode_utf8(",\n"@)
}

/// An item as it is written: every item but the first comes after a separator.
pub open spec fn item_text(index: nat, data: Seq<u8>) -> Seq<u8> {
    if index > 0 {
        separator() + data
    } else {
        data
    }
}

/// The items from `from` up to `to` as they are written.
pub open spec fn run_text(items: Map<u64, Seq<u8>>, from: nat, to: nat) -> Seq<u8>
    decreases to - from,
{
    if from >= to {
        Seq::empty()
    } else {
        run_text(items, from, (to - 1) as nat) + item_text(
            (to - 1) as nat,
            items[(to - 1) as u64],
        )
    }
}

/// The items with a separator between each two.
pub open spec fn separated(items: Seq<Seq<u8>>) -> Seq<u8>
    decreases items.len(),
{
    if items.len() == 0 {
        Seq::empty()
    } else if items.len() == 1 {
        items[0]
    } else {
        separated(items.drop_last()) + separator() + items.last()
    }
}

/// What stands before the items of a document.
pub open spec fn opening_text(array_only: bool) -> Seq<char> {
    if array_only {
        "[\n"@
    } else {
        "{\"entities\":[\n"@
    }
}

/// What stands after the items of a document.
pub open spec fn closing_text(array_only: bool) -> Seq<char> {
    if array_only {
        "\n]\n"@
    } else {
        "\n]}\n"@
    }
}

/// The document of the items: a bare array, or an object with the array under `entities`.
pub open spec fn document(array_only: bool, items: Seq<Seq<u8>>) -> Seq<u8> {
    encode_utf8(opening_text(array_only)) + separated(items) + encode_utf8(closing_text(array_only))
}

/// What is written before the first item.
pub fn opening(array_only: bool) -> (text: &'static str)
    ensures
        text@ == opening_text(array_only),
        text@ == if array_only {
            "[\n"@
        } else {
            "{\"entities\":[\n"@
        },
{
    if array_only {
        "[\n"
    } else {
        "{\"entities\":[\n"
    }
}

/// What is written after the last item.
pub fn closing(array_only: bool) -> (text: &'static str)
    ensures
        text@ == closing_text(array_only),
        text@ == if array_only {
            "\n]\n"@
        } else {
            "\n]}\n"@
        },
{
    if array_only {
        "\n]\n"
    } else {
        "\n]}\n"
    }
}

/// Items on their way into a document: those below `next` are written, and those that came before
/// their turn wait.
pub struct InOrder {
    next: u64,
    pending: BTreeMap<u64, Vec<u8>>,
}

/// What an `InOrder` holds.
pub struct InOrderView {
    /// How many items are written.
    pub next: u64,
    /// The items that wait.
    pub pending: Map<u64, Seq<u8>>,
}

impl View for InOrder {
    type V = InOrderView;

    closed spec fn view(&self) -> InOrderView {
        InOrderView { next: self.next, pending: self.pending@.map_values(|d: Vec<u8>| d@) }
    }
}

/// The first index from `from` on under which no item waits.
pub open spec fn first_missing(waiting: Map<u64, Seq<u8>>, from: u64) -> u64
    decreases u64::MAX - from,
{
    if from < u64::MAX && waiting.contains_key(from) {
        first_missing(waiting, (from + 1) as u64)
    } else {
        from
    }
}

/// Nothing written, nothing waiting.
pub open spec fn nothing_yet() -> InOrderView {
    InOrderView { next: 0, pending: Map::empty() }
}

impl InOrderView {
    /// No item waits under the last index there is, so that the next index can always be counted.
    pub open spec fn countable(self) -> bool {
        !self.pending.contains_key(u64::MAX)
    }

    /// From here, item `i` with `data` arrives: `out` is written and `after` is what is left. All
    /// items that are now due are written, up to the first that has not come.
    pub open spec fn arrival(self, i: u64, data: Seq<u8>, after: InOrderView, out: Seq<u8>) -> bool {
        let waiting = self.pending.insert(i, data);
        &&& after.next == first_missing(waiting, self.next)
        &&& after.pending == waiting.remove_keys(
            Set::new(|k: u64| self.next <= k < after.next),
        )
        &&& out == run_text(waiting, self.next as nat, after.next as nat)
    }
}

impl InOrder {
    /// Nothing written yet.
    pub fn new() -> (r: InOrder)
        ensures
            r@ == nothing_yet(),
            r@.countable(),
    {
        let r: InOrder = InOrder { next: 0, pending: BTreeMap::new() };
        assert(r@.pending =~= Map::<u64, Seq<u8>>::empty());
        r
    }

    /// How many items are written.
    pub fn written(&self) -> (count: u64)
        ensures
            count == self@.next,
    {
        self.next
    }

    /// Whether all of `total` items are written.
    pub fn complete(&self, total: u64) -> (r: bool)
        ensures
            r == (self@.next >= total),
    {
        self.next >= total
    }

    /// Takes in item `i` and gives back the bytes that are now to be written.
    pub fn accept(&mut self, i: u64, data: Vec<u8>) -> (out: Vec<u8>)
        requires
            old(self)@.countable(),
            i < u64::MAX,
        ensures
            old(self)@.arrival(i, data@, final(self)@, out@),
            final(self)@.countable(),
    {
        let ghost before = self@;
        let ghost bytes = data@;
        self.pending.insert(i, data);
        let ghost waiting = before.pending.insert(i, bytes);
        assert(self@.pending =~= waiting);
        let mut out: Vec<u8> = Vec::new();
        loop
            invariant
                before.next <= self.next,
                !waiting.contains_key(u64::MAX),
                waiting == before.pending.insert(i, bytes),
                first_missing(waiting, before.next) == first_missing(waiting, self.next),
                self@.pending == waiting.remove_keys(
                    Set::new(|k: u64| before.next <= k < self.next),
                ),
                out@ == run_text(waiting, before.next as nat, self.next as nat),
            ensures
                !waiting.contains_key(self.next),
            decreases u64::MAX - self.next,
        {
            let ghost held = self@.pending;
            let next: u64 = self.next;
            match self.pending.remove(&next) {
                Some(mut item) => {
                    let ghost text = item@;
                    assert(held.contains_key(next) && held[next] == text);
                    if next > 0 {
                        let mut sep: Vec<u8> = ",\n".as_bytes_vec();
                        out.append(&mut sep);
                    }
                    out.append(&mut item);
                    self.next = next + 1;
                    proof {
                        assert(out@ =~= run_text(waiting, before.next as nat, next as nat)
                            + item_text(next as nat, waiting[next]));
                        assert(self@.pending =~= held.remove(next));
                        assert(self@.pending =~= waiting.remove_keys(
                            Set::new(|k: u64| before.next <= k < self.next),
                        ));
                    }
                },
                None => {
                    assert(!held.contains_key(next));
                    assert(self@.pending =~= held);
                    assert(waiting.contains_key(next) ==> held.contains_key(next));
                    break;
                },
            }
        }
        out
    }
}

/// The message for a run whose workers stopped after `written` of `total` items.
pub open spec fn stopped_text(written: u64, total: u64) -> Seq<char> {
    "generator workers stopped before producing all items (wrote "@ + decimal(written as nat)
        + " of "@ + decimal(total as nat) + ")"@
}

/// The message for a run whose workers stopped after `written` of `total` items.
pub fn stopped_message(written: u64, total: u64) -> (text: String)
    ensures
        text@ == stopped_text(written, total),
{
    let mut text: String = "generator workers stopped before producing all items (wrote ".to_owned();
    push_decimal(&mut text, written);
    text.append(" of ");
    push_decimal(&mut text, total);
    text.append(")");
    text
}

// The order in which items arrive

/// All pieces one after the other.
pub open spec fn concatenated(pieces: Seq<Seq<u8>>) -> Seq<u8>
    decreases pieces.len(),
{
    if pieces.len() == 0 {
        Seq::empty()
    } else {
        concatenated(pieces.drop_last()) + pieces.last()
    }
}

/// The items of `arrivals` are taken in one after the other, from `states[0]`, where nothing was
/// written yet: `outs` is what is written at each.
pub open spec fn is_run(
    states: Seq<InOrderView>,
    arrivals: Seq<(u64, Seq<u8>)>,
    outs: Seq<Seq<u8>>,
) -> bool {
    &&& states.len() == arrivals.len() + 1
    &&& outs.len() == arrivals.len()
    &&& states[0] == nothing_yet()
    &&& forall|k: int|
        0 <= k < arrivals.len() ==> #[trigger] states[k].arrival(
            arrivals[k].0,
            arrivals[k].1,
            states[k + 1],
            outs[k],
        )
}

/// The arrivals bring items of `items`, none of them twice.
pub open spec fn brings(arrivals: Seq<(u64, Seq<u8>)>, items: Seq<Seq<u8>>) -> bool {
    &&& forall|k: int|
        0 <= k < arrivals.len() ==> (#[trigger] arrivals[k]).0 < items.len() && arrivals[k].1
            == items[arrivals[k].0 as int]
    &&& forall|j: int, k: int|
        0 <= j < k < arrivals.len() ==> (#[trigger] arrivals[j]).0 != (#[trigger] arrivals[k]).0
}

/// The item with this index is among the arrivals.
pub open spec fn has_arrived(arrivals: Seq<(u64, Seq<u8>)>, index: u64) -> bool {
    exists|k: int| 0 <= k < arrivals.len() && (#[trigger] arrivals[k]).0 == index
}

proof fn lemma_first_missing(waiting: Map<u64, Seq<u8>>, from: u64)
    requires
        !waiting.contains_key(u64::MAX),
    ensures
        from <= first_missing(waiting, from),
        forall|k: u64|
            from <= k < first_missing(waiting, from) ==> #[trigger] waiting.contains_key(k),
        !waiting.contains_key(first_missing(waiting, from)),
    decreases u64::MAX - from,
{
    if from < u64::MAX && waiting.contains_key(from) {
        lemma_first_missing(waiting, (from + 1) as u64);
    }
}

proof fn lemma_run_text_split(items: Map<u64, Seq<u8>>, from: nat, mid: nat, to: nat)
    requires
        from <= mid <= to,
    ensures
        run_text(items, from, to) == run_text(items, from, mid) + run_text(items, mid, to),
    decreases to - mid,
{
    if mid < to {
        lemma_run_text_split(items, from, mid, (to - 1) as nat);
    }
    assert(run_text(items, from, to) =~= run_text(items, from, mid) + run_text(items, mid, to));
}

proof fn lemma_run_text_separated(items: Map<u64, Seq<u8>>, list: Seq<Seq<u8>>, count: nat)
    requires
        count <= list.len() <= u64::MAX,
        forall|k: u64| k < count ==> #[trigger] items[k] == list[k as int],
    ensures
        run_text(items, 0, count) == separated(list.take(count as int)),
    decreases count,
{
    let part = list.take(count as int);
    if count > 0 {
        let last = (count - 1) as u64;
        lemma_run_text_separated(items, list, (count - 1) as nat);
        assert(part.drop_last() =~= list.take(count - 1));
        assert(items[last] == list[last as int]);
        if count == 1 {
            assert(run_text(items, 0, 0) =~= Seq::<u8>::empty());
            assert(run_text(items, 0, 1) =~= part[0]);
        } else {
            assert(run_text(items, 0, count) =~= separated(part.drop_last()) + separator()
                + part.last());
        }
    }
}

proof fn lemma_run_text_same(a: Map<u64, Seq<u8>>, b: Map<u64, Seq<u8>>, from: nat, to: nat)
    requires
        to <= u64::MAX,
        forall|k: u64| from <= k < to ==> #[trigger] a[k] == b[k],
    ensures
        run_text(a, from, to) == run_text(b, from, to),
    decreases to - from,
{
    if from < to {
        lemma_run_text_same(a, b, from, (to - 1) as nat);
        assert(a[(to - 1) as u64] == b[(to - 1) as u64]);
    }
}

/// The items as a map from their indices.
spec fn indexed(items: Seq<Seq<u8>>) -> Map<u64, Seq<u8>> {
    Map::new(|k: u64| k < items.len(), |k: u64| items[k as int])
}

/// Whatever the order in which items arrive, what has been written at any time is the items up to
/// the first that has not arrived, in their own order; those after it wait.
pub proof fn law_written_in_order(
    items: Seq<Seq<u8>>,
    states: Seq<InOrderView>,
    arrivals: Seq<(u64, Seq<u8>)>,
    outs: Seq<Seq<u8>>,
)
    requires
        items.len() <= u64::MAX,
        is_run(states, arrivals, outs),
        brings(arrivals, items),
    ensures
        states.last().next <= items.len(),
        concatenated(outs) == separated(items.take(states.last().next as int)),
        forall|k: u64| k < states.last().next ==> #[trigger] has_arrived(arrivals, k),
        !has_arrived(arrivals, states.last().next),
        forall|k: u64|
            #![trigger states.last().pending.contains_key(k)]
            #![trigger has_arrived(arrivals, k)]
            states.last().pending.contains_key(k) <==> k >= states.last().next && has_arrived(
                arrivals,
                k,
            ),
        forall|k: u64|
            states.last().pending.contains_key(k) ==> states.last().pending[k] == items[k as int],
    decreases arrivals.len(),
{
    let all = indexed(items);
    let end = states.last();
    if arrivals.len() == 0 {
        assert(items.take(0) =~= Seq::<Seq<u8>>::empty());
    } else {
        let n = arrivals.len() - 1;
        let states0 = states.drop_last();
        let arrivals0 = arrivals.drop_last();
        let outs0 = outs.drop_last();
        assert(is_run(states0, arrivals0, outs0)) by {
            assert forall|k: int| 0 <= k < arrivals0.len() implies #[trigger] states0[k].arrival(
                arrivals0[k].0,
                arrivals0[k].1,
                states0[k + 1],
                outs0[k],
            ) by {
                assert(states[k].arrival(arrivals[k].0, arrivals[k].1, states[k + 1], outs[k]));
            }
        }
        assert(brings(arrivals0, items)) by {
            assert forall|k: int| 0 <= k < arrivals0.len() implies (#[trigger] arrivals0[k]).0
                < items.len() && arrivals0[k].1 == items[arrivals0[k].0 as int] by {
                assert(arrivals0[k] == arrivals[k]);
            }
            assert forall|j: int, k: int| 0 <= j < k < arrivals0.len() implies (
            #[trigger] arrivals0[j]).0 != (#[trigger] arrivals0[k]).0 by {
                assert(arrivals0[j] == arrivals[j]);
                assert(arrivals0[k] == arrivals[k]);
            }
        }
        law_written_in_order(items, states0, arrivals0, outs0);
        let start = states[n];
        assert(start == states0.last());
        let (i, data) = arrivals[n];
        assert(start.arrival(i, data, end, outs[n]));
        assert forall|k: u64| #[trigger]
            has_arrived(arrivals, k) <==> has_arrived(arrivals0, k) || k == i by {
            if has_arrived(arrivals0, k) {
                let p = choose|p: int| 0 <= p < arrivals0.len() && (#[trigger] arrivals0[p]).0 == k;
                assert(arrivals[p].0 == k);
            }
            if has_arrived(arrivals, k) {
                let p = choose|p: int| 0 <= p < arrivals.len() && (#[trigger] arrivals[p]).0 == k;
                if p < n {
                    assert(arrivals0[p].0 == k);
                }
            }
        }
        assert(!has_arrived(arrivals0, i)) by {
            if has_arrived(arrivals0, i) {
                let p = choose|p: int| 0 <= p < arrivals0.len() && (#[trigger] arrivals0[p]).0 == i;
                assert(arrivals[p].0 != arrivals[n].0);
            }
        }
        assert(i >= start.next);
        let waiting = start.pending.insert(i, data);
        assert forall|k: u64| waiting.contains_key(k) implies k < items.len() && waiting[k]
            == all[k] by {
            if k != i {
                assert(has_arrived(arrivals0, k));
                let p = choose|p: int| 0 <= p < arrivals0.len() && (#[trigger] arrivals0[p]).0 == k;
                assert(arrivals[p].0 == k);
            }
        }
        assert(!waiting.contains_key(u64::MAX));
        lemma_first_missing(waiting, start.next);
        assert(end.next <= items.len()) by {
            if end.next > items.len() && end.next > start.next {
                assert(waiting.contains_key((end.next - 1) as u64));
            }
        }
        assert forall|k: u64|
            #![trigger waiting.contains_key(k)]
            #![trigger has_arrived(arrivals, k)]
            waiting.contains_key(k) <==> k >= start.next && has_arrived(arrivals, k) by {
            assert(start.pending.contains_key(k) <==> k >= start.next && has_arrived(
                arrivals0,
                k,
            ));
        }
        assert forall|k: u64| k < end.next implies has_arrived(arrivals, k) by {
            if k >= start.next {
                assert(waiting.contains_key(k));
            } else {
                assert(has_arrived(arrivals0, k));
            }
        }
        assert forall|k: u64|
            #![trigger end.pending.contains_key(k)]
            #![trigger has_arrived(arrivals, k)]
            end.pending.contains_key(k) <==> k >= end.next && has_arrived(arrivals, k) by {
            assert(waiting.contains_key(k) <==> k >= start.next && has_arrived(arrivals, k));
        }
        lemma_run_text_same(waiting, all, start.next as nat, end.next as nat);
        lemma_run_text_split(all, 0, start.next as nat, end.next as nat);
        lemma_run_text_separated(all, items, start.next as nat);
        lemma_run_text_separated(all, items, end.next as nat);
    }
}

/// Once every item has arrived, in whatever order, the whole document has been written: its
/// opening, the items in order with separators between them, and its closing.
pub proof fn law_any_order_same_document(
    array_only: bool,
    items: Seq<Seq<u8>>,
    states: Seq<InOrderView>,
    arrivals: Seq<(u64, Seq<u8>)>,
    outs: Seq<Seq<u8>>,
)
    requires
        items.len() <= u64::MAX,
        is_run(states, arrivals, outs),
        brings(arrivals, items),
        forall|k: u64| k < items.len() ==> has_arrived(arrivals, k),
    ensures
        states.last() == (InOrderView { next: items.len() as u64, pending: Map::empty() }),
        encode_utf8(opening_text(array_only)) + concatenated(outs) + encode_utf8(
            closing_text(array_only),
        ) == document(array_only, items),
{
    law_written_in_order(items, states, arrivals, outs);
    let end = states.last();
    assert(end.next == items.len());
    assert(items.take(items.len() as int) =~= items);
    assert forall|k: u64| !end.pending.contains_key(k) by {
        if has_arrived(arrivals, k) {
            let p = choose|p: int| 0 <= p < arrivals.len() && (#[trigger] arrivals[p]).0 == k;
            assert(arrivals[p].0 < items.len());
        }
    }
    assert(end.pending =~= Map::<u64, Seq<u8>>::empty());
}

/// Two lists of items are written one after the other as both are written, with a comma and a line
/// break between them; one item is written as it is, and no item as nothing.
pub proof fn law_separated_adds_up(a: Seq<Seq<u8>>, b: Seq<Seq<u8>>, item: Seq<u8>)
    ensures
        separated(Seq::empty()) == Seq::<u8>::empty(),
        separated(seq![item]) == item,
        a.len() > 0 && b.len() > 0 ==> separated(a + b) == separated(a) + seq![44u8, 10u8]
            + separated(b),
    decreases b.len(),
{
    lemma_separator_bytes();
    if a.len() > 0 && b.len() > 0 {
        assert((a + b).last() == b.last());
        if b.len() == 1 {
            assert((a + b).drop_last() =~= a);
        } else {
            law_separated_adds_up(a, b.drop_last(), item);
            assert((a + b).drop_last() =~= a + b.drop_last());
            assert(separated(a + b) =~= separated(a) + seq![44u8, 10u8] + separated(b));
        }
    }
}

proof fn lemma_separator_bytes()
    ensures
        separator() == seq![44u8, 10u8],
{
    reveal_strlit(",\n");
    is_ascii_chars_encode_utf8(",\n"@);
    assert(separator() =~= seq![44u8, 10u8]);
}

/// The document of a list of items is the items as they are written, inside the brackets of an
/// array, and for an object inside its braces and after its key.
pub proof fn law_document_reads(items: Seq<Seq<u8>>)
    ensures
        document(true, items) == encode_utf8("[\n"@) + separated(items) + encode_utf8("\n]\n"@),
        document(false, items) == encode_utf8("{\"entities\":[\n"@) + separated(items)
            + encode_utf8("\n]}\n"@),
{
}

/// Items are written one after the other: those up to `to` are those up to `mid` and then the rest.
/// One alone is written as it is where it is the first, and else after a comma and a line break.
pub proof fn law_written_one_by_one(items: Map<u64, Seq<u8>>, from: nat, mid: nat, to: nat, k: u64)
    requires
        from <= mid <= to,
    ensures
        run_text(items, from, to) == run_text(items, from, mid) + run_text(items, mid, to),
        run_text(items, from, from) == Seq::<u8>::empty(),
        run_text(items, 0, 1) == items[0],
        k > 0 ==> run_text(items, k as nat, k as nat + 1) == seq![44u8, 10u8] + items[k],
{
    lemma_separator_bytes();
    lemma_run_text_split(items, from, mid, to);
    reveal_with_fuel(run_text, 2);
    assert(run_text(items, 0, 1) =~= items[0]);
    assert(k > 0 ==> run_text(items, k as nat, k as nat + 1) =~= seq![44u8, 10u8] + items[k]);
}

/// What the arrival of an item does. Unless it is the item whose turn it is, it waits, in place of
/// any that waited under its number, and nothing is written. If it is, it is written, after a comma
/// and a line break where it is not the first, and so are those after it that had been waiting, up
/// to the first that had not come.
pub proof fn law_arrival(
    before: InOrderView,
    i: u64,
    data: Seq<u8>,
    after: InOrderView,
    out: Seq<u8>,
)
    requires
        before.arrival(i, data, after, out),
        before.countable(),
        i < u64::MAX,
        !before.pending.contains_key(before.next),
    ensures
        i != before.next ==> {
            &&& after.next == before.next
            &&& after.pending == before.pending.insert(i, data)
            &&& out == Seq::<u8>::empty()
        },
        i == before.next ==> {
            let first = if i > 0 {
                seq![44u8, 10u8] + data
            } else {
                data
            };
            &&& after.next > before.next
            &&& first.len() <= out.len()
            &&& out.take(first.len() as int) == first
            &&& forall|k: u64|
                before.next < k < after.next ==> #[trigger] before.pending.contains_key(k)
            &&& forall|k: u64|
                before.next < k < after.next ==> !#[trigger] after.pending.contains_key(k)
            &&& forall|k: u64|
                k >= after.next ==> (#[trigger] after.pending.contains_key(k)
                    <==> before.pending.contains_key(k))
            &&& forall|k: u64|
                k >= after.next && #[trigger] after.pending.contains_key(k) ==> after.pending[k]
                    == before.pending[k]
        },
        !after.pending.contains_key(after.next),
        out == run_text(before.pending.insert(i, data), before.next as nat, after.next as nat),
{
    let waiting = before.pending.insert(i, data);
    lemma_first_missing(waiting, before.next);
    lemma_separator_bytes();
    if i != before.next {
        assert(after.next == before.next);
        assert(after.pending =~= waiting);
        assert(out =~= Seq::<u8>::empty());
    } else {
        assert(after.next > before.next) by {
            if after.next == before.next {
                assert(waiting.contains_key(before.next));
            }
        }
        let n = before.next as nat;
        lemma_run_text_split(waiting, n, n + 1, after.next as nat);
        let first = item_text(n, data);
        assert(run_text(waiting, n, n) =~= Seq::<u8>::empty());
        assert(run_text(waiting, n, n + 1) =~= first);
        assert(out.take(first.len() as int) =~= first);
        assert forall|k: u64| before.next < k < after.next implies #[trigger] before.pending.contains_key(
            k,
        ) by {
            assert(waiting.contains_key(k));
        }
    }
}

/// The message for a stopped run gives the two numbers in digits.
pub proof fn law_stopped_message_reads(written: u64, total: u64)
    ensures
        exists|done: Seq<char>, all: Seq<char>|
            {
                &&& #[trigger] is_numeral(done, written as int)
                &&& #[trigger] is_numeral(all, total as int)
                &&& stopped_text(written, total)
                    == "generator workers stopped before producing all items (wrote "@ + done
                    + " of "@ + all + ")"@
            },
{
    law_decimal_reads_back(written as nat);
    law_decimal_reads_back(total as nat);
    assert(is_numeral(decimal(written as nat), written as int) && is_numeral(
        decimal(total as nat),
        total as int,
    ));
}

} // verus!
