//! Random text: words, lists of words, hexadecimal strings and filler prose.
use rand::rngs::StdRng;
use vstd::arithmetic::div_mod::lemma_fundamental_div_mod_converse;
use vstd::prelude::*;

use crate::random::{
    alphanumeric_draw, draw_alphanumeric, draw_usize, is_alphanumeric, rng_state, uniform_draw,
};

verus! {

/// The hexadecimal digits, in order.
pub const HEX: &'static str = "0123456789abcdef";

/// The filler prose.
pub const LOREM: &'static str = "Lorem ipsum dolor sit amet, consectetur adipiscing elit. Sed non risus. Suspendisse lectus tortor, dignissim sit amet, adipiscing nec, ultricies sed, dolor. Cras elementum ultrices diam. Maecenas ligula massa, varius a, semper congue, euismod non, mi. Proin porttitor, orci nec nonummy molestie, enim est eleifend mi, non fermentum diam nisl sit amet erat. Duis semper. Duis arcu massa, scelerisque vitae, consequat in, pretium a, enim. Pellentesque congue.";

/// The lowercase form of an ASCII letter; any other character is left as it is.
pub open spec fn ascii_lower(c: char) -> char {
    if 'A' <= c <= 'Z' {
        (c as u32 + 32) as char
    } else {
        c
    }
}

/// `b` is `a`, but for a capital letter the small one.
pub open spec fn is_lowered(a: char, b: char) -> bool {
    if 'A' <= a <= 'Z' {
        b as int - 'a' as int == a as int - 'A' as int
    } else {
        b == a
    }
}

/// A text with its ASCII letters in lowercase.
pub open spec fn lowercase(text: Seq<char>) -> Seq<char> {
    Seq::new(text.len(), |i: int| ascii_lower(text[i]))
}

/// `c` is a lowercase ASCII letter or a digit.
pub open spec fn is_word_char(c: char) -> bool {
    'a' <= c <= 'z' || '0' <= c <= '9'
}

/// `text` consists of lowercase ASCII letters and digits.
pub open spec fn is_word(text: Seq<char>) -> bool {
    forall|i: int| 0 <= i < text.len() ==> is_word_char(#[trigger] text[i])
}

/// Every text in `list` is a word of 3 to 11 characters.
pub open spec fn are_words(list: Seq<Seq<char>>) -> bool {
    forall|i: int|
        0 <= i < list.len() ==> is_word(#[trigger] list[i]) && 3 <= list[i].len() <= 11
}

/// The texts of a list of strings.
pub open spec fn texts(list: Seq<String>) -> Seq<Seq<char>> {
    Seq::new(list.len(), |i: int| list[i]@)
}

/// The texts of a list with `sep` between each two.
pub open spec fn joined(list: Seq<Seq<char>>, sep: Seq<char>) -> Seq<char>
    decreases list.len(),
{
    if list.len() == 0 {
        Seq::empty()
    } else if list.len() == 1 {
        list[0]
    } else {
        joined(list.drop_last(), sep) + sep + list.last()
    }
}

/// A word of `len` characters, drawn from `state`.
pub open spec fn word_draw(state: int, len: nat) -> (Seq<char>, int) {
    let (text, next) = alphanumeric_draw(state, len);
    (lowercase(text), next)
}

/// `count` words, each with its length drawn before it.
pub open spec fn word_list_draw(state: int, count: nat) -> (Seq<Seq<char>>, int)
    decreases count,
{
    if count == 0 {
        (Seq::empty(), state)
    } else {
        let (list, s1) = word_list_draw(state, (count - 1) as nat);
        let (len, s2) = uniform_draw(s1, usize::BITS as nat, 3, 11);
        let (word, s3) = word_draw(s2, len as nat);
        (list.push(word), s3)
    }
}

/// A list of `min` to `max` words: their number is drawn first.
pub open spec fn many_words_draw(state: int, min: nat, max: nat) -> (Seq<Seq<char>>, int) {
    let (count, next) = uniform_draw(state, usize::BITS as nat, min as int, max as int);
    word_list_draw(next, count as nat)
}

/// A text of `min` to `max` words with blanks between them.
pub open spec fn words_draw(state: int, min: nat, max: nat) -> (Seq<char>, int) {
    let (list, next) = many_words_draw(state, min, max);
    (joined(list, " "@), next)
}

/// `len` hexadecimal digits.
pub open spec fn hex_draw(state: int, len: nat) -> (Seq<char>, int)
    decreases len,
{
    if len == 0 {
        (Seq::empty(), state)
    } else {
        let (text, s1) = hex_draw(state, (len - 1) as nat);
        let (d, s2) = uniform_draw(s1, usize::BITS as nat, 0, 15);
        (text.push(HEX@[d]), s2)
    }
}

/// The first `len` characters of `unit` written over and over.
pub open spec fn cycled(unit: Seq<char>, len: nat) -> Seq<char> {
    Seq::new(len, |i: int| unit[i % unit.len() as int])
}

/// The first `len` characters of the filler prose, written over and over with blanks between.
pub open spec fn filler(len: nat) -> Seq<char> {
    cycled(LOREM@ + " "@, len)
}

/// `text` is filler prose: the prose and a blank, over and over, up to wherever it ends.
pub open spec fn is_prose(text: Seq<char>) -> bool {
    forall|i: int|
        0 <= i < text.len() ==> #[trigger] text[i] == (LOREM@ + " "@)[i % (LOREM@.len() + 1) as int]
}

/// Filler prose of `min_len` to `max_len` characters: its length is drawn.
pub open spec fn lorem_draw(state: int, min_len: nat, max_len: nat) -> (Seq<char>, int) {
    let (len, next) = uniform_draw(state, usize::BITS as nat, min_len as int, max_len as int);
    (filler(len as nat), next)
}

/// `str::to_lowercase`. On ASCII text it maps `A` to `Z` to `a` to `z` and keeps every other
/// character; of other text nothing is said.
pub assume_specification[ str::to_lowercase ](text: &str) -> (lower: String)
    ensures
        text.is_ascii() ==> lower@ == lowercase(text@),
;

/// A random word of `len` lowercase letters and digits.
pub fn wordish(rng: &mut StdRng, len: usize) -> (word: String)
    ensures
        (word@, rng_state(*final(rng))) == word_draw(rng_state(*old(rng)), len as nat),
        word@.len() == len,
        is_word(word@),
        forall|i: int|
            #![trigger word@[i]]
            0 <= i < len ==> is_lowered(
                alphanumeric_draw(rng_state(*old(rng)), len as nat).0[i],
                word@[i],
            ),
{
    let text: String = draw_alphanumeric(rng, len);
    assert forall|i: int| 0 <= i < text@.len() implies '\0' <= #[trigger] text@[i] <= '\u{7f}' by {
        assert(is_alphanumeric(text@[i]));
    }
    let word: String = text.as_str().to_lowercase();
    assert forall|i: int| 0 <= i < word@.len() implies is_word_char(#[trigger] word@[i]) by {
        assert(is_alphanumeric(text@[i]));
    }
    word
}

/// `count` random words of 3 to 11 characters.
fn word_list(rng: &mut StdRng, count: usize) -> (list: Vec<String>)
    ensures
        (texts(list@), rng_state(*final(rng))) == word_list_draw(
            rng_state(*old(rng)),
            count as nat,
        ),
        list@.len() == count,
        are_words(texts(list@)),
{
    let ghost start = rng_state(*rng);
    let mut list: Vec<String> = Vec::new();
    let mut i: usize = 0;
    assert(texts(list@) =~= Seq::<Seq<char>>::empty());
    while i < count
        invariant
            i <= count,
            list@.len() == i,
            (texts(list@), rng_state(*rng)) == word_list_draw(start, i as nat),
            are_words(texts(list@)),
        decreases count - i,
    {
        let ghost before = texts(list@);
        let len: usize = draw_usize(rng, 3, 11);
        let word: String = wordish(rng, len);
        list.push(word);
        i = i + 1;
        assert(texts(list@) =~= before.push(word@));
    }
    list
}

/// The words of a list with blanks between them.
pub fn join_words(list: &Vec<String>) -> (text: String)
    ensures
        text@ == joined(texts(list@), " "@),
{
    let mut text: String = String::new();
    let mut i: usize = 0;
    let ghost all = texts(list@);
    assert(all.take(0) =~= Seq::<Seq<char>>::empty());
    while i < list.len()
        invariant
            i <= list@.len(),
            all == texts(list@),
            text@ == joined(all.take(i as int), " "@),
        decreases list@.len() - i,
    {
        if i > 0 {
            text.append(" ");
        }
        text.append(list[i].as_str());
        assert(all.take(i + 1).drop_last() =~= all.take(i as int));
        assert(all.take(i + 1).last() == list@[i as int]@);
        i = i + 1;
    }
    assert(all.take(all.len() as int) =~= all);
    text
}

/// A text of `min_words` to `max_words` random words.
pub fn words(rng: &mut StdRng, min_words: usize, max_words: usize) -> (text: String)
    requires
        min_words <= max_words,
    ensures
        (text@, rng_state(*final(rng))) == words_draw(
            rng_state(*old(rng)),
            min_words as nat,
            max_words as nat,
        ),
        is_sentence(text@, min_words as nat, max_words as nat),
{
    let list: Vec<String> = many_words(rng, min_words, max_words);
    join_words(&list)
}

/// `text` is `min` to `max` words of 3 to 11 characters, with blanks between them.
pub open spec fn is_sentence(text: Seq<char>, min: nat, max: nat) -> bool {
    exists|list: Seq<Seq<char>>|
        #![trigger are_words(list)]
        are_words(list) && min <= list.len() <= max && text == joined(list, " "@)
}

/// A list of `min` to `max` random words.
pub fn many_words(rng: &mut StdRng, min: usize, max: usize) -> (list: Vec<String>)
    requires
        min <= max,
    ensures
        (texts(list@), rng_state(*final(rng))) == many_words_draw(
            rng_state(*old(rng)),
            min as nat,
            max as nat,
        ),
        min <= list@.len() <= max,
        are_words(texts(list@)),
{
    let count: usize = draw_usize(rng, min, max);
    word_list(rng, count)
}

/// `text` consists of hexadecimal digits.
pub open spec fn is_hex(text: Seq<char>) -> bool {
    forall|i: int|
        0 <= i < text.len() ==> '0' <= #[trigger] text[i] <= '9' || 'a' <= text[i] <= 'f'
}

proof fn lemma_hex_digit(d: int)
    requires
        0 <= d < 16,
    ensures
        HEX@.len() == 16,
        '0' <= HEX@[d] <= '9' || 'a' <= HEX@[d] <= 'f',
{
    reveal_strlit("0123456789abcdef");
}

/// The hexadecimal digits are `0` to `9` and then `a` to `f`.
pub proof fn law_hex_digits_in_order(d: int)
    requires
        0 <= d < 16,
    ensures
        HEX@.len() == 16,
        d < 10 ==> HEX@[d] as int == '0' as int + d,
        d >= 10 ==> HEX@[d] as int == 'a' as int + (d - 10),
{
    reveal_strlit("0123456789abcdef");
}

/// The hexadecimal digit `d`.
pub fn hex_digit(d: usize) -> (text: &'static str)
    requires
        d < 16,
    ensures
        text@ == seq![HEX@[d as int]],
        text@.len() == 1,
        d < 10 ==> text@[0] as int == '0' as int + d,
        d >= 10 ==> text@[0] as int == 'a' as int + (d - 10),
{
    proof {
        law_hex_digits_in_order(d as int);
        lemma_hex_digit(d as int);
    }
    let text: &'static str = HEX.substring_char(d, d + 1);
    assert(text@ =~= seq![HEX@[d as int]]);
    text
}

/// `len` random hexadecimal digits.
pub fn hexish(rng: &mut StdRng, len: usize) -> (text: String)
    ensures
        (text@, rng_state(*final(rng))) == hex_draw(rng_state(*old(rng)), len as nat),
        text@.len() == len,
        is_hex(text@),
{
    let ghost start = rng_state(*rng);
    let mut text: String = String::new();
    let mut i: usize = 0;
    while i < len
        invariant
            i <= len,
            text@.len() == i,
            (text@, rng_state(*rng)) == hex_draw(start, i as nat),
            is_hex(text@),
        decreases len - i,
    {
        let d: usize = draw_usize(rng, 0, 15);
        proof {
            lemma_hex_digit(d as int);
        }
        let ghost before = text@;
        text.append(hex_digit(d));
        i = i + 1;
        assert(text@ =~= before.push(HEX@[d as int]));
    }
    text
}

/// Filler prose of `len` characters.
pub fn filler_text(len: usize) -> (text: String)
    ensures
        text@ == filler(len as nat),
        text@.len() == len,
        is_prose(text@),
{
    let ghost unit = LOREM@ + " "@;
    proof {
        reveal_strlit(" ");
    }
    let mut text: String = String::new();
    let ghost mut rounds: int = 0;
    while text.as_str().unicode_len() < len
        invariant
            unit == LOREM@ + " "@,
            unit.len() > 0,
            rounds >= 0,
            text@.len() == rounds * unit.len(),
            text@ == cycled(unit, text@.len()),
        decreases
            (if text@.len() < len {
                len - text@.len()
            } else {
                0
            }),
    {
        let ghost before = text@;
        text.append(LOREM);
        text.append(" ");
        proof {
            assert(text@ =~= before + unit);
            let n = unit.len() as int;
            assert(text@.len() == (rounds + 1) * n) by (nonlinear_arith)
                requires
                    text@.len() == before.len() + n,
                    before.len() == rounds * n,
            ;
            assert forall|i: int| 0 <= i < text@.len() implies #[trigger] text@[i] == unit[i % n] by {
                if i < before.len() {
                    assert(text@[i] == before[i]);
                    assert(before[i] == cycled(unit, before.len())[i]);
                } else {
                    lemma_fundamental_div_mod_converse(i, n, rounds, i - rounds * n);
                }
            }
            rounds = rounds + 1;
            assert(text@ =~= cycled(unit, text@.len()));
        }
    }
    let cut: String = text.as_str().substring_char(0, len).to_owned();
    assert(cut@ =~= cycled(unit, len as nat));
    proof {
        law_filler_is_prose(len as nat);
    }
    cut
}

/// Random filler prose of `min_len` to `max_len` characters.
pub fn repeat_lorem(rng: &mut StdRng, min_len: usize, max_len: usize) -> (text: String)
    requires
        min_len <= max_len,
    ensures
        (text@, rng_state(*final(rng))) == lorem_draw(
            rng_state(*old(rng)),
            min_len as nat,
            max_len as nat,
        ),
        min_len <= text@.len() <= max_len,
        text@.len() == uniform_draw(
            rng_state(*old(rng)),
            usize::BITS as nat,
            min_len as int,
            max_len as int,
        ).0,
        is_prose(text@),
{
    let target: usize = draw_usize(rng, min_len, max_len);
    filler_text(target)
}

// How the draws hang together

/// Lowering a letter keeps its place in the alphabet, and changes nothing else.
pub proof fn law_lowered(a: char, b: char)
    ensures
        is_lowered(a, b) && 'A' <= a <= 'Z' ==> b as int == a as int + 32,
        is_lowered(a, b) && !('A' <= a <= 'Z') ==> b == a,
{
}

/// A word is the text drawn for it, character by character, with the letters lowered; nothing else
/// is drawn.
pub proof fn law_word_is_drawn(state: int, len: nat)
    ensures
        ({
            let drawn = alphanumeric_draw(state, len);
            let word = word_draw(state, len);
            &&& word.1 == drawn.1
            &&& word.0.len() == drawn.0.len()
            &&& forall|i: int|
                #![trigger word.0[i]]
                #![trigger drawn.0[i]]
                0 <= i < drawn.0.len() ==> is_lowered(drawn.0[i], word.0[i])
        }),
{
}

/// Words are drawn one after the other: drawing `a + b` words is drawing `a` and then `b` more.
/// Drawing none draws nothing; drawing one draws its length, from 3 to 11, and then the word.
pub proof fn law_words_drawn_one_by_one(state: int, a: nat, b: nat)
    ensures
        word_list_draw(state, 0) == (Seq::<Seq<char>>::empty(), state),
        ({
            let len = uniform_draw(state, usize::BITS as nat, 3, 11);
            let word = word_draw(len.1, len.0 as nat);
            word_list_draw(state, 1) == (seq![word.0], word.1)
        }),
        ({
            let first = word_list_draw(state, a);
            let second = word_list_draw(first.1, b);
            word_list_draw(state, a + b) == (first.0 + second.0, second.1)
        }),
        word_list_draw(state, a).0.len() == a,
    decreases b, a,
{
    let len = uniform_draw(state, usize::BITS as nat, 3, 11);
    let word = word_draw(len.1, len.0 as nat);
    assert(word_list_draw(state, 0) == (Seq::<Seq<char>>::empty(), state));
    assert(Seq::<Seq<char>>::empty().push(word.0) =~= seq![word.0]);
    reveal_with_fuel(word_list_draw, 2);
    let first = word_list_draw(state, a);
    if b == 0 {
        assert(first.0 + Seq::<Seq<char>>::empty() =~= first.0);
        if a > 0 {
            law_words_drawn_one_by_one(state, (a - 1) as nat, 0);
        }
    } else {
        law_words_drawn_one_by_one(state, a, (b - 1) as nat);
        let part = word_list_draw(first.1, (b - 1) as nat);
        let l = uniform_draw(part.1, usize::BITS as nat, 3, 11);
        let w = word_draw(l.1, l.0 as nat);
        assert((first.0 + part.0).push(w.0) =~= first.0 + part.0.push(w.0));
        assert((a + b - 1) as nat == a + (b - 1) as nat);
    }
}

/// A list of words has as many as were drawn for it first, and they are the words that follow.
pub proof fn law_list_has_the_number_drawn(state: int, min: nat, max: nat)
    ensures
        ({
            let count = uniform_draw(state, usize::BITS as nat, min as int, max as int);
            let list = many_words_draw(state, min, max);
            count.0 >= 0 ==> list.0.len() == count.0 && list == word_list_draw(
                count.1,
                list.0.len(),
            )
        }),
{
    let count = uniform_draw(state, usize::BITS as nat, min as int, max as int);
    law_words_drawn_one_by_one(count.1, count.0 as nat, 0);
}

/// Joining: the texts of two lists are joined as the lists are, with the separator between them;
/// one text is joined as it is, and none to nothing.
pub proof fn law_joined_adds_up(a: Seq<Seq<char>>, b: Seq<Seq<char>>, sep: Seq<char>, text: Seq<char>)
    ensures
        joined(Seq::empty(), sep) == Seq::<char>::empty(),
        joined(seq![text], sep) == text,
        a.len() > 0 && b.len() > 0 ==> joined(a + b, sep) == joined(a, sep) + sep + joined(b, sep),
    decreases b.len(),
{
    if a.len() > 0 && b.len() > 0 {
        assert((a + b).last() == b.last());
        if b.len() == 1 {
            assert((a + b).drop_last() =~= a);
        } else {
            law_joined_adds_up(a, b.drop_last(), sep, text);
            assert((a + b).drop_last() =~= a + b.drop_last());
            assert(joined(a + b, sep) =~= joined(a, sep) + sep + joined(b, sep));
        }
    }
}

/// A text of words is the list of words that would be drawn in its place, joined by blanks.
pub proof fn law_words_are_the_list_joined(state: int, min: nat, max: nat)
    ensures
        words_draw(state, min, max).0 == joined(many_words_draw(state, min, max).0, seq![' ']),
        words_draw(state, min, max).1 == many_words_draw(state, min, max).1,
{
    reveal_strlit(" ");
    assert(" "@ =~= seq![' ']);
}

/// Hexadecimal digits are drawn one after the other: drawing `a + b` is drawing `a` and then `b`
/// more. Drawing none draws nothing; drawing one draws the value of the digit.
pub proof fn law_hex_drawn_one_by_one(state: int, a: nat, b: nat)
    ensures
        hex_draw(state, 0) == (Seq::<char>::empty(), state),
        ({
            let d = uniform_draw(state, usize::BITS as nat, 0, 15);
            let text = hex_draw(state, 1);
            &&& text.1 == d.1
            &&& text.0.len() == 1
            &&& 0 <= d.0 < 10 ==> text.0[0] as int == '0' as int + d.0
            &&& 10 <= d.0 < 16 ==> text.0[0] as int == 'a' as int + (d.0 - 10)
        }),
        ({
            let first = hex_draw(state, a);
            let second = hex_draw(first.1, b);
            hex_draw(state, a + b) == (first.0 + second.0, second.1)
        }),
        hex_draw(state, a).0.len() == a,
    decreases b, a,
{
    let d = uniform_draw(state, usize::BITS as nat, 0, 15);
    assert(hex_draw(state, 0) == (Seq::<char>::empty(), state));
    reveal_with_fuel(hex_draw, 2);
    if 0 <= d.0 < 16 {
        law_hex_digits_in_order(d.0);
    }
    let first = hex_draw(state, a);
    if b == 0 {
        assert(first.0 + Seq::<char>::empty() =~= first.0);
        if a > 0 {
            law_hex_drawn_one_by_one(state, (a - 1) as nat, 0);
        }
    } else {
        law_hex_drawn_one_by_one(state, a, (b - 1) as nat);
        let part = hex_draw(first.1, (b - 1) as nat);
        let e = uniform_draw(part.1, usize::BITS as nat, 0, 15);
        assert((first.0 + part.0).push(HEX@[e.0]) =~= first.0 + part.0.push(HEX@[e.0]));
        assert((a + b - 1) as nat == a + (b - 1) as nat);
    }
}

/// Filler of any length is as long as asked for, and prose throughout.
pub proof fn law_filler_is_prose(len: nat)
    ensures
        filler(len).len() == len,
        is_prose(filler(len)),
{
    reveal_strlit(" ");
}

/// What prose reads like: at every place it has the character that the prose has there, counted
/// from its last beginning, or the blank after it.
pub proof fn law_prose_reads(text: Seq<char>, i: int)
    requires
        is_prose(text),
        0 <= i < text.len(),
    ensures
        ({
            let prose =
                "Lorem ipsum dolor sit amet, consectetur adipiscing elit. Sed non risus. Suspendisse lectus tortor, dignissim sit amet, adipiscing nec, ultricies sed, dolor. Cras elementum ultrices diam. Maecenas ligula massa, varius a, semper congue, euismod non, mi. Proin porttitor, orci nec nonummy molestie, enim est eleifend mi, non fermentum diam nisl sit amet erat. Duis semper. Duis arcu massa, scelerisque vitae, consequat in, pretium a, enim. Pellentesque congue."@;
            let k = i % (prose.len() + 1) as int;
            text[i] == if k < prose.len() {
                prose[k]
            } else {
                ' '
            }
        }),
{
    reveal_strlit(" ");
    assert(text[i] == (LOREM@ + " "@)[i % (LOREM@.len() + 1) as int]);
}

/// Drawn prose has the length drawn for it, and nothing else is drawn.
pub proof fn law_prose_has_the_length_drawn(state: int, min_len: nat, max_len: nat)
    ensures
        ({
            let len = uniform_draw(state, usize::BITS as nat, min_len as int, max_len as int);
            let text = lorem_draw(state, min_len, max_len);
            &&& text.1 == len.1
            &&& len.0 >= 0 ==> text.0.len() == len.0
            &&& is_prose(text.0)
        }),
{
    let len = uniform_draw(state, usize::BITS as nat, min_len as int, max_len as int);
    law_filler_is_prose(len.0 as nat);
}

/// The texts of a list of strings are those of its strings, in order.
pub proof fn law_texts_in_order(list: Seq<String>, i: int)
    ensures
        texts(list).len() == list.len(),
        0 <= i < list.len() ==> texts(list)[i] == list[i]@,
{
}

} // verus!
