//! Decimal numerals: how counts and indices are written into names and messages.
use vstd::prelude::*;

verus! {

/// The character for a digit `0 <= d < 10`.
pub open spec fn digit(d: nat) -> char {
    (48 + d) as char
}

/// The decimal numeral of `n`, without leading zeros.
pub open spec fn decimal(n: nat) -> Seq<char>
    decreases n,
{
    if n < 10 {
        seq![digit(n)]
    } else {
        decimal(n / 10).push(digit(n % 10))
    }
}

/// `count` copies of `c`.
pub open spec fn repeated(c: char, count: nat) -> Seq<char> {
    Seq::new(count, |i: int| c)
}

/// How many fill characters bring a text of `len` characters to `width`.
pub open spec fn fill_count(len: nat, width: nat) -> nat {
    if len < width {
        (width - len) as nat
    } else {
        0
    }
}

/// The numeral of `n`, filled with zeros on the left up to `width` characters.
pub open spec fn zero_padded(n: nat, width: nat) -> Seq<char> {
    repeated('0', fill_count(decimal(n).len(), width)) + decimal(n)
}

/// The numeral of `n`, filled with blanks on the left up to `width` characters.
pub open spec fn right_aligned(n: nat, width: nat) -> Seq<char> {
    repeated(' ', fill_count(decimal(n).len(), width)) + decimal(n)
}

/// The number that a sequence of decimal digits stands for.
pub open spec fn numeral_value(s: Seq<char>) -> int
    decreases s.len(),
{
    if s.len() == 0 {
        0
    } else {
        10 * numeral_value(s.drop_last()) + (s.last() as int - 48)
    }
}

/// Every character of `s` is a decimal digit.
pub open spec fn all_digits(s: Seq<char>) -> bool {
    forall|i: int| 0 <= i < s.len() ==> '0' <= #[trigger] s[i] <= '9'
}

/// A numeral consists of digits, has at least one, and stands for its number.
pub proof fn lemma_decimal(n: nat)
    ensures
        decimal(n).len() >= 1,
        all_digits(decimal(n)),
        numeral_value(decimal(n)) == n,
    decreases n,
{
    if n < 10 {
        let s = decimal(n);
        assert(s.drop_last() =~= Seq::<char>::empty());
        assert(numeral_value(s.drop_last()) == 0);
    } else {
        lemma_decimal(n / 10);
        let s = decimal(n);
        assert(s.drop_last() =~= decimal(n / 10));
    }
}

/// `s` is how the number `n` is written: one or more digits that stand for `n`, the first not a
/// zero where there are others.
pub open spec fn is_numeral(s: Seq<char>, n: int) -> bool {
    &&& s.len() >= 1
    &&& all_digits(s)
    &&& numeral_value(s) == n
    &&& s.len() > 1 ==> s[0] != '0'
}

/// How a numeral is read: its characters are the ten digits, and each further digit makes ten
/// times the number before it and the digit's own value more.
pub proof fn law_numerals_read(s: Seq<char>, c: char, n: int)
    ensures
        numeral_value(Seq::empty()) == 0,
        numeral_value(s.push(c)) == 10 * numeral_value(s) + (c as int - '0' as int),
        all_digits(s) <==> forall|i: int| 0 <= i < s.len() ==> '0' <= #[trigger] s[i] <= '9',
        is_numeral(s, n) ==> {
            &&& s.len() >= 1
            &&& numeral_value(s) == n
            &&& s.len() > 1 ==> s[0] != '0'
            &&& forall|i: int| 0 <= i < s.len() ==> '0' <= #[trigger] s[i] <= '9'
        },
{
    assert(s.push(c).drop_last() =~= s);
}

/// The numeral of `n` reads as `n`, and has no zero in front of it.
pub proof fn law_decimal_reads_back(n: nat)
    ensures
        is_numeral(decimal(n), n as int),
    decreases n,
{
    lemma_decimal(n);
    if n >= 10 {
        law_decimal_reads_back(n / 10);
        lemma_decimal(n / 10);
        assert(decimal(n)[0] == decimal(n / 10)[0]);
        if decimal(n / 10).len() == 1 {
            assert(decimal(n / 10) =~= seq![decimal(n / 10)[0]]);
            assert(n / 10 < 10) by {
                if n / 10 >= 10 {
                    lemma_decimal(n / 10 / 10);
                }
            }
        }
    }
}

/// There is only one way to write a number.
pub proof fn law_one_numeral(s: Seq<char>, n: nat)
    requires
        is_numeral(s, n as int),
    ensures
        s == decimal(n),
    decreases s.len(),
{
    let head = s.drop_last();
    assert(s =~= head.push(s.last()));
    assert('0' <= s[s.len() - 1] <= '9');
    if s.len() == 1 {
        assert(numeral_value(head) == 0);
        assert(n == s.last() as int - 48);
        assert(digit(n) == s.last());
        assert(s =~= decimal(n));
    } else {
        assert forall|i: int| 0 <= i < head.len() implies '0' <= #[trigger] head[i] <= '9' by {
            assert(head[i] == s[i]);
        }
        lemma_numeral_nonnegative(head);
        assert(head[0] == s[0]);
        lemma_numeral_positive(head);
        assert(n / 10 == numeral_value(head));
        law_one_numeral(head, n / 10);
        assert(n >= 10 && n % 10 == s.last() as int - 48);
        assert(digit(n % 10) == s.last());
        assert(decimal(n) == decimal(n / 10).push(digit(n % 10)));
    }
}

proof fn lemma_numeral_nonnegative(s: Seq<char>)
    requires
        all_digits(s),
    ensures
        numeral_value(s) >= 0,
    decreases s.len(),
{
    if s.len() > 0 {
        assert('0' <= s[s.len() - 1] <= '9');
        lemma_numeral_nonnegative(s.drop_last());
    }
}

proof fn lemma_numeral_positive(s: Seq<char>)
    requires
        all_digits(s),
        s.len() > 0,
        s[0] != '0',
    ensures
        numeral_value(s) > 0,
    decreases s.len(),
{
    assert('0' <= s[s.len() - 1] <= '9');
    if s.len() > 1 {
        lemma_numeral_positive(s.drop_last());
    } else {
        assert(numeral_value(s.drop_last()) == 0);
    }
}

/// A zero-padded numeral reads as its number, and is as long as asked for, or as its number needs.
pub proof fn law_zero_padded_reads_back(n: nat, width: nat)
    ensures
        all_digits(zero_padded(n, width)),
        numeral_value(zero_padded(n, width)) == n,
        zero_padded(n, width).len() == width || is_numeral(zero_padded(n, width), n as int),
        width <= zero_padded(n, width).len(),
        zero_padded(n, width).len() >= 1,
{
    lemma_zero_padded(n, width);
    law_decimal_reads_back(n);
    if decimal(n).len() >= width {
        assert(zero_padded(n, width) =~= decimal(n));
    }
}

/// A right-aligned numeral is blanks and then the numeral, as long as asked for, or as its number
/// needs.
pub proof fn law_right_aligned_reads_back(n: nat, width: nat)
    ensures
        exists|blanks: nat|
            {
                &&& #[trigger] right_aligned(n, width).skip(blanks as int).len()
                    + blanks == right_aligned(n, width).len()
                &&& is_numeral(right_aligned(n, width).skip(blanks as int), n as int)
                &&& forall|i: int| 0 <= i < blanks ==> #[trigger] right_aligned(n, width)[i] == ' '
                &&& blanks == 0 || right_aligned(n, width).len() == width
            },
        width <= right_aligned(n, width).len(),
{
    law_decimal_reads_back(n);
    let blanks = fill_count(decimal(n).len(), width);
    assert(right_aligned(n, width).skip(blanks as int) =~= decimal(n));
}

/// Leading zeros do not change the number that a numeral stands for.
proof fn lemma_leading_zeros(count: nat, s: Seq<char>)
    ensures
        numeral_value(repeated('0', count) + s) == numeral_value(s),
    decreases count, s.len(),
{
    let t = repeated('0', count) + s;
    if s.len() > 0 {
        lemma_leading_zeros(count, s.drop_last());
        assert(t.drop_last() =~= repeated('0', count) + s.drop_last());
    } else if count > 0 {
        lemma_leading_zeros((count - 1) as nat, s);
        assert(t.drop_last() =~= repeated('0', (count - 1) as nat) + s);
    } else {
        assert(t =~= s);
    }
}

/// A zero-padded numeral consists of digits and stands for its number.
pub proof fn lemma_zero_padded(n: nat, width: nat)
    ensures
        all_digits(zero_padded(n, width)),
        zero_padded(n, width).len() >= 1,
        numeral_value(zero_padded(n, width)) == n,
{
    lemma_decimal(n);
    lemma_leading_zeros(fill_count(decimal(n).len(), width), decimal(n));
}

/// Two numbers with the same zero-padded numeral are the same number.
pub proof fn lemma_zero_padded_injective(a: nat, b: nat, width: nat)
    requires
        zero_padded(a, width) == zero_padded(b, width),
    ensures
        a == b,
{
    lemma_zero_padded(a, width);
    lemma_zero_padded(b, width);
}

/// The numeral of a smaller number is not longer.
pub proof fn lemma_decimal_len_monotone(a: nat, b: nat)
    requires
        a <= b,
    ensures
        decimal(a).len() <= decimal(b).len(),
    decreases b,
{
    if b >= 10 && a >= 10 {
        lemma_decimal_len_monotone(a / 10, b / 10);
    } else {
        lemma_decimal(b);
    }
}

/// Ten to the power of `len`: the first number that needs more than `len` digits.
pub open spec fn ten_to(len: nat) -> nat
    decreases len,
{
    if len == 0 {
        1
    } else {
        10 * ten_to((len - 1) as nat)
    }
}

/// The length of a numeral places its number between two powers of ten.
pub proof fn lemma_decimal_len(n: nat)
    ensures
        n < ten_to(decimal(n).len()),
        n > 0 ==> ten_to((decimal(n).len() - 1) as nat) <= n,
    decreases n,
{
    lemma_decimal(n);
    if n < 10 {
        assert(ten_to(1) == 10 * ten_to(0));
    } else {
        lemma_decimal_len(n / 10);
        lemma_decimal(n / 10);
        let k = decimal(n / 10).len();
        assert(decimal(n).len() == k + 1);
        assert(ten_to(k + 1) == 10 * ten_to(k));
        assert(ten_to(k) == 10 * ten_to((k - 1) as nat));
    }
}

/// `a` and `b` agree before position `k` and `a` has the lower character there.
pub open spec fn differ_first_at(a: Seq<char>, b: Seq<char>, k: int) -> bool {
    &&& 0 <= k < a.len()
    &&& k < b.len()
    &&& forall|i: int| 0 <= i < k ==> #[trigger] a[i] == b[i]
    &&& a[k] < b[k]
}

/// `a` comes before `b` in character order, by the first place where they differ.
pub open spec fn sorts_before(a: Seq<char>, b: Seq<char>) -> bool {
    exists|k: int| differ_first_at(a, b, k)
}

/// Of two digit sequences of one length, the one for the lower number sorts first.
proof fn lemma_numeral_order(a: Seq<char>, b: Seq<char>)
    requires
        a.len() == b.len(),
        all_digits(a),
        all_digits(b),
        numeral_value(a) < numeral_value(b),
    ensures
        sorts_before(a, b),
    decreases a.len(),
{
    let a0 = a.drop_last();
    let b0 = b.drop_last();
    if numeral_value(a0) < numeral_value(b0) {
        lemma_numeral_order(a0, b0);
        let k = choose|k: int| differ_first_at(a0, b0, k);
        assert forall|i: int| 0 <= i < k implies #[trigger] a[i] == b[i] by {
            assert(a0[i] == b0[i]);
        }
        assert(differ_first_at(a, b, k));
    } else {
        assert('0' <= a[a.len() - 1] <= '9');
        assert('0' <= b[b.len() - 1] <= '9');
        lemma_numeral_injective(a0, b0);
        assert forall|i: int| 0 <= i < a.len() - 1 implies #[trigger] a[i] == b[i] by {
            assert(a0[i] == b0[i]);
        }
        assert(differ_first_at(a, b, a.len() - 1));
    }
}

/// Digit sequences of one length that stand for the same number are the same.
proof fn lemma_numeral_injective(a: Seq<char>, b: Seq<char>)
    requires
        a.len() == b.len(),
        all_digits(a),
        all_digits(b),
        numeral_value(a) == numeral_value(b),
    ensures
        a == b,
    decreases a.len(),
{
    if a.len() > 0 {
        assert('0' <= a[a.len() - 1] <= '9');
        assert('0' <= b[b.len() - 1] <= '9');
        lemma_numeral_injective(a.drop_last(), b.drop_last());
        assert(a =~= a.drop_last().push(a.last()));
        assert(b =~= b.drop_last().push(b.last()));
    } else {
        assert(a =~= b);
    }
}

/// Zero-padded to one length, the numeral of the lower number sorts first.
pub proof fn lemma_zero_padded_order(a: nat, b: nat, width: nat)
    requires
        a < b,
        zero_padded(a, width).len() == zero_padded(b, width).len(),
    ensures
        sorts_before(zero_padded(a, width), zero_padded(b, width)),
{
    lemma_zero_padded(a, width);
    lemma_zero_padded(b, width);
    lemma_numeral_order(zero_padded(a, width), zero_padded(b, width));
}

/// The text of one digit.
fn digit_text(d: u64) -> (r: &'static str)
    requires
        d < 10,
    ensures
        r@ == seq![digit(d as nat)],
{
    proof {
        reveal_strlit("0");
        reveal_strlit("1");
        reveal_strlit("2");
        reveal_strlit("3");
        reveal_strlit("4");
        reveal_strlit("5");
        reveal_strlit("6");
        reveal_strlit("7");
        reveal_strlit("8");
        reveal_strlit("9");
    }
    match d {
        0 => "0",
        1 => "1",
        2 => "2",
        3 => "3",
        4 => "4",
        5 => "5",
        6 => "6",
        7 => "7",
        8 => "8",
        _ => "9",
    }
}

/// Appends the decimal numeral of `n`.
pub fn push_decimal(s: &mut String, n: u64)
    ensures
        final(s)@ == old(s)@ + decimal(n as nat),
    decreases n,
{
    if n >= 10 {
        push_decimal(s, n / 10);
    }
    s.append(digit_text(n % 10));
}

/// The number of digits in the decimal numeral of `n`.
pub fn decimal_len(n: u64) -> (len: usize)
    ensures
        len == decimal(n as nat).len(),
        1 <= len <= 20,
{
    let mut len: usize = 1;
    let mut rest: u64 = n;
    proof {
        assert(ten_to(20) == 100_000_000_000_000_000_000) by {
            reveal_with_fuel(ten_to, 21);
        }
        lemma_decimal_len(n as nat);
        if decimal(n as nat).len() > 20 {
            lemma_ten_to_monotone(20, (decimal(n as nat).len() - 1) as nat);
        }
    }
    while rest >= 10
        invariant
            len >= 1,
            len - 1 + decimal(rest as nat).len() == decimal(n as nat).len(),
            decimal(n as nat).len() <= 20,
        decreases rest,
    {
        proof {
            lemma_decimal((rest / 10) as nat);
        }
        rest = rest / 10;
        len = len + 1;
    }
    len
}

proof fn lemma_ten_to_monotone(a: nat, b: nat)
    requires
        a <= b,
    ensures
        ten_to(a) <= ten_to(b),
    decreases b,
{
    if a < b {
        lemma_ten_to_monotone(a, (b - 1) as nat);
    }
}

/// Appends `count` copies of the one-character text `unit`.
fn push_repeated(s: &mut String, unit: &str, count: usize)
    requires
        unit@.len() == 1,
    ensures
        final(s)@ == old(s)@ + repeated(unit@[0], count as nat),
{
    let ghost before = s@;
    let mut i: usize = 0;
    assert(s@ =~= before + repeated(unit@[0], 0));
    while i < count
        invariant
            i <= count,
            unit@.len() == 1,
            s@ == before + repeated(unit@[0], i as nat),
        decreases count - i,
    {
        s.append(unit);
        i = i + 1;
        assert(s@ =~= before + repeated(unit@[0], i as nat));
    }
}

/// Appends `n` right-aligned in a field of `width` characters, filled with `fill`.
fn push_filled(s: &mut String, n: u64, width: usize, fill: &str)
    requires
        fill@.len() == 1,
    ensures
        final(s)@ == old(s)@ + repeated(fill@[0], fill_count(decimal(n as nat).len(), width as nat))
            + decimal(n as nat),
{
    let len: usize = decimal_len(n);
    if len < width {
        push_repeated(s, fill, width - len);
    } else {
        push_repeated(s, fill, 0);
    }
    push_decimal(s, n);
}

/// Appends `n`, zero-padded to `width` characters.
pub fn push_zero_padded(s: &mut String, n: u64, width: usize)
    ensures
        final(s)@ == old(s)@ + zero_padded(n as nat, width as nat),
{
    proof {
        reveal_strlit("0");
    }
    push_filled(s, n, width, "0");
}

/// Appends `n`, right-aligned in a field of `width` characters.
pub fn push_right_aligned(s: &mut String, n: u64, width: usize)
    ensures
        final(s)@ == old(s)@ + right_aligned(n as nat, width as nat),
{
    proof {
        reveal_strlit(" ");
    }
    push_filled(s, n, width, " ");
}

} // verus!
