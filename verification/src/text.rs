//! Text building blocks: decimal numerals and concatenation.
//!
//! Every message and every epoch fingerprint of the kernel is assembled from
//! these few functions, so that the exact text stands in the contracts.

use vstd::prelude::*;
use vstd::string::*;

verus! {

/// The character of one decimal digit.
pub open spec fn digit_char(d: nat) -> char {
    if d == 0 {
        '0'
    } else if d == 1 {
        '1'
    } else if d == 2 {
        '2'
    } else if d == 3 {
        '3'
    } else if d == 4 {
        '4'
    } else if d == 5 {
        '5'
    } else if d == 6 {
        '6'
    } else if d == 7 {
        '7'
    } else if d == 8 {
        '8'
    } else {
        '9'
    }
}

/// The decimal numeral of `n`, without leading zeros.
pub open spec fn numeral(n: nat) -> Seq<char>
    decreases n,
{
    if n < 10 {
        seq![digit_char(n)]
    } else {
        numeral(n / 10).push(digit_char(n % 10))
    }
}

/// Whether every character of `s` differs from `c`.
pub open spec fn free_of(s: Seq<char>, c: char) -> bool {
    forall|i: int| 0 <= i < s.len() ==> s[i] != c
}

/// What a list of strings says.
pub open spec fn texts(list: Seq<String>) -> Seq<Seq<char>> {
    list.map_values(|s: String| s@)
}

fn digit_text(d: u64) -> (res: &'static str)
    requires
        d < 10,
    ensures
        res@ == seq![digit_char(d as nat)],
{
    proof {
        reveal_strlit("0");
        reveal_strlit("1");
        reveal_strlit("2");
        reveal_strlit("3");
        reveal_strlit("4");
        reveal_strlit("5");
        reveal_strlit("6");
        reveal_strlit("7");
        reveal_strlit("8");
        reveal_strlit("9");
    }
    let res: &'static str = if d == 0 {
        "0"
    } else if d == 1 {
        "1"
    } else if d == 2 {
        "2"
    } else if d == 3 {
        "3"
    } else if d == 4 {
        "4"
    } else if d == 5 {
        "5"
    } else if d == 6 {
        "6"
    } else if d == 7 {
        "7"
    } else if d == 8 {
        "8"
    } else {
        "9"
    };
    assert(res@ =~= seq![digit_char(d as nat)]);
    res
}

/// Render `n` in decimal.
pub fn decimal(n: u64) -> (res: String)
    ensures
        res@ == numeral(n as nat),
    decreases n,
{
    if n < 10 {
        digit_text(n).to_owned()
    } else {
        let mut res: String = decimal(n / 10);
        res.append(digit_text(n % 10));
        assert(res@ =~= numeral(n as nat));
        res
    }
}

/// Concatenate three fragments.
pub fn join3(a: &str, b: &str, c: &str) -> (res: String)
    ensures
        res@ == a@ + b@ + c@,
{
    let mut res: String = a.to_owned();
    res.append(b);
    res.append(c);
    res
}

/// A numeral is never empty and consists of digits only.
pub proof fn lemma_numeral_is_digits(n: nat)
    ensures
        numeral(n).len() > 0,
        free_of(numeral(n), ':'),
    decreases n,
{
    if n >= 10 {
        lemma_numeral_is_digits(n / 10);
    }
}

/// Two numerals are the same text only if they denote the same number.
pub proof fn lemma_numeral_injective(a: nat, b: nat)
    requires
        numeral(a) == numeral(b),
    ensures
        a == b,
    decreases a,
{
    lemma_numeral_is_digits(a / 10);
    lemma_numeral_is_digits(b / 10);
    assert(numeral(a).last() == numeral(b).last());
    assert(numeral(a).last() == digit_char(a % 10));
    assert(numeral(b).last() == digit_char(b % 10));
    assert(a % 10 == b % 10);
    if a >= 10 {
        assert(numeral(a).len() > 1);
        assert(b >= 10);
        assert(numeral(a).drop_last() =~= numeral(a / 10));
        assert(numeral(b).drop_last() =~= numeral(b / 10));
        lemma_numeral_injective(a / 10, b / 10);
    } else {
        assert(numeral(a).len() == 1);
        if b >= 10 {
            assert(numeral(b).len() > 1);
        }
    }
}

/// Splitting at the last separator is unambiguous.
pub proof fn lemma_last_separator(a: Seq<char>, x: Seq<char>, b: Seq<char>, y: Seq<char>, c: char)
    requires
        a.push(c) + x == b.push(c) + y,
        free_of(x, c),
        free_of(y, c),
    ensures
        a == b,
        x == y,
{
    let s = a.push(c) + x;
    let t = b.push(c) + y;
    assert(s[a.len() as int] == c);
    assert(t[b.len() as int] == c);
    assert(s.len() == a.len() + 1 + x.len());
    assert(t.len() == b.len() + 1 + y.len());
    if a.len() < b.len() {
        assert(s[b.len() as int] == x[b.len() - a.len() - 1]);
    } else if b.len() < a.len() {
        assert(t[a.len() as int] == y[a.len() - b.len() - 1]);
    }
    assert(a.len() == b.len());
    assert(a =~= s.subrange(0, a.len() as int));
    assert(b =~= t.subrange(0, b.len() as int));
    assert(x =~= s.subrange(a.len() as int + 1, s.len() as int));
    assert(y =~= t.subrange(b.len() as int + 1, t.len() as int));
}

/// The number that a text of decimal digits denotes.
pub open spec fn denotes(text: Seq<char>) -> int
    decreases text.len(),
{
    if text.len() == 0 {
        0
    } else {
        denotes(text.drop_last()) * 10 + (text.last() as int - '0' as int)
    }
}

/// A numeral denotes its number in decimal: it consists of digits, the first of
/// which is no zero unless it is the only one, and what they denote is the
/// number.
pub proof fn law_numeral_denotes_its_number(n: nat)
    ensures
        denotes(numeral(n)) == n,
        numeral(n).len() > 0,
        numeral(n).len() > 1 ==> numeral(n)[0] != '0',
        forall|i: int| 0 <= i < numeral(n).len() ==> '0' <= #[trigger] numeral(n)[i] <= '9',
    decreases n,
{
    reveal_with_fuel(denotes, 2);
    if n < 10 {
        assert(numeral(n).drop_last() =~= Seq::empty());
    } else {
        law_numeral_denotes_its_number(n / 10);
        assert(numeral(n).drop_last() =~= numeral(n / 10));
    }
}

} // verus!
