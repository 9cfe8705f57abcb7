//! Text as lists of characters: comparing, searching, and writing numbers.

use vstd::prelude::*;

verus! {

/// The characters of `s`.
pub fn to_chars(s: &str) -> (v: Vec<char>)
    ensures
        v@ == s@,
{
    let mut v: Vec<char> = Vec::new();
    for c in iter: s.chars()
        invariant
            iter.seq() == s@,
            v@ == s@.take(iter.index() as int),
    {
        v.push(c);
    }
    v
}

/// Whether `want` stands in `have` at position `at`.
pub open spec fn stands_at(have: Seq<char>, want: Seq<char>, at: int) -> bool {
    0 <= at && at + want.len() <= have.len() && have.subrange(at, at + want.len()) == want
}

/// Whether `have` begins with `want`.
pub open spec fn starts_with(have: Seq<char>, want: Seq<char>) -> bool {
    stands_at(have, want, 0)
}

/// Whether `have` ends with `want`.
pub open spec fn ends_with(have: Seq<char>, want: Seq<char>) -> bool {
    stands_at(have, want, have.len() - want.len())
}

/// Whether `want` stands somewhere in `have`.
pub open spec fn contains_run(have: Seq<char>, want: Seq<char>) -> bool {
    exists|at: int| stands_at(have, want, at)
}

/// Whether `want` stands in `have` at position `at`.
pub fn found_at(have: &Vec<char>, want: &Vec<char>, at: usize) -> (b: bool)
    ensures
        b == stands_at(have@, want@, at as int),
{
    if want.len() > have.len() || at > have.len() - want.len() {
        return false;
    }
    let mut i: usize = 0;
    while i < want.len()
        invariant
            i <= want@.len(),
            at + want@.len() <= have@.len() <= usize::MAX,
            forall|j: int| 0 <= j < i ==> have@[at + j] == want@[j],
        decreases want@.len() - i,
    {
        if have[at + i] != want[i] {
            return false;
        }
        i += 1;
    }
    assert(have@.subrange(at as int, at + want@.len()) =~= want@);
    true
}

/// Whether two texts are the same.
pub fn same_chars(a: &Vec<char>, b: &Vec<char>) -> (same: bool)
    ensures
        same == (a@ == b@),
{
    if a.len() != b.len() {
        return false;
    }
    let same = found_at(a, b, 0);
    assert(a@.subrange(0, a@.len() as int) =~= a@);
    same
}

/// Whether two texts are the same.
pub fn same_text(a: &str, b: &str) -> (same: bool)
    ensures
        same == (a@ == b@),
{
    let a = to_chars(a);
    let b = to_chars(b);
    same_chars(&a, &b)
}

/// Whether `want` stands somewhere in `have`.
pub fn find_run(have: &Vec<char>, want: &Vec<char>) -> (found: bool)
    ensures
        found == contains_run(have@, want@),
{
    if want.len() > have.len() {
        return false;
    }
    let last: usize = have.len() - want.len();
    let mut at: usize = 0;
    loop
        invariant
            last == have@.len() - want@.len(),
            at <= last,
            forall|k: int| 0 <= k < at ==> !stands_at(have@, want@, k),
        decreases last - at,
    {
        if found_at(have, want, at) {
            return true;
        }
        if at == last {
            return false;
        }
        at += 1;
    }
}

/// `s` without the characters equal to `c`.
pub open spec fn without(s: Seq<char>, c: char) -> Seq<char> {
    s.filter(|x: char| x != c)
}

/// `v` without the characters equal to `c`.
pub fn strip(v: &Vec<char>, c: char) -> (out: Vec<char>)
    ensures
        out@ == without(v@, c),
{
    let mut out: Vec<char> = Vec::new();
    let mut i: usize = 0;
    while i < v.len()
        invariant
            i <= v@.len(),
            out@ == without(v@.take(i as int), c),
        decreases v@.len() - i,
    {
        proof {
            reveal(Seq::filter);
            assert(v@.take(i + 1).drop_last() =~= v@.take(i as int));
        }
        if v[i] != c {
            out.push(v[i]);
        }
        i += 1;
    }
    assert(v@.take(v@.len() as int) =~= v@);
    out
}

/// The character of a digit from 0 to 9.
pub open spec fn digit_char(d: int) -> char {
    if d == 0 {
        '0'
    } else if d == 1 {
        '1'
    } else if d == 2 {
        '2'
    } else if d == 3 {
        '3'
    } else if d == 4 {
        '4'
    } else if d == 5 {
        '5'
    } else if d == 6 {
        '6'
    } else if d == 7 {
        '7'
    } else if d == 8 {
        '8'
    } else {
        '9'
    }
}

/// `n` written in decimal, without leading zeros.
pub open spec fn decimal(n: nat) -> Seq<char>
    decreases n,
{
    if n < 10 {
        seq![digit_char(n as int)]
    } else {
        decimal(n / 10).push(digit_char((n % 10) as int))
    }
}

/// The character of a digit from 0 to 9.
pub fn digit_of(d: u64) -> (c: char)
    requires
        d < 10,
    ensures
        c == digit_char(d as int),
{
    if d == 0 {
        '0'
    } else if d == 1 {
        '1'
    } else if d == 2 {
        '2'
    } else if d == 3 {
        '3'
    } else if d == 4 {
        '4'
    } else if d == 5 {
        '5'
    } else if d == 6 {
        '6'
    } else if d == 7 {
        '7'
    } else if d == 8 {
        '8'
    } else {
        '9'
    }
}

/// `n` written in decimal, without leading zeros.
pub fn decimal_of(n: u64) -> (text: Vec<char>)
    ensures
        text@ == decimal(n as nat),
    decreases n,
{
    if n < 10 {
        let mut text: Vec<char> = Vec::new();
        text.push(digit_of(n));
        text
    } else {
        let mut text = decimal_of(n / 10);
        text.push(digit_of(n % 10));
        text
    }
}

/// The text of one decimal digit.
pub fn digit_text(c: char) -> (text: &'static str)
    requires
        '0' <= c <= '9',
    ensures
        text@ == seq![c],
{
    proof {
        reveal_strlit("0");
        reveal_strlit("1");
        reveal_strlit("2");
        reveal_strlit("3");
        reveal_strlit("4");
        reveal_strlit("5");
        reveal_strlit("6");
        reveal_strlit("7");
        reveal_strlit("8");
        reveal_strlit("9");
    }
    let text = if c == '0' {
        "0"
    } else if c == '1' {
        "1"
    } else if c == '2' {
        "2"
    } else if c == '3' {
        "3"
    } else if c == '4' {
        "4"
    } else if c == '5' {
        "5"
    } else if c == '6' {
        "6"
    } else if c == '7' {
        "7"
    } else if c == '8' {
        "8"
    } else {
        "9"
    };
    text
}

/// `%` and `n` in decimal: the selector that names the element `n`.
pub fn id_selector(n: u64) -> (text: String)
    ensures
        text@ == seq!['%'] + decimal(n as nat),
{
    proof {
        reveal_strlit("%");
    }
    let mut text = "%".to_owned();
    let digits = decimal_of(n);
    proof {
        lemma_decimal_digits(n as nat);
    }
    let mut i: usize = 0;
    while i < digits.len()
        invariant
            i <= digits@.len(),
            digits@ == decimal(n as nat),
            forall|k: int| 0 <= k < digits@.len() ==> '0' <= #[trigger] digits@[k] <= '9',
            text@ == seq!['%'] + digits@.take(i as int),
        decreases digits@.len() - i,
    {
        text.append(digit_text(digits[i]));
        i += 1;
    }
    text
}

/// A number in decimal is made of digits.
pub proof fn lemma_decimal_digits(n: nat)
    ensures
        decimal(n).len() > 0,
        forall|k: int| 0 <= k < decimal(n).len() ==> '0' <= #[trigger] decimal(n)[k] <= '9',
    decreases n,
{
    if n >= 10 {
        lemma_decimal_digits(n / 10);
    }
}

} // verus!
