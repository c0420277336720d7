//! Characters and decimal numbers in strings.
use vstd::prelude::*;
use vstd::string::*;

verus! {

/// The position of the first `c` in `s`, or the length of `s` where there is none.
pub open spec fn first_index(s: Seq<char>, c: char) -> nat
    decreases s.len(),
{
    if s.len() == 0 || s[0] == c {
        0
    } else {
        1 + first_index(s.skip(1), c)
    }
}

/// `first_index` is the position that nothing before matches, and that matches unless it is
/// the end.
pub proof fn lemma_first_index(s: Seq<char>, c: char)
    ensures
        first_index(s, c) <= s.len(),
        forall|i: int| 0 <= i < first_index(s, c) ==> s[i] != c,
        first_index(s, c) < s.len() ==> s[first_index(s, c) as int] == c,
        first_index(s, c) < s.len() <==> s.contains(c),
    decreases s.len(),
{
    if s.len() != 0 && s[0] != c {
        let rest = s.skip(1);
        lemma_first_index(rest, c);
        assert forall|i: int| 0 <= i < first_index(s, c) implies s[i] != c by {
            if i > 0 {
                assert(rest[i - 1] == s[i]);
            }
        }
        if s.contains(c) {
            let i = choose|i: int| 0 <= i < s.len() && s[i] == c;
            assert(rest[i - 1] == c);
        }
    }
}

/// A position that matches, with no match before it, is `first_index`.
pub proof fn lemma_first_index_is(s: Seq<char>, c: char, at: int)
    requires
        0 <= at <= s.len(),
        forall|i: int| 0 <= i < at ==> s[i] != c,
        at < s.len() ==> s[at] == c,
    ensures
        first_index(s, c) == at,
{
    lemma_first_index(s, c);
}

/// The decimal digit `d`.
pub open spec fn digit_text(d: nat) -> Seq<char> {
    if d == 0 {
        "0"@
    } else if d == 1 {
        "1"@
    } else if d == 2 {
        "2"@
    } else if d == 3 {
        "3"@
    } else if d == 4 {
        "4"@
    } else if d == 5 {
        "5"@
    } else if d == 6 {
        "6"@
    } else if d == 7 {
        "7"@
    } else if d == 8 {
        "8"@
    } else {
        "9"@
    }
}

/// `n` in decimal, without leading zeros.
pub open spec fn decimal_text(n: nat) -> Seq<char>
    decreases n,
{
    if n < 10 {
        digit_text(n)
    } else {
        decimal_text(n / 10) + digit_text(n % 10)
    }
}

fn digit(d: u16) -> (text: &'static str)
    requires
        d < 10,
    ensures
        text@ == digit_text(d as nat),
{
    match d {
        0 => "0",
        1 => "1",
        2 => "2",
        3 => "3",
        4 => "4",
        5 => "5",
        6 => "6",
        7 => "7",
        8 => "8",
        _ => "9",
    }
}

/// Writes `n` in decimal.
pub fn decimal(n: u16) -> (text: String)
    ensures
        text@ == decimal_text(n as nat),
    decreases n,
{
    if n < 10 {
        digit(n).to_owned()
    } else {
        decimal(n / 10).concat(digit(n % 10))
    }
}

/// Finds the first `c` in `s`.
pub fn find(s: &str, c: char) -> (at: Option<usize>)
    ensures
        match at {
            Some(at) => at < s@.len() && at == first_index(s@, c),
            None => first_index(s@, c) == s@.len() && !s@.contains(c),
        },
{
    let len = s.unicode_len();
    let mut i: usize = 0;
    for ch in it: s.chars()
        invariant
            len == s@.len(),
            i == it.index(),
            it.seq() == s@,
            forall|j: int| 0 <= j < i ==> s@[j] != c,
    {
        if ch == c {
            proof {
                lemma_first_index_is(s@, c, i as int);
            }
            return Some(i);
        }
        i = i + 1;
    }
    proof {
        lemma_first_index_is(s@, c, s@.len() as int);
        lemma_first_index(s@, c);
    }
    None
}

/// Tells whether `s` ends in `c`.
pub fn ends_in(s: &str, c: char) -> (answer: bool)
    ensures
        answer == (s@.len() > 0 && s@.last() == c),
{
    let len = s.unicode_len();
    len > 0 && s.get_char(len - 1) == c
}

/// The last digit of a number is its remainder by ten, and what stands before it is the tenth of
/// the number. A number below ten is one digit.
pub proof fn decimal_goes_digit_by_digit(n: nat)
    ensures
        decimal_text(n).len() > 0,
        decimal_text(n).last() as int == '0' as int + n % 10,
        n < 10 ==> decimal_text(n).len() == 1,
        n >= 10 ==> decimal_text(n).drop_last() == decimal_text(n / 10),
{
    reveal_strlit("0");
    reveal_strlit("1");
    reveal_strlit("2");
    reveal_strlit("3");
    reveal_strlit("4");
    reveal_strlit("5");
    reveal_strlit("6");
    reveal_strlit("7");
    reveal_strlit("8");
    reveal_strlit("9");
    if n >= 10 {
        assert(decimal_text(n).drop_last() =~= decimal_text(n / 10));
    }
}

/// The decimal text of a number is made of digits, has no leading zero unless the number is zero,
/// and gives the number back when it is read digit by digit.
pub proof fn decimal_reads_back(n: nat)
    ensures
        forall|i: int|
            0 <= i < decimal_text(n).len() ==> '0' <= #[trigger] decimal_text(n)[i] <= '9',
        n > 0 ==> decimal_text(n)[0] != '0',
        decimal_text(n).fold_left(
            0int,
            |value: int, digit: char| value * 10 + (digit as int - '0' as int),
        ) == n,
    decreases n,
{
    let read = |value: int, digit: char| value * 10 + (digit as int - '0' as int);
    let text = decimal_text(n);
    decimal_goes_digit_by_digit(n);
    reveal_with_fuel(Seq::fold_left, 2);
    if n >= 10 {
        let front = decimal_text(n / 10);
        decimal_reads_back(n / 10);
        decimal_goes_digit_by_digit(n / 10);
        assert forall|i: int| 0 <= i < text.len() implies '0' <= #[trigger] text[i] <= '9' by {
            if i < front.len() {
                assert(text.drop_last()[i] == front[i]);
            } else {
                assert(text[i] == text.last());
            }
        }
        assert(text.drop_last()[0] == front[0]);
        assert(text.fold_left(0int, read) == read(front.fold_left(0int, read), text.last()));
    } else {
        assert(text.drop_last() =~= Seq::empty());
        assert(text.fold_left(0int, read) == read(0, text.last()));
        assert forall|i: int| 0 <= i < text.len() implies '0' <= #[trigger] text[i] <= '9' by {
            assert(text[i] == text.last());
        }
    }
}

/// Different numbers have different decimal texts.
pub proof fn decimal_tells_numbers_apart(m: nat, n: nat)
    requires
        decimal_text(m) == decimal_text(n),
    ensures
        m == n,
{
    decimal_reads_back(m);
    decimal_reads_back(n);
    let read = |value: int, digit: char| value * 10 + (digit as int - '0' as int);
    assert(decimal_text(m).fold_left(0int, read) == m);
    assert(decimal_text(n).fold_left(0int, read) == n);
}

} // verus!
