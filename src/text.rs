//! Plain text building blocks: right alignment and decimal rendering.

use vstd::prelude::*;
use vstd::string::*;

verus! {

/// `n` space characters.
pub open spec fn spaces(n: nat) -> Seq<char> {
    Seq::new(n, |i: int| ' ')
}

/// `s` right-aligned in a field of `width` characters: padded on the left
/// with spaces when shorter, left as it is when not.
pub open spec fn pad_left(s: Seq<char>, width: nat) -> Seq<char> {
    if s.len() < width {
        spaces((width - s.len()) as nat) + s
    } else {
        s
    }
}

/// The character of a decimal digit.
pub open spec fn digit_char(d: nat) -> char {
    if d == 0 { '0' }
    else if d == 1 { '1' }
    else if d == 2 { '2' }
    else if d == 3 { '3' }
    else if d == 4 { '4' }
    else if d == 5 { '5' }
    else if d == 6 { '6' }
    else if d == 7 { '7' }
    else if d == 8 { '8' }
    else { '9' }
}

/// The decimal notation of `n`, without leading zeros.
pub open spec fn decimal_of(n: nat) -> Seq<char>
    decreases n,
{
    if n < 10 {
        seq![digit_char(n)]
    } else {
        decimal_of(n / 10).push(digit_char(n % 10))
    }
}

/// A padded field is never shorter than its width, never truncates its
/// content, and ends with that content.
pub proof fn lemma_pad_left_keeps_content(s: Seq<char>, width: nat)
    ensures
        pad_left(s, width).len() == if s.len() < width { width } else { s.len() },
        pad_left(s, width).subrange(
            pad_left(s, width).len() - s.len(),
            pad_left(s, width).len() as int,
        ) == s,
        forall|i: int|
            0 <= i < pad_left(s, width).len() - s.len() ==> #[trigger] pad_left(s, width)[i]
                == ' ',
{
    let p = pad_left(s, width);
    assert(p.subrange(p.len() - s.len(), p.len() as int) =~= s);
}

fn digit_str(d: u64) -> (r: &'static str)
    requires
        d < 10,
    ensures
        r@ == seq![digit_char(d as nat)],
{
    proof {
        reveal_strlit("0");
        reveal_strlit("1");
        reveal_strlit("2");
        reveal_strlit("3");
        reveal_strlit("4");
        reveal_strlit("5");
        reveal_strlit("6");
        reveal_strlit("7");
        reveal_strlit("8");
        reveal_strlit("9");
    }
    let r = match d {
        0 => "0",
        1 => "1",
        2 => "2",
        3 => "3",
        4 => "4",
        5 => "5",
        6 => "6",
        7 => "7",
        8 => "8",
        _ => "9",
    };
    assert(r@ =~= seq![digit_char(d as nat)]);
    r
}

/// The decimal notation of `n`.
pub fn decimal(n: u64) -> (r: String)
    ensures
        r@ == decimal_of(n as nat),
    decreases n,
{
    if n < 10 {
        String::from_str(digit_str(n))
    } else {
        let mut r = decimal(n / 10);
        r.append(digit_str(n % 10));
        r
    }
}

/// `s` right-aligned in a field of `width` characters.
pub fn right_align(s: &str, width: usize) -> (r: String)
    ensures
        r@ == pad_left(s@, width as nat),
{
    let len = s.unicode_len();
    let mut r = String::new();
    let mut k: usize = len;
    proof {
        reveal_strlit(" ");
        assert(" "@ =~= seq![' ']);
    }
    while k < width
        invariant
            len == s@.len(),
            len <= k <= if len < width { width } else { len },
            r@ == spaces((k - len) as nat),
            " "@ == seq![' '],
        decreases width - k,
    {
        r.append(" ");
        k = k + 1;
        assert(r@ =~= spaces((k - len) as nat));
    }
    r.append(s);
    assert(r@ =~= pad_left(s@, width as nat));
    r
}

} // verus!

verus! {

/// How many times `c` occurs in `s`.
pub open spec fn occurrences(s: Seq<char>, c: char) -> nat
    decreases s.len(),
{
    if s.len() == 0 {
        0
    } else {
        occurrences(s.drop_last(), c) + if s.last() == c { 1nat } else { 0nat }
    }
}

/// Occurrences add up over a concatenation.
pub proof fn lemma_occurrences_concat(a: Seq<char>, b: Seq<char>, c: char)
    ensures
        occurrences(a + b, c) == occurrences(a, c) + occurrences(b, c),
    decreases b.len(),
{
    if b.len() == 0 {
        assert(a + b =~= a);
    } else {
        assert((a + b).drop_last() =~= a + b.drop_last());
        lemma_occurrences_concat(a, b.drop_last(), c);
    }
}

/// A character occurs in a sequence exactly when it is counted there.
pub proof fn lemma_occurrences_contains(s: Seq<char>, c: char)
    ensures
        (occurrences(s, c) == 0) == !s.contains(c),
    decreases s.len(),
{
    if s.len() > 0 {
        lemma_occurrences_contains(s.drop_last(), c);
        if s.drop_last().contains(c) {
            let k = choose|k: int| 0 <= k < s.len() - 1 && s.drop_last()[k] == c;
            assert(s[k] == c);
        }
        if s.contains(c) && s.last() != c {
            let k = choose|k: int| 0 <= k < s.len() && s[k] == c;
            assert(s.drop_last()[k] == c);
        }
    }
}

/// The decimal notation holds digits only.
pub proof fn lemma_decimal_digits(n: nat, c: char)
    requires
        !('0' <= c <= '9'),
    ensures
        !decimal_of(n).contains(c),
    decreases n,
{
    if n >= 10 {
        lemma_decimal_digits(n / 10, c);
        let d = decimal_of(n);
        if d.contains(c) {
            let k = choose|k: int| 0 <= k < d.len() && d[k] == c;
            if k < d.len() - 1 {
                assert(decimal_of(n / 10)[k] == c);
            }
        }
    } else {
        assert(decimal_of(n)[0] != c);
    }
}

} // verus!
