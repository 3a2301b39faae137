//! Default display names: `Player` followed by the decimal digits of an id,
//! rendered by verified code.

use vstd::prelude::*;

verus! {

/// The character for one decimal digit.
pub open spec fn digit_char(d: nat) -> char {
    if d == 0 { '0' }
    else if d == 1 { '1' }
    else if d == 2 { '2' }
    else if d == 3 { '3' }
    else if d == 4 { '4' }
    else if d == 5 { '5' }
    else if d == 6 { '6' }
    else if d == 7 { '7' }
    else if d == 8 { '8' }
    else { '9' }
}

/// The decimal digits of `n`, most significant first.
pub open spec fn decimal_digits(n: nat) -> Seq<char>
    decreases n,
{
    if n < 10 {
        seq![digit_char(n)]
    } else {
        decimal_digits(n / 10) + seq![digit_char(n % 10)]
    }
}

/// The default display name of the player with the given id.
pub open spec fn default_name(id: nat) -> Seq<char> {
    "Player"@ + decimal_digits(id)
}

/// The digits of a number read least significant first, as characters in
/// display order.
spec fn rev_digit_chars(ds: Seq<u64>) -> Seq<char>
    decreases ds.len(),
{
    if ds.len() == 0 {
        Seq::empty()
    } else {
        seq![digit_char(ds.last() as nat)] + rev_digit_chars(ds.drop_last())
    }
}

proof fn lemma_rev_digit_chars_index(ds: Seq<u64>)
    ensures
        rev_digit_chars(ds).len() == ds.len(),
        forall|k: int| 0 <= k < ds.len() ==> rev_digit_chars(ds)[k] == digit_char(ds[ds.len() - 1 - k] as nat),
    decreases ds.len(),
{
    if ds.len() > 0 {
        lemma_rev_digit_chars_index(ds.drop_last());
    }
}

/// One decimal digit as a string slice.
fn digit_str(d: u64) -> (r: &'static str)
    requires
        d < 10,
    ensures
        r@ =~= seq![digit_char(d as nat)],
{
    let r = match d {
        0 => "0",
        1 => "1",
        2 => "2",
        3 => "3",
        4 => "4",
        5 => "5",
        6 => "6",
        7 => "7",
        8 => "8",
        _ => "9",
    };
    proof {
        reveal_strlit("0");
        reveal_strlit("1");
        reveal_strlit("2");
        reveal_strlit("3");
        reveal_strlit("4");
        reveal_strlit("5");
        reveal_strlit("6");
        reveal_strlit("7");
        reveal_strlit("8");
        reveal_strlit("9");
    }
    r
}

/// Render `n` in decimal.
pub fn u64_to_decimal(n: u64) -> (r: String)
    ensures
        r@ == decimal_digits(n as nat),
{
    if n == 0 {
        let r = String::from_str("0");
        proof {
            reveal_strlit("0");
            assert(r@ =~= decimal_digits(0));
        }
        return r;
    }
    let mut ds: Vec<u64> = Vec::new();
    let mut m: u64 = n;
    while m > 0
        invariant
            m >= 0,
            forall|k: int| 0 <= k < ds@.len() ==> ds@[k] < 10,
            m > 0 ==> decimal_digits(n as nat) =~= decimal_digits(m as nat) + rev_digit_chars(ds@),
            m == 0 ==> decimal_digits(n as nat) =~= rev_digit_chars(ds@),
        decreases m,
    {
        let ghost m0 = m as nat;
        let ghost ds0 = ds@;
        ds.push(m % 10);
        m = m / 10;
        proof {
            assert(ds@.drop_last() =~= ds0);
            assert(ds@.last() == m0 % 10);
            if m > 0 {
                assert(decimal_digits(m0) =~= decimal_digits(m0 / 10) + seq![digit_char(m0 % 10)]);
                assert(decimal_digits(m as nat) + rev_digit_chars(ds@)
                    =~= decimal_digits(m0) + rev_digit_chars(ds0));
            } else {
                assert(m0 < 10);
                assert(decimal_digits(m0) =~= seq![digit_char(m0)]);
                assert(m0 % 10 == m0);
                assert(rev_digit_chars(ds@) =~= decimal_digits(m0) + rev_digit_chars(ds0));
            }
        }
    }
    let mut s = String::new();
    let len = ds.len();
    proof {
        lemma_rev_digit_chars_index(ds@);
    }
    for k in 0..len
        invariant
            len == ds@.len(),
            forall|j: int| 0 <= j < ds@.len() ==> ds@[j] < 10,
            rev_digit_chars(ds@).len() == ds@.len(),
            forall|j: int| 0 <= j < ds@.len() ==> rev_digit_chars(ds@)[j] == digit_char(ds@[ds@.len() - 1 - j] as nat),
            s@ =~= rev_digit_chars(ds@).subrange(0, k as int),
            decimal_digits(n as nat) =~= rev_digit_chars(ds@),
    {
        let d = ds[len - 1 - k];
        s.append(digit_str(d));
        proof {
            assert(s@ =~= rev_digit_chars(ds@).subrange(0, k + 1));
        }
    }
    proof {
        assert(s@ =~= rev_digit_chars(ds@));
    }
    s
}

/// The default display name for a player id: `Player` and its decimal digits.
pub fn default_player_name(id: u64) -> (r: String)
    ensures
        r@ == default_name(id as nat),
{
    let mut s = String::from_str("Player");
    let digits = u64_to_decimal(id);
    s.append(digits.as_str());
    s
}

} // verus!
