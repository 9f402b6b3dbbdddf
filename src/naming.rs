//! The naming conventions of a layer catalog: `<two digits><label>` names,
//! file stems, and decimal counts.
use vstd::prelude::*;

use crate::error::ArtGenError;

verus! {

pub open spec fn is_digit(c: char) -> bool {
    48 <= (c as u32) && (c as u32) <= 57
}

pub open spec fn digit_value(c: char) -> nat {
    ((c as u32) - 48) as nat
}

pub open spec fn all_digits(s: Seq<char>) -> bool {
    forall|i: int| 0 <= i < s.len() ==> is_digit(#[trigger] s[i])
}

/// The number that a string of decimal digits denotes.
pub open spec fn decimal_value(s: Seq<char>) -> nat
    decreases s.len(),
{
    if s.len() == 0 {
        0
    } else {
        decimal_value(s.drop_last()) * 10 + digit_value(s.last())
    }
}

/// `s` starts with the two decimal digits that carry a weight.
pub open spec fn has_weight_prefix(s: Seq<char>) -> bool {
    s.len() >= 2 && is_digit(s[0]) && is_digit(s[1])
}

pub open spec fn prefix_weight(s: Seq<char>) -> nat {
    digit_value(s[0]) * 10 + digit_value(s[1])
}

/// What follows the two-character weight prefix.
pub open spec fn label_of(s: Seq<char>) -> Seq<char> {
    s.subrange(2, s.len() as int)
}

/// Index of the last `.` among the first `k` characters of `s`, or -1.
pub open spec fn last_dot_before(s: Seq<char>, k: int) -> int
    decreases k,
{
    if k <= 0 {
        -1
    } else if s[k - 1] == '.' {
        k - 1
    } else {
        last_dot_before(s, k - 1)
    }
}

/// The stem of a file name: everything before the last `.`, unless that dot
/// is the first character or there is none, in which case the whole name.
pub open spec fn stem_of(s: Seq<char>) -> Seq<char> {
    let d = last_dot_before(s, s.len() as int);
    if d > 0 {
        s.subrange(0, d)
    } else {
        s
    }
}

proof fn lemma_last_dot_bounds(s: Seq<char>, k: int)
    requires
        0 <= k <= s.len(),
    ensures
        -1 <= last_dot_before(s, k) < k,
        last_dot_before(s, k) >= 0 ==> s[last_dot_before(s, k)] == '.',
    decreases k,
{
    if k > 0 && s[k - 1] != '.' {
        lemma_last_dot_bounds(s, k - 1);
    }
}

/// The stem of the file name `name`.
pub fn file_stem(name: &str) -> (r: String)
    ensures
        r@ == stem_of(name@),
{
    let n = name.unicode_len();
    let mut k: usize = n;
    while k > 0 && name.get_char(k - 1) != '.'
        invariant
            k <= n,
            n == name@.len(),
            last_dot_before(name@, n as int) == last_dot_before(name@, k as int),
            forall|j: int| k <= j < n ==> name@[j] != '.',
        decreases k,
    {
        k = k - 1;
    }
    proof {
        lemma_last_dot_bounds(name@, n as int);
    }
    if k > 1 {
        assert(last_dot_before(name@, k as int) == k - 1);
        name.substring_char(0, k - 1).to_owned()
    } else {
        if k == 1 {
            assert(last_dot_before(name@, 1) == 0);
        } else {
            assert(last_dot_before(name@, 0) == -1);
        }
        name.to_owned()
    }
}

fn char_digit(c: char) -> (r: Option<u64>)
    ensures
        r is Some <==> is_digit(c),
        r is Some ==> r->Some_0 == digit_value(c),
{
    let v = c as u32;
    if 48 <= v && v <= 57 {
        Some((v - 48) as u64)
    } else {
        None
    }
}

/// Splits a `<two digits><label>` name into its weight and its label.
pub fn split_weight_prefix(name: &str) -> (r: Option<(u64, String)>)
    ensures
        r is Some <==> has_weight_prefix(name@),
        r is Some ==> r->Some_0.0 == prefix_weight(name@) && r->Some_0.1@ == label_of(name@),
{
    let n = name.unicode_len();
    if n < 2 {
        return None;
    }
    let d0 = char_digit(name.get_char(0));
    let d1 = char_digit(name.get_char(1));
    match (d0, d1) {
        (Some(a), Some(b)) => {
            let label = name.substring_char(2, n).to_owned();
            Some((a * 10 + b, label))
        },
        _ => None,
    }
}

proof fn lemma_decimal_prefix_grows(s: Seq<char>, i: int)
    requires
        0 <= i <= s.len(),
    ensures
        decimal_value(s.subrange(0, i)) <= decimal_value(s),
    decreases s.len() - i,
{
    if i < s.len() {
        lemma_decimal_prefix_grows(s, i + 1);
        assert(s.subrange(0, i + 1).drop_last() =~= s.subrange(0, i));
    } else {
        assert(s.subrange(0, i) =~= s);
    }
}

/// The digits of a collection size: the text without one leading `+`.
pub open spec fn size_digits(s: Seq<char>) -> Seq<char> {
    if s.len() > 0 && s[0] == '+' {
        s.drop_first()
    } else {
        s
    }
}

/// Reads a requested collection size: an optional `+`, then one or more
/// decimal digits denoting a positive number that fits in a `u64`.
pub fn parse_collection_size(s: &str) -> (r: Result<u64, ArtGenError>)
    ensures
        r is Ok <==> (size_digits(s@).len() > 0 && all_digits(size_digits(s@)) && 0
            < decimal_value(size_digits(s@)) <= u64::MAX),
        r is Ok ==> r->Ok_0 == decimal_value(size_digits(s@)),
        r is Err ==> r->Err_0 is InvalidCollectionSize,
{
    let n = s.unicode_len();
    if n > 0 && s.get_char(0) == '+' {
        let digits = s.substring_char(1, n);
        assert(digits@ =~= s@.drop_first());
        parse_positive_decimal(digits)
    } else {
        parse_positive_decimal(s)
    }
}

/// Reads one or more decimal digits denoting a positive number that fits in a
/// `u64`.
fn parse_positive_decimal(s: &str) -> (r: Result<u64, ArtGenError>)
    ensures
        r is Ok <==> (s@.len() > 0 && all_digits(s@) && 0 < decimal_value(s@) <= u64::MAX),
        r is Ok ==> r->Ok_0 == decimal_value(s@),
        r is Err ==> r->Err_0 is InvalidCollectionSize,
{
    let n = s.unicode_len();
    let mut value: u64 = 0;
    let mut i: usize = 0;
    while i < n
        invariant
            i <= n,
            n == s@.len(),
            all_digits(s@.subrange(0, i as int)),
            value == decimal_value(s@.subrange(0, i as int)),
        decreases n - i,
    {
        let c = s.get_char(i);
        match char_digit(c) {
            None => {
                assert(!is_digit(s@[i as int]));
                return Err(ArtGenError::InvalidCollectionSize);
            },
            Some(d) => {
                assert(s@.subrange(0, i + 1).drop_last() =~= s@.subrange(0, i as int));
                if value > (u64::MAX - d) / 10 {
                    proof {
                        lemma_decimal_prefix_grows(s@, i + 1);
                    }
                    return Err(ArtGenError::InvalidCollectionSize);
                }
                value = value * 10 + d;
                i = i + 1;
                assert forall|j: int| 0 <= j < i implies is_digit(#[trigger] s@.subrange(0, i as int)[j]) by {
                    if j < i - 1 {
                        assert(s@.subrange(0, i as int)[j] == s@.subrange(0, i - 1)[j]);
                    }
                }
            },
        }
    }
    assert(s@.subrange(0, n as int) =~= s@);
    if n == 0 || value == 0 {
        Err(ArtGenError::InvalidCollectionSize)
    } else {
        Ok(value)
    }
}

/// Reads the uniqueness flag: `yes`/`y` turn it on, `no`/`n` off.
pub fn parse_unique_flag(s: &str) -> (r: Option<bool>)
    ensures
        r == (if s@ == "yes"@ || s@ == "y"@ {
            Some(true)
        } else if s@ == "no"@ || s@ == "n"@ {
            Some(false)
        } else {
            None
        }),
{
    proof {
        reveal_strlit("yes");
        reveal_strlit("y");
        reveal_strlit("no");
        reveal_strlit("n");
    }
    let n = s.unicode_len();
    if n == 1 {
        let c = s.get_char(0);
        if c == 'y' {
            assert(s@ =~= "y"@);
            return Some(true);
        } else if c == 'n' {
            assert(s@ =~= "n"@);
            return Some(false);
        }
    } else if n == 2 {
        if s.get_char(0) == 'n' && s.get_char(1) == 'o' {
            assert(s@ =~= "no"@);
            return Some(false);
        }
    } else if n == 3 {
        if s.get_char(0) == 'y' && s.get_char(1) == 'e' && s.get_char(2) == 's' {
            assert(s@ =~= "yes"@);
            return Some(true);
        }
    }
    None
}

} // verus!
