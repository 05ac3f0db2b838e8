//! Decimal text of identifiers and years, identifier sets and folder names.
use vstd::prelude::*;
use vstd::string::StrSliceExecFns;
use vstd::string::StringExecFns;

verus! {

/// The ten decimal digits, in order.
pub open spec fn digit_chars() -> Seq<char> {
    seq!['0', '1', '2', '3', '4', '5', '6', '7', '8', '9']
}

/// Decimal text of `n`: no sign, no leading zeros.
pub open spec fn decimal(n: nat) -> Seq<char>
    decreases n,
{
    if n < 10 {
        seq![digit_chars()[n as int]]
    } else {
        decimal(n / 10).push(digit_chars()[(n % 10) as int])
    }
}

/// Identifiers written in decimal, joined by commas, with no spaces.
pub open spec fn uidset_text(uids: Seq<u32>) -> Seq<char>
    decreases uids.len(),
{
    if uids.len() == 0 {
        Seq::empty()
    } else if uids.len() == 1 {
        decimal(uids[0] as nat)
    } else {
        uidset_text(uids.drop_last()) + seq![','] + decimal(uids.last() as nat)
    }
}

/// The text that every archive folder's name starts with.
pub open spec fn archive_prefix() -> Seq<char> {
    seq!['A', 'r', 'c', 'h', 'i', 'v', 'e', 's', '/']
}

/// Name of the archive folder of `year`: `Archives/<year>`.
pub open spec fn folder_name(year: u32) -> Seq<char> {
    archive_prefix() + decimal(year as nat)
}

fn digit_str(d: u32) -> (r: &'static str)
    requires
        d < 10,
    ensures
        r@ == seq![digit_chars()[d as int]],
{
    proof {
        reveal_strlit("0123456789");
    }
    let s = "0123456789".substring_char(d as usize, d as usize + 1);
    assert(s@ =~= seq![digit_chars()[d as int]]);
    s
}

/// Decimal text of `n`.
pub fn decimal_text(n: u32) -> (r: String)
    ensures
        r@ == decimal(n as nat),
    decreases n,
{
    if n < 10 {
        String::from_str(digit_str(n))
    } else {
        let mut s = decimal_text(n / 10);
        s.append(digit_str(n % 10));
        s
    }
}

/// Writes the identifiers as one identifier set: decimal numbers joined by
/// commas, with no spaces; empty for no identifiers.
pub fn create_uidset(uids: &[u32]) -> (r: String)
    ensures
        r@ == uidset_text(uids@),
{
    let mut s = String::new();
    let mut i: usize = 0;
    while i < uids.len()
        invariant
            i <= uids@.len(),
            s@ == uidset_text(uids@.take(i as int)),
        decreases uids@.len() - i,
    {
        let ghost before = uids@.take(i as int);
        let d = decimal_text(uids[i]);
        if i > 0 {
            s.append(",");
            proof {
                reveal_strlit(",");
            }
        }
        s.append(d.as_str());
        proof {
            let after = uids@.take(i + 1);
            assert(after.drop_last() =~= before);
            assert(after.last() == uids@[i as int]);
            if i == 0 {
                assert(s@ =~= uidset_text(after));
            } else {
                assert(s@ =~= uidset_text(after));
            }
        }
        i = i + 1;
    }
    assert(uids@.take(uids@.len() as int) =~= uids@);
    s
}

/// Name of the archive folder of `year`, such as `Archives/2019`.
pub fn year_to_folder(year: u32) -> (r: String)
    ensures
        r@ == folder_name(year),
{
    proof {
        reveal_strlit("Archives/");
    }
    let mut s = String::from_str("Archives/");
    assert(s@ =~= archive_prefix());
    s.append(decimal_text(year).as_str());
    s
}

/// Whether `c` is an ASCII decimal digit.
pub open spec fn is_digit(c: char) -> bool {
    '0' <= c && c <= '9'
}

/// Whether every character of `s` is a decimal digit.
pub open spec fn all_digits(s: Seq<char>) -> bool {
    forall|i: int| 0 <= i < s.len() ==> is_digit(#[trigger] s[i])
}

/// Value of the decimal digit `c`.
pub open spec fn digit_value(c: char) -> nat {
    ((c as u32) - ('0' as u32)) as nat
}

/// Value of a run of decimal digits, most significant first.
pub open spec fn digits_value(s: Seq<char>) -> nat
    decreases s.len(),
{
    if s.len() == 0 {
        0
    } else {
        digits_value(s.drop_last()) * 10 + digit_value(s.last())
    }
}

/// `s` without the `+` sign it may start with.
pub open spec fn unsigned_part(s: Seq<char>) -> Seq<char> {
    if s.len() > 0 && s[0] == '+' {
        s.drop_first()
    } else {
        s
    }
}

/// The year that `s` reads as: an optional `+`, then one or more decimal
/// digits whose value fits in a `u32`. `None` for any other text.
pub open spec fn year_of_text(s: Seq<char>) -> Option<u32> {
    let d = unsigned_part(s);
    if d.len() > 0 && all_digits(d) && digits_value(d) <= u32::MAX {
        Some(digits_value(d) as u32)
    } else {
        None
    }
}

proof fn lemma_digits_value_prefix(s: Seq<char>, j: int)
    requires
        0 <= j <= s.len(),
    ensures
        digits_value(s.take(j)) <= digits_value(s),
    decreases s.len(),
{
    if j < s.len() {
        lemma_digits_value_prefix(s.drop_last(), j);
        assert(s.drop_last().take(j) =~= s.take(j));
    } else {
        assert(s.take(j) =~= s);
    }
}

/// Reads a year written in decimal, as `year_of_text` says.
pub fn parse_year(text: &str) -> (r: Option<u32>)
    ensures
        r == year_of_text(text@),
{
    let len = text.unicode_len();
    let start: usize = if len > 0 && text.get_char(0) == '+' { 1 } else { 0 };
    let ghost d = unsigned_part(text@);
    assert(d =~= text@.subrange(start as int, len as int));
    if start == len {
        return None;
    }
    let mut acc: u64 = 0;
    let mut i: usize = start;
    while i < len
        invariant
            start <= i <= len,
            len == text@.len(),
            d == unsigned_part(text@),
            d =~= text@.subrange(start as int, len as int),
            forall|k: int| 0 <= k < i - start ==> is_digit(#[trigger] d[k]),
            acc as nat == digits_value(d.take(i - start)),
            acc <= u32::MAX,
        decreases len - i,
    {
        let c = text.get_char(i);
        let ghost k = i - start;
        assert(d[k] == c);
        if c < '0' || c > '9' {
            assert(!is_digit(d[k]));
            assert(!all_digits(d));
            return None;
        }
        assert(d.take(k + 1).drop_last() =~= d.take(k));
        assert(d.take(k + 1).last() == c);
        assert(digits_value(d.take(k + 1)) == digits_value(d.take(k)) * 10 + digit_value(c));
        acc = acc * 10 + ((c as u32) - ('0' as u32)) as u64;
        i = i + 1;
        if acc > u32::MAX as u64 {
            proof {
                if all_digits(d) {
                    lemma_digits_value_prefix(d, k + 1);
                    assert(digits_value(d) > u32::MAX);
                }
            }
            return None;
        }
    }
    assert(d.take(len - start) =~= d);
    Some(acc as u32)
}

} // verus!
