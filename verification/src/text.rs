//! Small string operations on character sequences, each proved against a
//! direct mathematical statement.

use vstd::prelude::*;

verus! {

/// `s` with every trailing `/` removed.
pub open spec fn trim_trailing_slashes(s: Seq<char>) -> Seq<char>
    decreases s.len(),
{
    if s.len() > 0 && s.last() == '/' {
        trim_trailing_slashes(s.drop_last())
    } else {
        s
    }
}

/// The longest prefix of `s` that does not end in `/`.
pub fn trim_end_slashes(s: &str) -> (res: &str)
    ensures
        res@ == trim_trailing_slashes(s@),
{
    let len = s.unicode_len();
    let mut end: usize = len;
    assert(s@.take(len as int) =~= s@);
    while end > 0 && s.get_char(end - 1) == '/'
        invariant
            len == s@.len(),
            end <= len,
            trim_trailing_slashes(s@.take(end as int)) == trim_trailing_slashes(s@),
        decreases end,
    {
        assert(s@.take(end as int).drop_last() =~= s@.take(end - 1));
        end = end - 1;
    }
    assert(trim_trailing_slashes(s@.take(end as int)) == s@.take(end as int));
    s.substring_char(0, end)
}


/// Whether `c` occurs in `s`.
pub fn contains_char(s: &str, c: char) -> (res: bool)
    ensures
        res == s@.contains(c),
{
    let len = s.unicode_len();
    let mut i: usize = 0;
    while i < len
        invariant
            len == s@.len(),
            i <= len,
            forall|j: int| 0 <= j < i ==> s@[j] != c,
        decreases len - i,
    {
        if s.get_char(i) == c {
            assert(s@[i as int] == c);
            return true;
        }
        i = i + 1;
    }
    false
}

/// Whether `s` begins with `prefix`.
pub open spec fn has_prefix(s: Seq<char>, prefix: Seq<char>) -> bool {
    prefix.len() <= s.len() && s.take(prefix.len() as int) == prefix
}

/// Whether `s` begins with `prefix`.
pub fn starts_with(s: &str, prefix: &str) -> (res: bool)
    ensures
        res == has_prefix(s@, prefix@),
{
    let len = s.unicode_len();
    let plen = prefix.unicode_len();
    if plen > len {
        return false;
    }
    let mut i: usize = 0;
    while i < plen
        invariant
            len == s@.len(),
            plen == prefix@.len(),
            plen <= len,
            i <= plen,
            forall|j: int| 0 <= j < i ==> s@[j] == prefix@[j],
        decreases plen - i,
    {
        if s.get_char(i) != prefix.get_char(i) {
            assert(s@.take(plen as int)[i as int] != prefix@[i as int]);
            return false;
        }
        i = i + 1;
    }
    assert(s@.take(plen as int) =~= prefix@);
    true
}

/// `s` without `prefix` in front, or `s` itself where it does not begin with it.
pub open spec fn without_prefix(s: Seq<char>, prefix: Seq<char>) -> Seq<char> {
    if has_prefix(s, prefix) {
        s.skip(prefix.len() as int)
    } else {
        s
    }
}

/// `s` without `prefix` in front, or `s` itself where it does not begin with it.
pub fn strip_prefix<'a>(s: &'a str, prefix: &str) -> (res: &'a str)
    ensures
        res@ == without_prefix(s@, prefix@),
{
    if starts_with(s, prefix) {
        let len = s.unicode_len();
        let plen = prefix.unicode_len();
        let rest = s.substring_char(plen, len);
        assert(rest@ =~= s@.skip(plen as int));
        rest
    } else {
        s
    }
}

/// The decimal digit for `d`, where `d < 10`.
pub open spec fn digit_char(d: nat) -> char {
    if d == 0 { '0' }
    else if d == 1 { '1' }
    else if d == 2 { '2' }
    else if d == 3 { '3' }
    else if d == 4 { '4' }
    else if d == 5 { '5' }
    else if d == 6 { '6' }
    else if d == 7 { '7' }
    else if d == 8 { '8' }
    else { '9' }
}

/// The decimal digits of `n`, most significant first, without leading zeros.
pub open spec fn decimal_digits(n: nat) -> Seq<char>
    decreases n,
{
    if n < 10 {
        seq![digit_char(n)]
    } else {
        decimal_digits(n / 10).push(digit_char(n % 10))
    }
}

/// The decimal notation of `n`: a `-` before the digits of a negative number.
pub open spec fn decimal(n: int) -> Seq<char> {
    if n < 0 {
        seq!['-'] + decimal_digits((-n) as nat)
    } else {
        decimal_digits(n as nat)
    }
}

fn digit_str(d: u32) -> (res: &'static str)
    requires
        d < 10,
    ensures
        res@ == seq![digit_char(d as nat)],
{
    proof {
        reveal_strlit("0");
        reveal_strlit("1");
        reveal_strlit("2");
        reveal_strlit("3");
        reveal_strlit("4");
        reveal_strlit("5");
        reveal_strlit("6");
        reveal_strlit("7");
        reveal_strlit("8");
        reveal_strlit("9");
    }
    let res = if d == 0 { "0" }
    else if d == 1 { "1" }
    else if d == 2 { "2" }
    else if d == 3 { "3" }
    else if d == 4 { "4" }
    else if d == 5 { "5" }
    else if d == 6 { "6" }
    else if d == 7 { "7" }
    else if d == 8 { "8" }
    else { "9" };
    assert(res@ =~= seq![digit_char(d as nat)]);
    res
}

fn push_decimal_digits(out: &mut String, n: u32)
    ensures
        final(out)@ == old(out)@ + decimal_digits(n as nat),
    decreases n,
{
    if n >= 10 {
        push_decimal_digits(out, n / 10);
        out.append(digit_str(n % 10));
        assert(final(out)@ =~= old(out)@ + decimal_digits(n as nat));
    } else {
        out.append(digit_str(n));
        assert(final(out)@ =~= old(out)@ + decimal_digits(n as nat));
    }
}

/// The decimal notation of `n`, as `to_string` writes it.
pub fn decimal_string(n: i32) -> (res: String)
    ensures
        res@ == decimal(n as int),
{
    let mut out = String::new();
    if n < 0 {
        proof {
            reveal_strlit("-");
        }
        out.append("-");
        let magnitude: u32 = if n == i32::MIN { 2147483648u32 } else { (-n) as u32 };
        push_decimal_digits(&mut out, magnitude);
        assert(out@ =~= decimal(n as int));
    } else {
        push_decimal_digits(&mut out, n as u32);
    }
    out
}

/// `a` followed by `b`, as a new string.
pub fn concatenate(a: &str, b: &str) -> (res: String)
    ensures
        res@ == a@ + b@,
{
    let mut out = String::from_str(a);
    out.append(b);
    out
}

} // verus!
