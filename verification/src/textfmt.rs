//! Text helpers for the source generator: decimal and hexadecimal number
//! rendering, and substring tests over target triples.

use vstd::prelude::*;

verus! {

/// The decimal digit character of `d`.
pub open spec fn spec_digit(d: nat) -> Seq<char> {
    if d == 0 {
        "0"@
    } else if d == 1 {
        "1"@
    } else if d == 2 {
        "2"@
    } else if d == 3 {
        "3"@
    } else if d == 4 {
        "4"@
    } else if d == 5 {
        "5"@
    } else if d == 6 {
        "6"@
    } else if d == 7 {
        "7"@
    } else if d == 8 {
        "8"@
    } else {
        "9"@
    }
}

/// The decimal rendering of `n`, most significant digit first.
pub open spec fn spec_dec(n: nat) -> Seq<char>
    decreases n,
{
    if n < 10 {
        spec_digit(n)
    } else {
        spec_dec(n / 10) + spec_digit(n % 10)
    }
}

/// The lower-case hexadecimal digit character of `d`.
pub open spec fn spec_hex_digit(d: nat) -> Seq<char> {
    if d < 10 {
        spec_digit(d)
    } else if d == 10 {
        "a"@
    } else if d == 11 {
        "b"@
    } else if d == 12 {
        "c"@
    } else if d == 13 {
        "d"@
    } else if d == 14 {
        "e"@
    } else {
        "f"@
    }
}

/// The hexadecimal rendering of `n`, most significant digit first.
pub open spec fn spec_hex(n: nat) -> Seq<char>
    decreases n,
{
    if n < 16 {
        spec_hex_digit(n)
    } else {
        spec_hex(n / 16) + spec_hex_digit(n % 16)
    }
}

/// `k` zero characters.
pub open spec fn spec_zeros(k: int) -> Seq<char>
    decreases k,
{
    if k <= 0 {
        Seq::<char>::empty()
    } else {
        spec_zeros(k - 1) + "0"@
    }
}

/// The hexadecimal rendering of `n`, zero-padded on the left to at least
/// eight digits.
pub open spec fn spec_hex08(n: nat) -> Seq<char> {
    spec_zeros(8 - spec_hex(n).len()) + spec_hex(n)
}

/// The decimal digit character of `d` as a string slice.
fn digit_str(d: u64) -> (r: &'static str)
    requires
        d < 10,
    ensures
        r@ == spec_digit(d as nat),
{
    match d {
        0 => "0",
        1 => "1",
        2 => "2",
        3 => "3",
        4 => "4",
        5 => "5",
        6 => "6",
        7 => "7",
        8 => "8",
        _ => "9",
    }
}

/// The lower-case hexadecimal digit character of `d` as a string slice.
fn hex_digit_str(d: u64) -> (r: &'static str)
    requires
        d < 16,
    ensures
        r@ == spec_hex_digit(d as nat),
{
    match d {
        0 => "0",
        1 => "1",
        2 => "2",
        3 => "3",
        4 => "4",
        5 => "5",
        6 => "6",
        7 => "7",
        8 => "8",
        9 => "9",
        10 => "a",
        11 => "b",
        12 => "c",
        13 => "d",
        14 => "e",
        _ => "f",
    }
}

/// Append the decimal rendering of `n` to `out`.
pub fn push_dec(out: &mut String, n: u64)
    ensures
        final(out)@ == old(out)@ + spec_dec(n as nat),
    decreases n,
{
    if n < 10 {
        out.append(digit_str(n));
    } else {
        push_dec(out, n / 10);
        out.append(digit_str(n % 10));
    }
}

/// Append the hexadecimal rendering of `n`, zero-padded to at least eight
/// digits, to `out`.
pub fn push_hex08(out: &mut String, n: u64)
    ensures
        final(out)@ == old(out)@ + spec_hex08(n as nat),
{
    let mut digits = String::new();
    push_hex(&mut digits, n);
    let len = digits.as_str().unicode_len();
    let mut pad: usize = 0;
    let ghost start = out@;
    while pad + len < 8
        invariant
            len == spec_hex(n as nat).len(),
            pad + len <= 8 || pad == 0,
            out@ == start + spec_zeros(pad as int),
        decreases 8 - pad,
    {
        proof {
            assert(spec_zeros(pad + 1) == spec_zeros(pad as int) + "0"@);
        }
        out.append("0");
        pad += 1;
    }
    proof {
        if len < 8 {
            assert(pad == 8 - len);
        } else {
            assert(pad == 0);
            assert(spec_zeros(8 - spec_hex(n as nat).len()) == Seq::<char>::empty());
        }
        assert(spec_zeros(pad as int) == spec_zeros(8 - spec_hex(n as nat).len()));
    }
    out.append(digits.as_str());
    proof {
        assert(out@ =~= start + spec_hex08(n as nat));
    }
}

/// Append the hexadecimal rendering of `n` to `out`.
fn push_hex(out: &mut String, n: u64)
    ensures
        final(out)@ == old(out)@ + spec_hex(n as nat),
    decreases n,
{
    if n < 16 {
        out.append(hex_digit_str(n));
    } else {
        push_hex(out, n / 16);
        out.append(hex_digit_str(n % 16));
    }
}

/// `needle` occurs in `hay` as a contiguous subsequence.
pub open spec fn seq_contains_str(hay: Seq<char>, needle: Seq<char>) -> bool {
    exists|k: int|
        0 <= k && k + needle.len() <= hay.len() && #[trigger] hay.subrange(
            k,
            k + needle.len() as int,
        ) == needle
}

/// `hay` begins with `needle`.
pub open spec fn seq_starts_with(hay: Seq<char>, needle: Seq<char>) -> bool {
    needle.len() <= hay.len() && hay.subrange(0, needle.len() as int) == needle
}

/// `needle` occurs in `hay` starting at position `i`.
#[verifier::loop_isolation(false)]
fn str_matches_at(hay: &str, i: usize, needle: &str) -> (r: bool)
    requires
        i + needle@.len() <= hay@.len(),
    ensures
        r == (hay@.subrange(i as int, i + needle@.len()) == needle@),
{
    // Materializes the fact that the character count fits in usize, so the
    // index arithmetic below cannot overflow.
    let hl = hay.unicode_len();
    let n = needle.unicode_len();
    let mut j: usize = 0;
    while j < n
        invariant
            j <= n,
            forall|t: int| 0 <= t < j ==> hay@[i + t] == needle@[t],
        decreases n - j,
    {
        if hay.get_char(i + j) != needle.get_char(j) {
            proof {
                assert(hay@.subrange(i as int, i + needle@.len())[j as int] == hay@[i + j]);
            }
            return false;
        }
        j += 1;
    }
    proof {
        assert(hay@.subrange(i as int, i + needle@.len()) =~= needle@);
    }
    true
}

/// Whether `needle` occurs anywhere in `hay`.
#[verifier::loop_isolation(false)]
pub fn str_contains(hay: &str, needle: &str) -> (r: bool)
    ensures
        r == seq_contains_str(hay@, needle@),
{
    let h = hay.unicode_len();
    let n = needle.unicode_len();
    if n > h {
        return false;
    }
    if n == 0 {
        proof {
            assert(hay@.subrange(0, 0 + needle@.len() as int) =~= needle@);
        }
        return true;
    }
    let mut i: usize = 0;
    while i < h - n + 1
        invariant
            i <= h - n + 1,
            forall|k: int|
                0 <= k < i ==> #[trigger] hay@.subrange(k, k + needle@.len() as int) != needle@,
        decreases h - n + 1 - i,
    {
        if str_matches_at(hay, i, needle) {
            return true;
        }
        i += 1;
    }
    proof {
        if seq_contains_str(hay@, needle@) {
            let k = choose|k: int|
                0 <= k && k + needle@.len() <= hay@.len() && #[trigger] hay@.subrange(
                    k,
                    k + needle@.len() as int,
                ) == needle@;
            assert(k < i);
            assert(false);
        }
    }
    false
}

/// Whether `hay` begins with `needle`.
pub fn str_starts_with(hay: &str, needle: &str) -> (r: bool)
    ensures
        r == seq_starts_with(hay@, needle@),
{
    let h = hay.unicode_len();
    let n = needle.unicode_len();
    if n > h {
        return false;
    }
    str_matches_at(hay, 0, needle)
}

} // verus!
