use vstd::prelude::*;
use vstd::string::StrSliceExecFns;

verus! {

// ---------------------------------------------------------------------------
// Characters of a string slice
// ---------------------------------------------------------------------------

/// The characters of `s`, in order, as a vector.
pub fn chars_of(s: &str) -> (r: Vec<char>)
    ensures
        r@ == s@,
{
    let n = s.unicode_len();
    let mut r: Vec<char> = Vec::new();
    let mut i: usize = 0;
    while i < n
        invariant
            n == s@.len(),
            i <= n,
            r@ == s@.take(i as int),
        decreases n - i,
    {
        let c = s.get_char(i);
        r.push(c);
        proof {
            assert(s@.take(i + 1 as int) =~= s@.take(i as int).push(s@[i as int]));
        }
        i = i + 1;
    }
    proof {
        assert(s@.take(n as int) =~= s@);
    }
    r
}

/// Character-for-character equality of two vectors.
pub fn chars_eq(a: &Vec<char>, b: &Vec<char>) -> (r: bool)
    ensures
        r == (a@ == b@),
{
    if a.len() != b.len() {
        proof {
            assert(a@ != b@) by {
                if a@ == b@ {
                    assert(a@.len() == b@.len());
                }
            }
        }
        return false;
    }
    let mut i: usize = 0;
    while i < a.len()
        invariant
            i <= a@.len(),
            a@.len() == b@.len(),
            forall|j: int| 0 <= j < i ==> a@[j] == b@[j],
        decreases a@.len() - i,
    {
        if a[i] != b[i] {
            proof {
                assert(a@ != b@) by {
                    if a@ == b@ {
                        assert(a@[i as int] == b@[i as int]);
                    }
                }
            }
            return false;
        }
        i = i + 1;
    }
    proof {
        assert(a@ =~= b@);
    }
    true
}

/// Appends every character of `src` to `out`.
pub fn push_all(out: &mut Vec<char>, src: &Vec<char>)
    ensures
        final(out)@ == old(out)@ + src@,
{
    let mut i: usize = 0;
    while i < src.len()
        invariant
            i <= src@.len(),
            out@ == old(out)@ + src@.take(i as int),
        decreases src@.len() - i,
    {
        out.push(src[i]);
        proof {
            assert(src@.take(i + 1 as int) =~= src@.take(i as int).push(src@[i as int]));
            assert(old(out)@ + src@.take(i as int).push(src@[i as int]) =~= (old(out)@
                + src@.take(i as int)).push(src@[i as int]));
        }
        i = i + 1;
    }
    proof {
        assert(src@.take(src@.len() as int) =~= src@);
    }
}

/// Appends the characters of the string slice `src` to `out`.
pub fn push_str_chars(out: &mut Vec<char>, src: &str)
    ensures
        final(out)@ == old(out)@ + src@,
{
    let v = chars_of(src);
    push_all(out, &v);
}

/// Rebuilds a `String` from its characters.
///
/// Relies on `String` as `core::iter::FromIterator<char>`: collecting
/// characters yields the string with exactly those characters in order.
#[verifier::external_body]
pub(crate) fn chars_to_string(v: &Vec<char>) -> (r: String)
    ensures
        r@ == v@,
{
    v.iter().collect()
}

// ---------------------------------------------------------------------------
// Decimal digits
// ---------------------------------------------------------------------------

/// The character for one decimal digit.
pub open spec fn digit_char(d: int) -> char {
    if d == 0 {
        '0'
    } else if d == 1 {
        '1'
    } else if d == 2 {
        '2'
    } else if d == 3 {
        '3'
    } else if d == 4 {
        '4'
    } else if d == 5 {
        '5'
    } else if d == 6 {
        '6'
    } else if d == 7 {
        '7'
    } else if d == 8 {
        '8'
    } else {
        '9'
    }
}

pub open spec fn is_digit(c: char) -> bool {
    48 <= c as u32 <= 57
}

pub open spec fn digit_val(c: char) -> int {
    c as u32 - 48
}

/// The decimal notation of `v`, most significant digit first, no sign,
/// no leading zero (except for `v == 0` itself).
pub open spec fn dec_of(v: nat) -> Seq<char>
    decreases v,
{
    if v < 10 {
        seq![digit_char(v as int)]
    } else {
        dec_of(v / 10).push(digit_char((v % 10) as int))
    }
}

/// The value of a sequence of decimal digits, empty meaning zero.
pub open spec fn val_of(s: Seq<char>) -> nat
    decreases s.len(),
{
    if s.len() == 0 {
        0
    } else {
        (val_of(s.drop_last()) * 10 + (if is_digit(s.last()) {
            digit_val(s.last())
        } else {
            0
        })) as nat
    }
}

pub proof fn lemma_digit_char_val(d: int)
    requires
        0 <= d < 10,
    ensures
        is_digit(digit_char(d)),
        digit_val(digit_char(d)) == d,
{
}

/// Decimal notation is non-empty, made of digits, and reading it back
/// gives the value it was made from.
pub proof fn lemma_dec_of(v: nat)
    ensures
        dec_of(v).len() >= 1,
        forall|i: int| 0 <= i < dec_of(v).len() ==> is_digit(#[trigger] dec_of(v)[i]),
        val_of(dec_of(v)) == v,
    decreases v,
{
    if v < 10 {
        lemma_digit_char_val(v as int);
        let s = dec_of(v);
        assert(s == seq![digit_char(v as int)]);
        assert(s.last() == digit_char(v as int));
        assert(s.drop_last() =~= Seq::<char>::empty());
        assert(val_of(s.drop_last()) == 0);
        assert(val_of(s) == v);
    } else {
        lemma_dec_of(v / 10);
        lemma_digit_char_val((v % 10) as int);
        let s = dec_of(v);
        assert(s == dec_of(v / 10).push(digit_char((v % 10) as int)));
        assert(s.last() == digit_char((v % 10) as int));
        assert(s.drop_last() =~= dec_of(v / 10));
        assert(val_of(s) == val_of(dec_of(v / 10)) * 10 + v % 10);
        assert(val_of(s) == (v / 10) * 10 + v % 10);
        assert((v / 10) * 10 + v % 10 == v) by (nonlinear_arith);
        assert(forall|i: int|
            0 <= i < s.len() ==> is_digit(#[trigger] s[i])) by {
            assert(forall|i: int|
                0 <= i < s.len() - 1 ==> s[i] == dec_of(v / 10)[i]);
        }
    }
}

fn digit_char_exec(d: u32) -> (r: char)
    requires
        d < 10,
    ensures
        r == digit_char(d as int),
{
    match d {
        0 => '0',
        1 => '1',
        2 => '2',
        3 => '3',
        4 => '4',
        5 => '5',
        6 => '6',
        7 => '7',
        8 => '8',
        _ => '9',
    }
}

/// A value is never below the value of any of its digit prefixes.
pub proof fn lemma_val_of_le(t: Seq<char>, k: int)
    requires
        0 <= k <= t.len(),
    ensures
        val_of(t.take(k)) <= val_of(t),
    decreases t.len(),
{
    if k < t.len() {
        lemma_val_of_le(t.drop_last(), k);
        assert(t.drop_last().take(k) =~= t.take(k));
    } else {
        assert(t.take(k) =~= t);
    }
}

/// A whole word as an unsigned decimal number: every character a
/// digit, at least one of them, and the value within `u32`.
pub open spec fn parse_u32_spec(s: Seq<char>) -> Option<u32> {
    if s.len() >= 1 && (forall|i: int| 0 <= i < s.len() ==> is_digit(#[trigger] s[i])) && val_of(s)
        <= u32::MAX {
        Some(val_of(s) as u32)
    } else {
        None
    }
}

pub fn parse_u32_chars(v: &Vec<char>) -> (r: Option<u32>)
    ensures
        r == parse_u32_spec(v@),
{
    if v.len() == 0 {
        return None;
    }
    let mut acc: u32 = 0;
    let mut k: usize = 0;
    proof {
        assert(v@.subrange(0, 0) =~= Seq::<char>::empty());
    }
    while k < v.len()
        invariant
            k <= v@.len(),
            v@.len() >= 1,
            forall|j: int| 0 <= j < k ==> is_digit(#[trigger] v@[j]),
            acc == val_of(v@.subrange(0, k as int)),
        decreases v@.len() - k,
    {
        let u = v[k] as u32;
        if !(48 <= u && u <= 57) {
            proof {
                assert(!is_digit(v@[k as int]));
            }
            return None;
        }
        let d = u - 48;
        proof {
            assert(is_digit(v@[k as int]));
            assert(v@.subrange(0, k + 1 as int).drop_last() =~= v@.subrange(0, k as int));
            assert(v@.subrange(0, k + 1 as int).last() == v@[k as int]);
        }
        if acc > (u32::MAX - d) / 10 {
            proof {
                assert(val_of(v@.subrange(0, k + 1 as int)) == acc * 10 + d);
                assert(acc * 10 + d > u32::MAX) by (nonlinear_arith)
                    requires
                        acc > (u32::MAX - d) / 10,
                        d < 10,
                ;
                lemma_val_of_le(v@, k + 1);
                assert(v@.take(k + 1) =~= v@.subrange(0, k + 1 as int));
            }
            return None;
        }
        proof {
            assert(acc * 10 + d <= u32::MAX) by (nonlinear_arith)
                requires
                    acc <= (u32::MAX - d) / 10,
                    d < 10,
            ;
        }
        acc = acc * 10 + d;
        k = k + 1;
    }
    proof {
        assert(v@.subrange(0, v@.len() as int) =~= v@);
    }
    Some(acc)
}

/// The decimal notation of `v`.
pub fn u32_to_chars(v: u32) -> (r: Vec<char>)
    ensures
        r@ == dec_of(v as nat),
    decreases v,
{
    if v < 10 {
        let mut r: Vec<char> = Vec::new();
        r.push(digit_char_exec(v));
        r
    } else {
        let mut r = u32_to_chars(v / 10);
        r.push(digit_char_exec(v % 10));
        r
    }
}

/// The decimal notation of `v` as a `String`.
pub fn u32_to_string(v: u32) -> (r: String)
    ensures
        r@ == dec_of(v as nat),
{
    let cs = u32_to_chars(v);
    chars_to_string(&cs)
}

} // verus!
