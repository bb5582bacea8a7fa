//! Verified text building blocks: collecting the characters of a string,
//! decimal formatting, and fixed-point millisecond rendering.
//!
//! All report and interchange output is assembled as `Vec<char>` under
//! exact `Seq<char>` specifications, and turned into a `String` only at the
//! very end.

use vstd::prelude::*;

use vstd::std_specs::iter::IteratorSpec;

verus! {

/// Appends every character of `s` to `out`, in order.
pub fn push_str_chars(out: &mut Vec<char>, s: &str)
    ensures
        final(out)@ == old(out)@ + s@,
{
    broadcast use vstd::string::axiom_spec_iter;
    broadcast use vstd::string::next_postcondition;

    let mut it = s.chars();
    loop
        invariant
            out@ + it.remaining() == old(out)@ + s@,
            it.decrease() is Some,
        ensures
            out@ == old(out)@ + s@,
        decreases it.decrease()->0,
    {
        let c_opt: Option<char> = it.next();
        match c_opt {
            Some(c) => {
                let ghost rem = it.remaining();
                out.push(c);
                proof {
                    assert(out@ + rem =~= (out@.drop_last() + seq![c]) + rem);
                    assert((out@.drop_last() + seq![c]) + rem =~= out@.drop_last() + (seq![c]
                        + rem));
                }
            },
            None => {
                proof {
                    assert(out@ + it.remaining() =~= out@);
                }
                break ;
            },
        }
    }
}

/// The characters of `s`, as a vector.
pub fn chars_of(s: &str) -> (out: Vec<char>)
    ensures
        out@ == s@,
{
    let mut out: Vec<char> = Vec::new();
    push_str_chars(&mut out, s);
    proof {
        assert(Seq::<char>::empty() + s@ =~= s@);
    }
    out
}

/// Whether two strings hold the same characters.
pub fn str_eq(a: &str, b: &str) -> (r: bool)
    ensures
        r == (a@ == b@),
{
    let av: Vec<char> = chars_of(a);
    let bv: Vec<char> = chars_of(b);
    if av.len() != bv.len() {
        proof {
            assert(a@.len() != b@.len());
        }
        return false;
    }
    let mut i: usize = 0;
    while i < av.len()
        invariant
            0 <= i <= av@.len(),
            av@.len() == bv@.len(),
            av@ == a@,
            bv@ == b@,
            forall|k: int| 0 <= k < i ==> av@[k] == bv@[k],
        decreases av@.len() - i,
    {
        if av[i] != bv[i] {
            proof {
                assert(a@[i as int] != b@[i as int]);
            }
            return false;
        }
        i = i + 1;
    }
    proof {
        assert(a@ =~= b@);
    }
    true
}

/// The character of a single decimal digit.
pub open spec fn digit_char(d: int) -> char {
    ((48 + d) as u8) as char
}

/// The decimal numeral of `n`, most significant digit first.
pub open spec fn spec_dec(n: nat) -> Seq<char>
    decreases n,
{
    if n < 10 {
        seq![digit_char(n as int)]
    } else {
        spec_dec(n / 10).push(digit_char((n % 10) as int))
    }
}

/// The character of digit `d`.
fn digit_exec(d: u64) -> (c: char)
    requires
        d < 10,
    ensures
        c == digit_char(d as int),
{
    (48 + d as u8) as char
}

/// Appends the decimal numeral of `n` to `out`.
pub fn push_dec(out: &mut Vec<char>, n: u64)
    ensures
        final(out)@ == old(out)@ + spec_dec(n as nat),
    decreases n,
{
    if n < 10 {
        let c: char = digit_exec(n);
        out.push(c);
        proof {
            assert(old(out)@ + spec_dec(n as nat) =~= old(out)@.push(c));
        }
    } else {
        push_dec(out, n / 10);
        let c: char = digit_exec(n % 10);
        out.push(c);
        proof {
            assert(old(out)@ + spec_dec(n as nat) =~= (old(out)@ + spec_dec(
                (n / 10) as nat,
            )).push(c));
        }
    }
}

/// The decimal numeral of `n`, zero-padded to at least two digits.
pub open spec fn spec_pad2(n: nat) -> Seq<char> {
    if n < 10 {
        seq!['0', digit_char(n as int)]
    } else {
        spec_dec(n)
    }
}

/// Appends the two-digit-padded numeral of `n` to `out`.
pub fn push_pad2(out: &mut Vec<char>, n: u64)
    ensures
        final(out)@ == old(out)@ + spec_pad2(n as nat),
{
    if n < 10 {
        out.push('0');
        let c: char = digit_exec(n);
        out.push(c);
        proof {
            assert(old(out)@ + spec_pad2(n as nat) =~= old(out)@.push('0').push(c));
        }
    } else {
        push_dec(out, n);
    }
}

/// The numeral of `n < 1000`, zero-padded to exactly three digits.
pub open spec fn spec_pad3(n: nat) -> Seq<char> {
    seq![
        digit_char((n / 100) as int),
        digit_char(((n / 10) % 10) as int),
        digit_char((n % 10) as int),
    ]
}

/// Appends the three-digit-padded numeral of `n` to `out`.
pub fn push_pad3(out: &mut Vec<char>, n: u64)
    requires
        n < 1000,
    ensures
        final(out)@ == old(out)@ + spec_pad3(n as nat),
{
    let c1: char = digit_exec(n / 100);
    let c2: char = digit_exec((n / 10) % 10);
    let c3: char = digit_exec(n % 10);
    out.push(c1);
    out.push(c2);
    out.push(c3);
    proof {
        assert(old(out)@ + spec_pad3(n as nat) =~= old(out)@.push(c1).push(c2).push(c3));
    }
}

/// A millisecond count rendered as seconds with three decimals, such as
/// `2.500`.
pub open spec fn spec_sec3(ms: nat) -> Seq<char> {
    spec_dec(ms / 1000) + seq!['.'] + spec_pad3(ms % 1000)
}

/// Appends `ms` milliseconds as seconds with three decimals.
pub fn push_sec3(out: &mut Vec<char>, ms: u64)
    ensures
        final(out)@ == old(out)@ + spec_sec3(ms as nat),
{
    push_dec(out, ms / 1000);
    out.push('.');
    push_pad3(out, ms % 1000);
    proof {
        assert(old(out)@ + spec_sec3(ms as nat) =~= ((old(out)@ + spec_dec((ms / 1000) as nat)).push(
            '.',
        )) + spec_pad3((ms % 1000) as nat));
    }
}

/// A millisecond count rendered as seconds with six decimals, such as
/// `2.500000`.
pub open spec fn spec_sec6(ms: nat) -> Seq<char> {
    spec_sec3(ms) + seq!['0', '0', '0']
}

/// Appends `ms` milliseconds as seconds with six decimals.
pub fn push_sec6(out: &mut Vec<char>, ms: u64)
    ensures
        final(out)@ == old(out)@ + spec_sec6(ms as nat),
{
    push_sec3(out, ms);
    out.push('0');
    out.push('0');
    out.push('0');
    proof {
        assert(old(out)@ + spec_sec6(ms as nat) =~= ((old(out)@ + spec_sec3(ms as nat)).push(
            '0',
        ).push('0').push('0')));
    }
}

/// Relies on `String`'s `FromIterator<char>` implementation: collecting an
/// iterator of characters concatenates exactly those characters, in order.
#[verifier::external_body]
pub fn string_from_chars(v: &Vec<char>) -> (s: String)
    ensures
        s@ == v@,
{
    v.iter().collect()
}

} // verus!
