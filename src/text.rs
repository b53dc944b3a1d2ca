use vstd::prelude::*;
use vstd::string::StringSliceAdditionalSpecFns;

use crate::ascii::{BACKSLASH, CR, DIGIT_ZERO, DOUBLE_QUOTE, LF, TAB};

verus! {

/// A hexadecimal digit, lower case, for `d < 16`.
pub open spec fn hex_digit(d: u8) -> u8 {
    if d < 10 {
        (48 + d) as u8
    } else {
        (87 + d) as u8
    }
}

/// A byte as it is shown to a user: printable ASCII as itself, a few controls by their C
/// escapes, anything else as `\xHH`.
pub open spec fn escape_byte(b: u8) -> Seq<u8> {
    if b == BACKSLASH {
        seq![BACKSLASH, BACKSLASH]
    } else if b == DOUBLE_QUOTE {
        seq![BACKSLASH, DOUBLE_QUOTE]
    } else if b == LF {
        seq![BACKSLASH, 110u8]
    } else if b == CR {
        seq![BACKSLASH, 114u8]
    } else if b == TAB {
        seq![BACKSLASH, 116u8]
    } else if 32 <= b <= 126 {
        seq![b]
    } else {
        seq![BACKSLASH, 120u8, hex_digit(b / 16), hex_digit(b % 16)]
    }
}

pub open spec fn escaped(s: Seq<u8>) -> Seq<u8>
    decreases s.len(),
{
    if s.len() == 0 {
        Seq::empty()
    } else {
        escaped(s.drop_last()) + escape_byte(s.last())
    }
}

/// Bytes shown between double quotes, with non-printable bytes escaped.
pub open spec fn verbose(s: Seq<u8>) -> Seq<u8> {
    seq![DOUBLE_QUOTE] + escaped(s) + seq![DOUBLE_QUOTE]
}

/// The decimal digits of `n`.
pub open spec fn decimal(n: nat) -> Seq<u8>
    decreases n,
{
    if n < 10 {
        seq![(48 + n) as u8]
    } else {
        decimal(n / 10).push((48 + n % 10) as u8)
    }
}

pub fn push_text(out: &mut Vec<u8>, s: &str)
    ensures
        final(out)@ == old(out)@ + s.spec_bytes(),
{
    let b = s.as_bytes();
    let mut i: usize = 0;
    while i < b.len()
        invariant
            i <= b@.len(),
            b@ == s.spec_bytes(),
            out@ == old(out)@ + b@.subrange(0, i as int),
        decreases b@.len() - i,
    {
        out.push(b[i]);
        i = i + 1;
        assert(out@ =~= old(out)@ + b@.subrange(0, i as int));
    }
    assert(b@.subrange(0, i as int) =~= b@);
}

pub fn push_decimal(out: &mut Vec<u8>, n: usize)
    ensures
        final(out)@ == old(out)@ + decimal(n as nat),
    decreases n,
{
    if n >= 10 {
        push_decimal(out, n / 10);
        out.push(DIGIT_ZERO + (n % 10) as u8);
        assert(final(out)@ =~= old(out)@ + decimal(n as nat)) by {
            assert(old(out)@ + decimal((n / 10) as nat) + seq![(48 + n % 10) as u8] =~= old(out)@
                + decimal(n as nat));
        }
    } else {
        out.push(DIGIT_ZERO + n as u8);
        assert(out@ =~= old(out)@ + decimal(n as nat));
    }
}

fn hex(d: u8) -> (r: u8)
    requires
        d < 16,
    ensures
        r == hex_digit(d),
{
    if d < 10 {
        48 + d
    } else {
        87 + d
    }
}

fn push_escaped_byte(out: &mut Vec<u8>, b: u8)
    ensures
        final(out)@ == old(out)@ + escape_byte(b),
{
    if b == BACKSLASH {
        out.push(BACKSLASH);
        out.push(BACKSLASH);
    } else if b == DOUBLE_QUOTE {
        out.push(BACKSLASH);
        out.push(DOUBLE_QUOTE);
    } else if b == LF {
        out.push(BACKSLASH);
        out.push(110u8);
    } else if b == CR {
        out.push(BACKSLASH);
        out.push(114u8);
    } else if b == TAB {
        out.push(BACKSLASH);
        out.push(116u8);
    } else if 32 <= b && b <= 126 {
        out.push(b);
    } else {
        out.push(BACKSLASH);
        out.push(120u8);
        out.push(hex(b / 16));
        out.push(hex(b % 16));
    }
    assert(out@ =~= old(out)@ + escape_byte(b));
}

/// Appends `s` between double quotes, with non-printable bytes escaped.
pub fn verbose_string(s: &[u8], out: &mut Vec<u8>)
    ensures
        final(out)@ == old(out)@ + verbose(s@),
{
    out.push(DOUBLE_QUOTE);
    let mut i: usize = 0;
    while i < s.len()
        invariant
            i <= s@.len(),
            out@ == old(out)@ + seq![DOUBLE_QUOTE] + escaped(s@.subrange(0, i as int)),
        decreases s@.len() - i,
    {
        push_escaped_byte(out, s[i]);
        assert(s@.subrange(0, i + 1).drop_last() =~= s@.subrange(0, i as int));
        i = i + 1;
        assert(out@ =~= old(out)@ + seq![DOUBLE_QUOTE] + escaped(s@.subrange(0, i as int)));
    }
    assert(s@.subrange(0, i as int) =~= s@);
    out.push(DOUBLE_QUOTE);
    assert(out@ =~= old(out)@ + verbose(s@));
}

} // verus!
