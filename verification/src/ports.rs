//! Reading a port range from text: one port, or two joined by a dash.

use vstd::prelude::*;
use vstd::string::*;
use crate::address::PortRange;

verus! {

/// Why a text is no port range.
#[derive(Clone, Copy, Debug, PartialEq, Eq, Structural)]
pub enum PortError {
    /// A bound is not a decimal number from 0 to 65535.
    Invalid,
    /// The first port is above the last.
    Reversed,
}

pub open spec fn is_digit(c: char) -> bool {
    '0' <= c && c <= '9'
}

/// The number that a run of decimal digits writes.
pub open spec fn digits_value(s: Seq<char>) -> nat
    decreases s.len(),
{
    if s.len() == 0 {
        0
    } else {
        digits_value(s.drop_last()) * 10 + ((s.last() as u32 - '0' as u32) as nat)
    }
}

/// The port that a text writes: one or more decimal digits with a value up to 65535.
pub open spec fn port_of(s: Seq<char>) -> Option<u16> {
    if s.len() > 0 && (forall|i: int| 0 <= i < s.len() ==> is_digit(#[trigger] s[i])) && digits_value(s)
        <= 65535 {
        Some(digits_value(s) as u16)
    } else {
        None
    }
}

/// The range that two bounds make.
pub open spec fn range_of(lo: Option<u16>, hi: Option<u16>) -> Result<PortRange, PortError> {
    match (lo, hi) {
        (Some(a), Some(b)) => if a <= b {
            Ok(PortRange { first: a, last: b })
        } else {
            Err(PortError::Reversed)
        },
        _ => Err(PortError::Invalid),
    }
}

/// Whether the first dash of `s` is at index `k`.
pub open spec fn first_dash(s: Seq<char>, k: int) -> bool {
    &&& 0 <= k < s.len()
    &&& s[k] == '-'
    &&& forall|j: int| 0 <= j < k ==> s[j] != '-'
}

/// A longer run of digits writes no smaller a number than any of its prefixes.
pub proof fn lemma_prefix_value(s: Seq<char>, k: int)
    requires
        0 <= k <= s.len(),
    ensures
        digits_value(s.take(k)) <= digits_value(s),
    decreases s.len(),
{
    if k == s.len() {
        assert(s.take(k) =~= s);
    } else {
        assert(s.drop_last().take(k) =~= s.take(k));
        lemma_prefix_value(s.drop_last(), k);
    }
}

/// Reads the port written by the characters `from .. to` of `text`.
pub fn parse_port(text: &str, from: usize, to: usize) -> (r: Option<u16>)
    requires
        from <= to <= text@.len(),
    ensures
        r == port_of(text@.subrange(from as int, to as int)),
{
    let ghost s = text@.subrange(from as int, to as int);
    if from == to {
        return None;
    }
    let mut acc: u32 = 0;
    let mut i: usize = from;
    while i < to
        invariant
            from <= i <= to <= text@.len(),
            s == text@.subrange(from as int, to as int),
            forall|j: int| 0 <= j < i - from ==> is_digit(#[trigger] s[j]),
            acc == digits_value(s.take(i - from)),
            acc <= 65535,
        decreases to - i,
    {
        let c = text.get_char(i);
        assert(s[i - from] == c);
        if !('0' <= c && c <= '9') {
            return None;
        }
        let d: u32 = c as u32 - '0' as u32;
        proof {
            assert(s.take(i - from + 1).drop_last() =~= s.take(i - from));
            assert(s.take(i - from + 1).last() == c);
        }
        acc = acc * 10 + d;
        if acc > 65535 {
            proof {
                lemma_prefix_value(s, i - from + 1);
            }
            return None;
        }
        i += 1;
    }
    proof {
        assert(s.take(to - from) =~= s);
    }
    Some(acc as u16)
}

/// Reads a port range: `80` is the single port 80, `1-100` the ports 1 to 100.
///
/// The text is split at its first dash. Each bound must be a decimal number from 0 to
/// 65535, and the first must not be above the last.
pub fn parse_port_range(text: &str) -> (r: Result<PortRange, PortError>)
    ensures
        (forall|j: int| 0 <= j < text@.len() ==> text@[j] != '-') ==> r == range_of(
            port_of(text@),
            port_of(text@),
        ),
        forall|k: int| first_dash(text@, k) ==> r == range_of(
            port_of(text@.subrange(0, k)),
            port_of(text@.subrange(k + 1, text@.len() as int)),
        ),
{
    let n = text.unicode_len();
    let mut k: usize = 0;
    let mut found = false;
    while k < n && !found
        invariant
            k <= n,
            n == text@.len(),
            forall|j: int| 0 <= j < k ==> text@[j] != '-',
            found ==> k < n && text@[k as int] == '-',
        decreases n - k + (if found { 0int } else { 1int }),
    {
        if text.get_char(k) == '-' {
            found = true;
        } else {
            k += 1;
        }
    }
    if k < n {
        assert(first_dash(text@, k as int));
        let lo = parse_port(text, 0, k);
        let hi = parse_port(text, k + 1, n);
        make_range(lo, hi)
    } else {
        assert(text@.subrange(0, n as int) =~= text@);
        let p = parse_port(text, 0, n);
        make_range(p, p)
    }
}

/// The range between two bounds that were read.
pub fn make_range(lo: Option<u16>, hi: Option<u16>) -> (r: Result<PortRange, PortError>)
    ensures
        r == range_of(lo, hi),
{
    match (lo, hi) {
        (Some(a), Some(b)) => {
            if a <= b {
                Ok(PortRange { first: a, last: b })
            } else {
                Err(PortError::Reversed)
            }
        },
        _ => Err(PortError::Invalid),
    }
}

} // verus!
