//! The settings a node starts with.
use vstd::prelude::*;

use crate::text::chars_of;

verus! {

/// The port a node listens on when none is requested.
pub const DEFAULT_PORT: u16 = 7331;

/// The number that a sequence of decimal digits stands for.
pub open spec fn digits_value(s: Seq<char>) -> int
    decreases s.len(),
{
    if s.len() == 0 {
        0
    } else {
        digits_value(s.drop_last()) * 10 + (s.last() as int - '0' as int)
    }
}

/// Every character of `s` is an ASCII digit.
pub open spec fn all_digits(s: Seq<char>) -> bool {
    forall|i: int| 0 <= i < s.len() ==> '0' <= #[trigger] s[i] <= '9'
}

/// What `u16::from_str` gives for `s`: an optional leading `+`, then one or
/// more ASCII digits standing for at most `u16::MAX`; anything else is
/// refused.
pub open spec fn parsed_u16(s: Seq<char>) -> Option<u16> {
    let digits = if s.len() > 0 && s[0] == '+' {
        s.drop_first()
    } else {
        s
    };
    if digits.len() > 0 && all_digits(digits) && digits_value(digits) <= u16::MAX {
        Some(digits_value(digits) as u16)
    } else {
        None
    }
}

/// A longer run of digits stands for no less than its prefixes.
proof fn lemma_digits_value_grows(s: Seq<char>, k: int)
    requires
        all_digits(s),
        0 <= k <= s.len(),
    ensures
        0 <= digits_value(s.take(k)) <= digits_value(s),
    decreases s.len(),
{
    if s.len() > 0 {
        let t = s.drop_last();
        assert forall|i: int| 0 <= i < t.len() implies '0' <= #[trigger] t[i] <= '9' by {
            assert(t[i] == s[i]);
        }
        if k == s.len() {
            assert(s.take(k) =~= s);
            lemma_digits_value_grows(t, t.len() as int);
            assert(t.take(t.len() as int) =~= t);
        } else {
            lemma_digits_value_grows(t, k);
            assert(t.take(k) =~= s.take(k));
        }
    } else {
        assert(s.take(k) =~= s);
    }
}

/// Reads `s` as `u16::from_str` does.
pub fn parse_u16(s: &str) -> (r: Option<u16>)
    ensures
        r == parsed_u16(s@),
{
    let cs = chars_of(s);
    let start: usize = if cs.len() > 0 && cs[0] == '+' {
        1
    } else {
        0
    };
    let ghost digits = if s@.len() > 0 && s@[0] == '+' {
        s@.drop_first()
    } else {
        s@
    };
    assert(digits =~= cs@.subrange(start as int, cs@.len() as int));
    if start == cs.len() {
        return None;
    }
    let mut value: u32 = 0;
    let mut i = start;
    while i < cs.len()
        invariant
            start <= i <= cs@.len(),
            cs@ == s@,
            digits == (if s@.len() > 0 && s@[0] == '+' {
                s@.drop_first()
            } else {
                s@
            }),
            digits == cs@.subrange(start as int, cs@.len() as int),
            all_digits(digits.take(i - start)),
            value == digits_value(digits.take(i - start)),
            value <= u16::MAX,
        decreases cs@.len() - i,
    {
        let c = cs[i];
        if c < '0' || c > '9' {
            assert(digits[i - start] == c);
            return None;
        }
        let d = (c as u32) - ('0' as u32);
        let ghost next = digits.take(i - start + 1);
        proof {
            assert(next.drop_last() =~= digits.take(i - start));
            assert(next.last() == c);
            assert forall|j: int| 0 <= j < next.len() implies '0' <= #[trigger] next[j] <= '9' by {
                if j < i - start {
                    assert(next[j] == digits.take(i - start)[j]);
                }
            }
        }
        let next_value = value * 10 + d;
        assert(digits_value(next) == next_value);
        if next_value > 0xFFFF {
            proof {
                let rest_ok = all_digits(digits);
                if rest_ok {
                    lemma_digits_value_grows(digits, i - start + 1);
                }
            }
            return None;
        }
        value = next_value;
        i = i + 1;
    }
    assert(digits.take(i - start) =~= digits);
    Some(value as u16)
}

/// The port a node listens on: the requested one when it reads as a port
/// number, else [`DEFAULT_PORT`].
pub fn requested_port(value: Option<&str>) -> (port: u16)
    ensures
        port == match value {
            Some(v) => match parsed_u16(v@) {
                Some(n) => n,
                None => DEFAULT_PORT,
            },
            None => DEFAULT_PORT,
        },
{
    match value {
        Some(v) => match parse_u16(v) {
            Some(n) => n,
            None => DEFAULT_PORT,
        },
        None => DEFAULT_PORT,
    }
}


/// The username a node goes by when none is given.
pub open spec fn default_name() -> Seq<char> {
    "Blyth"@
}

/// The username requested for a node: the given one, else `Blyth`.
pub fn requested_name(value: Option<&str>) -> (name: String)
    ensures
        name@ == match value {
            Some(v) => v@,
            None => default_name(),
        },
{
    match value {
        Some(v) => v.to_owned(),
        None => "Blyth".to_owned(),
    }
}

/// The port to try when binding `requested` failed: any free port (0),
/// unless any free port was what failed.
pub fn fallback_port(requested: u16) -> (r: Option<u16>)
    ensures
        r == (if requested != 0 {
            Some(0u16)
        } else {
            None
        }),
{
    if requested != 0 {
        Some(0)
    } else {
        None
    }
}

} // verus!
