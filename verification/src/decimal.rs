//! Numbers in decimal notation.
use crate::text::{chars_of, string_of};
use vstd::prelude::*;

verus! {

/// The digit that stands for `d`, for `d` below ten.
pub open spec fn digit(d: nat) -> char {
    (48 + d) as char
}

/// `n` in decimal, without leading zeros.
pub open spec fn decimal(n: nat) -> Seq<char>
    decreases n,
{
    if n < 10 {
        seq![digit(n)]
    } else {
        decimal(n / 10).push(digit(n % 10))
    }
}

/// The number that a sequence of digits stands for; none where another
/// character occurs in it.
pub open spec fn digits_value(s: Seq<char>) -> Option<nat>
    decreases s.len(),
{
    if s.len() == 0 {
        Some(0)
    } else if '0' <= s.last() <= '9' {
        match digits_value(s.drop_last()) {
            Some(v) => Some(10 * v + (s.last() as nat - 48) as nat),
            None => None,
        }
    } else {
        None
    }
}

/// The number that a text stands for: digits, at least one, with an optional
/// plus sign before them.
pub open spec fn parsed(s: Seq<char>) -> Option<nat> {
    let body = if s.len() > 0 && s[0] == '+' {
        s.skip(1)
    } else {
        s
    };
    if body.len() == 0 {
        None
    } else {
        digits_value(body)
    }
}

/// The number that a text stands for, where it is at most `max`.
pub open spec fn parsed_up_to(s: Seq<char>, max: nat) -> Option<nat> {
    match parsed(s) {
        Some(v) => if v <= max {
            Some(v)
        } else {
            None
        },
        None => None,
    }
}

/// Writes `n` in decimal.
pub fn to_decimal(n: u64) -> (s: String)
    ensures
        s@ == decimal(n as nat),
    decreases n,
{
    let d = (48 + (n % 10) as u8) as char;
    if n < 10 {
        let mut s = String::new();
        s.push(d);
        assert(s@ =~= seq![digit(n as nat)]);
        s
    } else {
        let mut s = to_decimal(n / 10);
        s.push(d);
        s
    }
}

/// Reads an unsigned 64-bit number.
pub fn parse_u64(s: &str) -> (r: Option<u64>)
    ensures
        match r {
            Some(v) => parsed_up_to(s@, u64::MAX as nat) == Some(v as nat),
            None => parsed_up_to(s@, u64::MAX as nat) is None,
        },
{
    let cs = chars_of(s);
    let from: usize = if cs.len() > 0 && cs[0] == '+' {
        1
    } else {
        0
    };
    let ghost body = cs@.skip(from as int);
    assert(from == 0 ==> body =~= cs@);
    if from == cs.len() {
        return None;
    }
    let mut i: usize = from;
    let mut acc: u64 = 0;
    let mut too_large: bool = false;
    while i < cs.len()
        invariant
            from <= i <= cs.len(),
            body == cs@.skip(from as int),
            parsed(s@) == digits_value(body),
            digits_value(body.take(i - from)) matches Some(v) && (if too_large {
                v > u64::MAX
            } else {
                v == acc
            }),
        decreases cs.len() - i,
    {
        let c = cs[i];
        let ghost next = body.take(i + 1 - from);
        assert(next.drop_last() =~= body.take(i - from));
        assert(next.last() == c);
        if c < '0' || c > '9' {
            proof {
                lemma_bad_digit(body, i + 1 - from);
            }
            return None;
        }
        let d = c as u64 - 48;
        if !too_large {
            if acc > 1844674407370955161 || (acc == 1844674407370955161 && d > 5) {
                too_large = true;
            } else {
                acc = acc * 10 + d;
            }
        }
        i += 1;
    }
    assert(body.take(i - from) =~= body);
    if too_large {
        None
    } else {
        Some(acc)
    }
}

/// Reads an unsigned number of the machine's word size.
pub fn parse_usize(s: &str) -> (r: Option<usize>)
    ensures
        match r {
            Some(v) => parsed_up_to(s@, usize::MAX as nat) == Some(v as nat),
            None => parsed_up_to(s@, usize::MAX as nat) is None,
        },
{
    match parse_u64(s) {
        Some(v) => if v <= usize::MAX as u64 {
            Some(v as usize)
        } else {
            None
        },
        None => None,
    }
}

/// The signed number that a text stands for, where it is at least `-max - 1`
/// and at most `max`: digits, at least one, with an optional sign before them.
pub open spec fn signed_up_to(s: Seq<char>, max: int) -> Option<int> {
    if s.len() > 0 && s[0] == '-' {
        let body = s.skip(1);
        match digits_value(body) {
            Some(v) => if body.len() > 0 && v <= max + 1 {
                Some(-v)
            } else {
                None
            },
            None => None,
        }
    } else {
        match parsed(s) {
            Some(v) => if v <= max {
                Some(v as int)
            } else {
                None
            },
            None => None,
        }
    }
}

/// Reads a signed 32-bit number.
pub fn parse_i32(s: &str) -> (r: Option<i32>)
    ensures
        match r {
            Some(v) => signed_up_to(s@, i32::MAX as int) == Some(v as int),
            None => signed_up_to(s@, i32::MAX as int) is None,
        },
{
    let cs = chars_of(s);
    if cs.len() > 0 && cs[0] == '-' {
        let body = string_of(&cs, 1, cs.len());
        assert(body@ =~= s@.skip(1));
        if cs.len() > 1 && cs[1] == '+' {
            proof {
                assert(body@.take(1).last() == '+');
                lemma_bad_digit(body@, 1);
            }
            return None;
        }
        match parse_u64(&body) {
            Some(v) => if v <= 2147483648 {
                Some((-(v as i64)) as i32)
            } else {
                None
            },
            None => None,
        }
    } else {
        match parse_u64(s) {
            Some(v) => if v <= 2147483647 {
                Some(v as i32)
            } else {
                None
            },
            None => None,
        }
    }
}

/// One wrong character spoils every text that begins with it.
proof fn lemma_bad_digit(s: Seq<char>, n: int)
    requires
        0 < n <= s.len(),
        digits_value(s.take(n)) is None,
    ensures
        digits_value(s) is None,
    decreases s.len(),
{
    if n == s.len() {
        assert(s.take(n) =~= s);
    } else {
        assert(s.drop_last().take(n) =~= s.take(n));
        lemma_bad_digit(s.drop_last(), n);
    }
}

/// What is written in decimal holds digits only.
pub proof fn lemma_decimal_value(n: nat)
    ensures
        digits_value(decimal(n)) == Some(n),
        decimal(n).len() > 0,
        '0' <= decimal(n)[0] <= '9',
    decreases n,
{
    if n < 10 {
        let s = decimal(n);
        assert(s.drop_last() =~= Seq::<char>::empty());
        assert(digits_value(s.drop_last()) == Some(0nat));
    } else {
        lemma_decimal_value(n / 10);
        let s = decimal(n);
        assert(s.drop_last() =~= decimal(n / 10));
        assert(s[0] == decimal(n / 10)[0]);
    }
}

/// Reading back what was written in decimal gives the number.
pub proof fn decimal_round_trip(n: nat)
    ensures
        parsed(decimal(n)) == Some(n),
{
    lemma_decimal_value(n);
}

} // verus!
