//! Wall-clock strings ("HH:MM") and the minutes between bedtime and waking.
use vstd::prelude::*;

verus! {

/// Minutes in a day.
pub const MINUTES_PER_DAY: i64 = 1440;

pub open spec fn is_digit(c: char) -> bool {
    48 <= (c as u32) && (c as u32) <= 57
}

pub open spec fn digit_value(c: char) -> int {
    (c as u32) as int - 48
}

/// A non-empty run of ASCII decimal digits.
pub open spec fn all_digits(s: Seq<char>) -> bool {
    s.len() > 0 && forall|i: int| 0 <= i < s.len() ==> is_digit(#[trigger] s[i])
}

/// The number that a run of decimal digits spells.
pub open spec fn digits_value(s: Seq<char>) -> int
    decreases s.len(),
{
    if s.len() == 0 {
        0
    } else {
        10 * digits_value(s.drop_last()) + digit_value(s.last())
    }
}

/// The integer that `s` spells: an optional `+` or `-`, then at least one
/// decimal digit, and nothing else.
pub open spec fn decimal_value(s: Seq<char>) -> Option<int> {
    if s.len() > 0 && (s[0] == '-' || s[0] == '+') {
        if all_digits(s.drop_first()) {
            if s[0] == '-' {
                Some(-digits_value(s.drop_first()))
            } else {
                Some(digits_value(s.drop_first()))
            }
        } else {
            None
        }
    } else if all_digits(s) {
        Some(digits_value(s))
    } else {
        None
    }
}

/// The `i32` that `s` spells, if it spells one that fits.
pub open spec fn i32_value(s: Seq<char>) -> Option<i32> {
    match decimal_value(s) {
        Some(v) => if i32::MIN <= v <= i32::MAX {
            Some(v as i32)
        } else {
            None
        },
        None => None,
    }
}

/// `p` is the position of the one and only `:` in `s`.
pub open spec fn single_colon_at(s: Seq<char>, p: int) -> bool {
    &&& 0 <= p < s.len()
    &&& s[p] == ':'
    &&& forall|i: int| 0 <= i < s.len() && i != p ==> #[trigger] s[i] != ':'
}

/// Minutes since midnight of an "H:M" string: hours times 60 plus minutes.
/// Where the string does not hold exactly one `:`, or either part is not an
/// `i32`, the result is 0. No range is enforced on either part.
pub open spec fn clock_minutes(s: Seq<char>) -> int {
    if exists|p: int| single_colon_at(s, p) {
        let p = choose|p: int| single_colon_at(s, p);
        match (i32_value(s.subrange(0, p)), i32_value(s.subrange(p + 1, s.len() as int))) {
            (Some(h), Some(m)) => h * 60 + m,
            _ => 0,
        }
    } else {
        0
    }
}

/// Minutes from bedtime to waking, both as minutes since midnight; a wake time
/// at or before bedtime falls on the next day.
pub open spec fn window_minutes(bed: int, wake: int) -> int {
    if wake <= bed {
        wake + 1440 - bed
    } else {
        wake - bed
    }
}

/// Reads a decimal `i32`: an optional sign, then digits only.
pub fn parse_int(s: &str) -> (r: Option<i32>)
    ensures
        r == i32_value(s@),
{
    let len = s.unicode_len();
    if len == 0 {
        return None;
    }
    let first = s.get_char(0);
    let signed = first == '-' || first == '+';
    let start: usize = if signed { 1 } else { 0 };
    if start == len {
        proof {
            assert(!all_digits(s@.drop_first()));
        }
        return None;
    }
    let mut i: usize = start;
    let mut acc: i64 = 0;
    let mut big = false;
    while i < len
        invariant
            start <= i <= len,
            len == s@.len(),
            start < len,
            first == s@[0],
            signed == (s@[0] == '-' || s@[0] == '+'),
            start == (if signed { 1usize } else { 0usize }),
            forall|k: int| start <= k < i ==> is_digit(#[trigger] s@[k]),
            big ==> digits_value(s@.subrange(start as int, i as int)) > 0x8000_0000,
            !big ==> acc == digits_value(s@.subrange(start as int, i as int)),
            !big ==> 0 <= acc <= 0x8000_0000,
        decreases len - i,
    {
        let c = s.get_char(i);
        if !('0' <= c && c <= '9') {
            proof {
                if signed {
                    assert(s@.drop_first()[i - 1] == c);
                    assert(!all_digits(s@.drop_first()));
                } else {
                    assert(!all_digits(s@));
                }
            }
            return None;
        }
        let d = (c as u32 - 48) as i64;
        proof {
            assert(s@.subrange(start as int, i + 1).drop_last() =~= s@.subrange(
                start as int,
                i as int,
            ));
            assert(s@.subrange(start as int, i + 1).last() == c);
        }
        if !big {
            acc = acc * 10 + d;
            if acc > 0x8000_0000 {
                big = true;
            }
        }
        i = i + 1;
    }
    proof {
        if signed {
            assert(s@.drop_first() =~= s@.subrange(1, len as int));
            assert forall|k: int| 0 <= k < s@.drop_first().len() implies is_digit(
                #[trigger] s@.drop_first()[k],
            ) by {
                assert(s@.drop_first()[k] == s@[k + 1]);
            }
        } else {
            assert(s@ =~= s@.subrange(0, len as int));
        }
    }
    if big {
        return None;
    }
    let v: i64 = if first == '-' { -acc } else { acc };
    if v < -0x8000_0000 || v > 0x7fff_ffff {
        None
    } else {
        Some(v as i32)
    }
}

/// Minutes since midnight of an "HH:MM" string; 0 where it is malformed.
pub fn to_minutes(hhmm: &str) -> (r: i64)
    ensures
        r == clock_minutes(hhmm@),
{
    let len = hhmm.unicode_len();
    let mut i: usize = 0;
    let mut colons: usize = 0;
    let mut first: usize = 0;
    let mut second: usize = 0;
    while i < len
        invariant
            i <= len,
            len == hhmm@.len(),
            colons <= 2,
            colons == 0 ==> forall|k: int| 0 <= k < i ==> hhmm@[k] != ':',
            colons >= 1 ==> first < i && hhmm@[first as int] == ':',
            colons == 1 ==> forall|k: int| 0 <= k < i && k != first ==> hhmm@[k] != ':',
            colons == 2 ==> second < i && second != first && hhmm@[second as int] == ':',
        decreases len - i,
    {
        if hhmm.get_char(i) == ':' {
            if colons == 0 {
                first = i;
                colons = 1;
            } else if colons == 1 {
                second = i;
                colons = 2;
            }
        }
        i = i + 1;
    }
    if colons != 1 {
        proof {
            assert(!exists|p: int| single_colon_at(hhmm@, p)) by {
                if colons == 2 {
                    assert forall|p: int| !single_colon_at(hhmm@, p) by {
                        if single_colon_at(hhmm@, p) {
                            if p == first {
                                assert(hhmm@[second as int] != ':');
                            } else {
                                assert(hhmm@[first as int] != ':');
                            }
                        }
                    }
                }
            }
        }
        return 0;
    }
    proof {
        assert(single_colon_at(hhmm@, first as int));
        let p = choose|p: int| single_colon_at(hhmm@, p);
        if p != first {
            assert(hhmm@[first as int] != ':');
        }
    }
    match (parse_int(hhmm.substring_char(0, first)), parse_int(hhmm.substring_char(first + 1, len))) {
        (Some(hours), Some(minutes)) => hours as i64 * 60 + minutes as i64,
        _ => 0,
    }
}

/// Minutes from `bedtime` to `wake_target`, both "HH:MM"; where waking is not
/// after bedtime it is taken to be on the next day.
pub fn calc_window(bedtime: &str, wake_target: &str) -> (r: i64)
    ensures
        r == window_minutes(clock_minutes(bedtime@), clock_minutes(wake_target@)),
{
    let bt = to_minutes(bedtime);
    let mut wt = to_minutes(wake_target);
    if wt <= bt {
        wt = wt + MINUTES_PER_DAY;
    }
    wt - bt
}

} // verus!
