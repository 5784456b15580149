use crate::calendar::Weekday;
use vstd::prelude::*;

verus! {

pub open spec fn is_digit(c: char) -> bool {
    '0' <= c <= '9'
}

pub open spec fn all_digits(s: Seq<char>) -> bool {
    forall|i: int| 0 <= i < s.len() ==> is_digit(#[trigger] s[i])
}

/// Value of a string of decimal digits.
pub open spec fn decimal(s: Seq<char>) -> int
    decreases s.len(),
{
    if s.len() == 0 {
        0
    } else {
        decimal(s.drop_last()) * 10 + (s.last() as int - '0' as int)
    }
}

/// The unsigned integer that `s` spells: an optional `+`, then one or more digits.
pub open spec fn parse_u32_spec(s: Seq<char>) -> Option<u32> {
    let t = if s.len() > 0 && s[0] == '+' { s.drop_first() } else { s };
    if t.len() > 0 && all_digits(t) && decimal(t) <= u32::MAX {
        Some(decimal(t) as u32)
    } else {
        None
    }
}

/// The signed integer that `s` spells: an optional `+` or `-`, then one or more digits.
pub open spec fn parse_i32_spec(s: Seq<char>) -> Option<i32> {
    if s.len() > 0 && s[0] == '-' {
        let t = s.drop_first();
        if t.len() > 0 && all_digits(t) && decimal(t) <= 0x8000_0000 {
            Some((-decimal(t)) as i32)
        } else {
            None
        }
    } else {
        let t = if s.len() > 0 && s[0] == '+' { s.drop_first() } else { s };
        if t.len() > 0 && all_digits(t) && decimal(t) <= i32::MAX {
            Some(decimal(t) as i32)
        } else {
            None
        }
    }
}

/// The weekday that a Polish day name or abbreviation stands for.
pub open spec fn weekday_of_name(s: Seq<char>) -> Option<Weekday> {
    if s == "poniedziałek"@ || s == "pon"@ || s == "poniedzialek"@ {
        Some(Weekday::Mon)
    } else if s == "wtorek"@ || s == "wto"@ {
        Some(Weekday::Tue)
    } else if s == "środa"@ || s == "śro"@ || s == "sro"@ {
        Some(Weekday::Wed)
    } else if s == "czwartek"@ || s == "cz"@ || s == "czw"@ {
        Some(Weekday::Thu)
    } else if s == "piątek"@ || s == "pią"@ || s == "pia"@ || s == "pt"@ {
        Some(Weekday::Fri)
    } else if s == "sobota"@ || s == "sob"@ {
        Some(Weekday::Sat)
    } else if s == "niedziela"@ || s == "niedz"@ || s == "nie"@ {
        Some(Weekday::Sun)
    } else {
        None
    }
}

/// Relies on `str::chars`: it yields the characters of the string in order.
#[verifier::external_body]
pub(crate) fn chars_of(s: &String) -> (r: Vec<char>)
    ensures
        r@ == s@,
{
    s.chars().collect()
}

proof fn lemma_decimal_nonneg(s: Seq<char>)
    requires
        all_digits(s),
    ensures
        decimal(s) >= 0,
    decreases s.len(),
{
    if s.len() > 0 {
        assert(is_digit(s[s.len() - 1]));
        lemma_decimal_nonneg(s.drop_last());
    }
}

/// A prefix of a digit string is worth no more than the whole.
proof fn lemma_decimal_prefix(s: Seq<char>, k: int)
    requires
        all_digits(s),
        0 <= k <= s.len(),
    ensures
        decimal(s.subrange(0, k)) <= decimal(s),
    decreases s.len(),
{
    if k < s.len() {
        let p = s.drop_last();
        assert(all_digits(p));
        assert(is_digit(s[s.len() - 1]));
        lemma_decimal_prefix(p, k);
        assert(p.subrange(0, k) =~= s.subrange(0, k));
        lemma_decimal_nonneg(p);
    } else {
        assert(s.subrange(0, k) =~= s);
    }
}

/// Value of the digits `s[lo..hi]`, when they are one or more digits worth at most `limit`.
fn digits_value(s: &Vec<char>, lo: usize, hi: usize, limit: u64) -> (r: Option<u64>)
    requires
        lo <= hi <= s.len(),
        limit <= 0x1_0000_0000,
    ensures
        r == (if lo < hi && all_digits(s@.subrange(lo as int, hi as int)) && decimal(
            s@.subrange(lo as int, hi as int),
        ) <= limit {
            Some(decimal(s@.subrange(lo as int, hi as int)) as u64)
        } else {
            None
        }),
        r is Some ==> r->0 <= limit && r->0 as int == decimal(s@.subrange(lo as int, hi as int)),
{
    if lo == hi {
        return None;
    }
    let ghost whole = s@.subrange(lo as int, hi as int);
    let mut acc: u64 = 0;
    let mut i: usize = lo;
    assert(s@.subrange(lo as int, lo as int) =~= Seq::<char>::empty());
    while i < hi
        invariant
            lo <= i <= hi <= s.len(),
            limit <= 0x1_0000_0000,
            whole == s@.subrange(lo as int, hi as int),
            all_digits(s@.subrange(lo as int, i as int)),
            acc == decimal(s@.subrange(lo as int, i as int)),
            acc <= limit,
        decreases hi - i,
    {
        let c = s[i];
        let ghost next = s@.subrange(lo as int, i + 1);
        assert(next.drop_last() =~= s@.subrange(lo as int, i as int));
        assert(whole[i - lo] == c);
        if !('0' <= c && c <= '9') {
            return None;
        }
        let v = acc * 10 + (c as u64 - '0' as u64);
        assert(all_digits(next));
        if v > limit {
            proof {
                if all_digits(whole) {
                    lemma_decimal_prefix(whole, i + 1 - lo);
                    assert(whole.subrange(0, i + 1 - lo) =~= next);
                }
            }
            return None;
        }
        acc = v;
        i = i + 1;
    }
    assert(s@.subrange(lo as int, i as int) =~= whole);
    Some(acc)
}

/// Reads `s[lo..hi]` as an unsigned decimal integer.
pub fn parse_u32_in(s: &Vec<char>, lo: usize, hi: usize) -> (r: Option<u32>)
    requires
        lo <= hi <= s.len(),
    ensures
        r == parse_u32_spec(s@.subrange(lo as int, hi as int)),
{
    let ghost t = s@.subrange(lo as int, hi as int);
    let start = if lo < hi && s[lo] == '+' { lo + 1 } else { lo };
    assert(s@.subrange(start as int, hi as int) =~= (if t.len() > 0 && t[0] == '+' {
        t.drop_first()
    } else {
        t
    }));
    match digits_value(s, start, hi, 0xFFFF_FFFF) {
        Some(v) => Some(v as u32),
        None => None,
    }
}

/// Reads `s[lo..hi]` as a signed decimal integer.
pub fn parse_i32_in(s: &Vec<char>, lo: usize, hi: usize) -> (r: Option<i32>)
    requires
        lo <= hi <= s.len(),
    ensures
        r == parse_i32_spec(s@.subrange(lo as int, hi as int)),
{
    let ghost t = s@.subrange(lo as int, hi as int);
    if lo < hi && s[lo] == '-' {
        assert(s@.subrange(lo + 1, hi as int) =~= t.drop_first());
        match digits_value(s, lo + 1, hi, 0x8000_0000) {
            Some(v) => Some((0 - (v as i64)) as i32),
            None => None,
        }
    } else {
        let start = if lo < hi && s[lo] == '+' { lo + 1 } else { lo };
        assert(s@.subrange(start as int, hi as int) =~= (if t.len() > 0 && t[0] == '+' {
            t.drop_first()
        } else {
            t
        }));
        match digits_value(s, start, hi, 0x7FFF_FFFF) {
            Some(v) => Some(v as i32),
            None => None,
        }
    }
}

/// Reads a whole cell as an unsigned decimal integer.
pub fn parse_u32(s: &String) -> (r: Option<u32>)
    ensures
        r == parse_u32_spec(s@),
{
    let c = chars_of(s);
    assert(c@.subrange(0, c@.len() as int) =~= c@);
    parse_u32_in(&c, 0, c.len())
}

/// Reads a whole cell as a signed decimal integer.
pub fn parse_i32(s: &String) -> (r: Option<i32>)
    ensures
        r == parse_i32_spec(s@),
{
    let c = chars_of(s);
    assert(c@.subrange(0, c@.len() as int) =~= c@);
    parse_i32_in(&c, 0, c.len())
}

/// Whether the cell holds exactly the given text.
pub(crate) fn is_name(s: &String, name: &str) -> (r: bool)
    ensures
        r == (s@ == name@),
{
    *s == name.to_owned()
}

/// The weekday named by a Polish day name or one of its abbreviations.
pub fn polish_name_to_weekday(name: &String) -> (r: Option<Weekday>)
    ensures
        r == weekday_of_name(name@),
{
    if is_name(name, "poniedziałek") || is_name(name, "pon") || is_name(name, "poniedzialek") {
        Some(Weekday::Mon)
    } else if is_name(name, "wtorek") || is_name(name, "wto") {
        Some(Weekday::Tue)
    } else if is_name(name, "środa") || is_name(name, "śro") || is_name(name, "sro") {
        Some(Weekday::Wed)
    } else if is_name(name, "czwartek") || is_name(name, "cz") || is_name(name, "czw") {
        Some(Weekday::Thu)
    } else if is_name(name, "piątek") || is_name(name, "pią") || is_name(name, "pia")
        || is_name(name, "pt") {
        Some(Weekday::Fri)
    } else if is_name(name, "sobota") || is_name(name, "sob") {
        Some(Weekday::Sat)
    } else if is_name(name, "niedziela") || is_name(name, "niedz") || is_name(name, "nie") {
        Some(Weekday::Sun)
    } else {
        None
    }
}

} // verus!
