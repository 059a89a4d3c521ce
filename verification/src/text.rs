//! Character-level utilities: reading decimal integers, ASCII
//! case-insensitive comparison, ASCII whitespace trimming and
//! comma-splitting of tag lists, each with an exact specification over
//! sequences of characters.

use vstd::prelude::*;
use vstd::string::StrSliceExecFns;

verus! {

/// Decimal digit, `'0'` through `'9'`.
pub open spec fn is_digit_char(c: char) -> bool {
    '0' as u32 <= c as u32 && c as u32 <= '9' as u32
}

/// Numeric value of a decimal digit.
pub open spec fn digit_val(c: char) -> int {
    c as u32 - '0' as u32
}

pub open spec fn all_digits(s: Seq<char>) -> bool {
    forall|i: int| 0 <= i < s.len() ==> is_digit_char(#[trigger] s[i])
}

/// Value of a digit string read in base ten.
pub open spec fn dec_value(s: Seq<char>) -> int
    decreases s.len(),
{
    if s.len() == 0 {
        0
    } else {
        10 * dec_value(s.drop_last()) + digit_val(s.last())
    }
}

proof fn lemma_dec_value_nonneg(s: Seq<char>)
    requires
        all_digits(s),
    ensures
        dec_value(s) >= 0,
    decreases s.len(),
{
    if s.len() > 0 {
        assert(all_digits(s.drop_last()));
        lemma_dec_value_nonneg(s.drop_last());
    }
}

/// The value of a digit string never falls below the value of any of its
/// prefixes: appending digits can only grow it.
proof fn lemma_dec_value_take_le(s: Seq<char>, n: int)
    requires
        all_digits(s),
        0 <= n <= s.len(),
    ensures
        dec_value(s.take(n)) <= dec_value(s),
    decreases s.len() - n,
{
    if n < s.len() {
        assert(s.take(n + 1).drop_last() =~= s.take(n));
        assert(all_digits(s.take(n)));
        lemma_dec_value_nonneg(s.take(n));
        assert(dec_value(s.take(n + 1)) == 10 * dec_value(s.take(n)) + digit_val(s.take(n + 1).last()));
        assert(s.take(n + 1).last() == s[n]);
        lemma_dec_value_take_le(s, n + 1);
    } else {
        assert(s.take(n) =~= s);
    }
}

/// Reads the digits of `s` between `from` and `to` as a decimal number of
/// at most `limit`; yields nothing when the range is empty, holds a
/// non-digit, or exceeds `limit`.
fn parse_digits_range(s: &str, from: usize, to: usize, limit: u64) -> (r: Option<u64>)
    requires
        from <= to <= s@.len(),
    ensures
        ({
            let part = s@.subrange(from as int, to as int);
            match r {
                Some(v) => part.len() > 0 && all_digits(part) && dec_value(part) == v && v <= limit,
                None => part.len() == 0 || !all_digits(part) || dec_value(part) > limit,
            }
        }),
{
    let ghost part = s@.subrange(from as int, to as int);
    if from == to {
        return None;
    }
    let mut acc: u64 = 0;
    let mut i: usize = from;
    while i < to
        invariant
            from <= i <= to,
            to <= s@.len(),
            part == s@.subrange(from as int, to as int),
            all_digits(part.take(i - from)),
            acc == dec_value(part.take(i - from)),
            acc <= limit,
        decreases to - i,
    {
        let c = s.get_char(i);
        proof {
            assert(part[i - from] == s@[i as int]);
        }
        let cu: u32 = c as u32;
        if cu < '0' as u32 || cu > '9' as u32 {
            assert(!is_digit_char(part[i - from]));
            return None;
        }
        let d: u64 = (cu - '0' as u32) as u64;
        let wide: u128 = acc as u128 * 10 + d as u128;
        proof {
            assert(part.take(i - from + 1).drop_last() =~= part.take(i - from));
            assert(part.take(i - from + 1).last() == part[i - from]);
            assert(dec_value(part.take(i - from + 1)) == wide);
        }
        if wide > limit as u128 {
            proof {
                if all_digits(part) {
                    lemma_dec_value_take_le(part, i - from + 1);
                }
            }
            return None;
        }
        acc = wide as u64;
        i = i + 1;
    }
    proof {
        assert(part.take(to - from) =~= part);
    }
    Some(acc)
}

/// What reading an optionally `+`-signed decimal number yields, before
/// any range restriction.
pub open spec fn spec_parse_unsigned(s: Seq<char>) -> Option<int> {
    let body = if s.len() > 0 && s[0] == '+' {
        s.drop_first()
    } else {
        s
    };
    if body.len() > 0 && all_digits(body) {
        Some(dec_value(body))
    } else {
        None
    }
}

pub open spec fn spec_parse_u32(s: Seq<char>) -> Option<u32> {
    match spec_parse_unsigned(s) {
        Some(v) => if v <= u32::MAX {
            Some(v as u32)
        } else {
            None
        },
        None => None,
    }
}

pub open spec fn spec_parse_usize(s: Seq<char>) -> Option<usize> {
    match spec_parse_unsigned(s) {
        Some(v) => if v <= usize::MAX {
            Some(v as usize)
        } else {
            None
        },
        None => None,
    }
}

/// What reading an optionally signed decimal number as an `i64` yields:
/// an optional `+` or `-`, then digits, within the type's range.
pub open spec fn spec_parse_i64(s: Seq<char>) -> Option<i64> {
    if s.len() > 0 && s[0] == '-' {
        let mag = s.drop_first();
        if mag.len() > 0 && all_digits(mag) && dec_value(mag) <= 0x8000_0000_0000_0000 {
            Some((-dec_value(mag)) as i64)
        } else {
            None
        }
    } else {
        match spec_parse_unsigned(s) {
            Some(v) => if v <= i64::MAX {
                Some(v as i64)
            } else {
                None
            },
            None => None,
        }
    }
}

/// Reads `s[from..to]` as an unsigned 32-bit decimal number.
pub fn parse_u32_range(s: &str, from: usize, to: usize) -> (r: Option<u32>)
    requires
        from <= to <= s@.len(),
    ensures
        r == spec_parse_u32(s@.subrange(from as int, to as int)),
{
    let ghost part = s@.subrange(from as int, to as int);
    let start: usize = if from < to && s.get_char(from) == '+' {
        from + 1
    } else {
        from
    };
    proof {
        assert(s@.subrange(start as int, to as int) =~= (if part.len() > 0 && part[0] == '+' {
            part.drop_first()
        } else {
            part
        }));
    }
    match parse_digits_range(s, start, to, u32::MAX as u64) {
        Some(v) => Some(v as u32),
        None => None,
    }
}

/// Reads `s[from..to]` as an unsigned pointer-sized decimal number.
pub fn parse_usize_range(s: &str, from: usize, to: usize) -> (r: Option<usize>)
    requires
        from <= to <= s@.len(),
    ensures
        r == spec_parse_usize(s@.subrange(from as int, to as int)),
{
    let ghost part = s@.subrange(from as int, to as int);
    let start: usize = if from < to && s.get_char(from) == '+' {
        from + 1
    } else {
        from
    };
    proof {
        assert(s@.subrange(start as int, to as int) =~= (if part.len() > 0 && part[0] == '+' {
            part.drop_first()
        } else {
            part
        }));
    }
    match parse_digits_range(s, start, to, usize::MAX as u64) {
        Some(v) => Some(v as usize),
        None => None,
    }
}

/// Reads `s[from..to]` as a signed 64-bit decimal number.
pub fn parse_i64_range(s: &str, from: usize, to: usize) -> (r: Option<i64>)
    requires
        from <= to <= s@.len(),
    ensures
        r == spec_parse_i64(s@.subrange(from as int, to as int)),
{
    let ghost part = s@.subrange(from as int, to as int);
    if from < to && s.get_char(from) == '-' {
        proof {
            assert(s@.subrange(from + 1, to as int) =~= part.drop_first());
        }
        match parse_digits_range(s, from + 1, to, 0x8000_0000_0000_0000u64) {
            Some(v) => if v == 0x8000_0000_0000_0000u64 {
                Some(i64::MIN)
            } else {
                Some(-(v as i64))
            },
            None => None,
        }
    } else {
        let start: usize = if from < to && s.get_char(from) == '+' {
            from + 1
        } else {
            from
        };
        proof {
            assert(s@.subrange(start as int, to as int) =~= (if part.len() > 0 && part[0] == '+' {
                part.drop_first()
            } else {
                part
            }));
        }
        match parse_digits_range(s, start, to, i64::MAX as u64) {
            Some(v) => Some(v as i64),
            None => None,
        }
    }
}

/// True when the string is non-empty and consists solely of decimal
/// digits; such strings are reserved for positional selection and are
/// rejected as titles.
pub fn is_pure_numeric(s: &str) -> (r: bool)
    ensures
        r == (s@.len() > 0 && all_digits(s@)),
{
    let n = s.unicode_len();
    if n == 0 {
        return false;
    }
    let mut i: usize = 0;
    while i < n
        invariant
            i <= n,
            n == s@.len(),
            all_digits(s@.take(i as int)),
        decreases n - i,
    {
        let cu: u32 = s.get_char(i) as u32;
        if cu < '0' as u32 || cu > '9' as u32 {
            assert(!is_digit_char(s@[i as int]));
            return false;
        }
        proof {
            assert(forall|j: int| 0 <= j < i + 1 ==> is_digit_char(#[trigger] s@.take(i + 1)[j]));
        }
        i = i + 1;
    }
    proof {
        assert(s@.take(n as int) =~= s@);
    }
    true
}

/// Code point of the character with ASCII upper case folded to lower.
pub open spec fn lower_code(c: char) -> int {
    if 'A' as u32 <= c as u32 && c as u32 <= 'Z' as u32 {
        c as u32 + 32
    } else {
        c as u32 as int
    }
}

/// Equality of two character sequences up to ASCII case.
pub open spec fn chars_eq_ic(a: Seq<char>, b: Seq<char>) -> bool {
    a.len() == b.len() && forall|i: int|
        0 <= i < a.len() ==> #[trigger] lower_code(a[i]) == lower_code(b[i])
}

/// Compares two strings for equality, ignoring ASCII case.
pub fn str_eq_ignore_case(a: &str, b: &str) -> (r: bool)
    ensures
        r == chars_eq_ic(a@, b@),
{
    let alen = a.unicode_len();
    let blen = b.unicode_len();
    if alen != blen {
        return false;
    }
    let mut i: usize = 0;
    while i < alen
        invariant
            i <= alen,
            alen == a@.len(),
            alen == b@.len(),
            forall|j: int| 0 <= j < i ==> #[trigger] lower_code(a@[j]) == lower_code(b@[j]),
        decreases alen - i,
    {
        let ca: u32 = a.get_char(i) as u32;
        let cb: u32 = b.get_char(i) as u32;
        let la: u32 = if 'A' as u32 <= ca && ca <= 'Z' as u32 {
            ca + 32
        } else {
            ca
        };
        let lb: u32 = if 'A' as u32 <= cb && cb <= 'Z' as u32 {
            cb + 32
        } else {
            cb
        };
        if la != lb {
            assert(lower_code(a@[i as int]) != lower_code(b@[i as int]));
            return false;
        }
        i = i + 1;
    }
    true
}

/// ASCII whitespace.
pub open spec fn is_ascii_ws(c: char) -> bool {
    c == ' ' || c == '\t' || c == '\n' || c == '\r' || c == '\x0c'
}

pub open spec fn trim_start_spec(s: Seq<char>) -> Seq<char>
    decreases s.len(),
{
    if s.len() > 0 && is_ascii_ws(s[0]) {
        trim_start_spec(s.drop_first())
    } else {
        s
    }
}

pub open spec fn trim_end_spec(s: Seq<char>) -> Seq<char>
    decreases s.len(),
{
    if s.len() > 0 && is_ascii_ws(s.last()) {
        trim_end_spec(s.drop_last())
    } else {
        s
    }
}

/// The string with ASCII whitespace removed from both ends.
pub open spec fn trim_spec(s: Seq<char>) -> Seq<char> {
    trim_end_spec(trim_start_spec(s))
}

/// The comma-separated pieces of a string, read from the end: a comma
/// closes a piece, any other character extends the last piece. An empty
/// string is one empty piece, so there is always at least one piece.
pub open spec fn spec_split_commas(s: Seq<char>) -> Seq<Seq<char>>
    decreases s.len(),
{
    if s.len() == 0 {
        seq![Seq::<char>::empty()]
    } else if s.last() == ',' {
        spec_split_commas(s.drop_last()).push(Seq::<char>::empty())
    } else {
        let rest = spec_split_commas(s.drop_last());
        rest.update(rest.len() - 1, rest.last().push(s.last()))
    }
}

/// The comma-separated pieces of a tag list, each trimmed of ASCII
/// whitespace.
pub open spec fn spec_split_tags(s: Seq<char>) -> Seq<Seq<char>> {
    spec_split_commas(s).map_values(|p: Seq<char>| trim_spec(p))
}

/// Copies the string with ASCII whitespace trimmed from both ends.
pub fn trim_str(s: &str) -> (r: String)
    ensures
        r@ == trim_spec(s@),
{
    let bounds = trim_bounds(s);
    let piece = s.substring_char(bounds.0, bounds.1);
    String::from_str(piece)
}

/// Splits a comma-separated tag list into its pieces, each trimmed of
/// ASCII whitespace; an empty list gives one empty tag.
#[verifier::loop_isolation(false)]
pub fn split_tags(s: &str) -> (r: Vec<String>)
    ensures
        r.deep_view() == spec_split_tags(s@),
{
    let n = s.unicode_len();
    let ghost whole = s@;
    let mut out: Vec<String> = Vec::new();
    let ghost mut raw_done: Seq<Seq<char>> = Seq::empty();
    let mut start: usize = 0;
    let mut i: usize = 0;
    proof {
        assert(whole.take(0) =~= Seq::<char>::empty());
        assert(whole.subrange(0, 0) =~= Seq::<char>::empty());
        assert(spec_split_commas(whole.take(0)) =~= raw_done.push(whole.subrange(0, 0)));
        assert(out.deep_view() =~= raw_done.map_values(|p: Seq<char>| trim_spec(p)));
    }
    while i < n
        invariant
            start <= i <= n,
            spec_split_commas(whole.take(i as int)) == raw_done.push(
                whole.subrange(start as int, i as int),
            ),
            out.deep_view() == raw_done.map_values(|p: Seq<char>| trim_spec(p)),
        decreases n - i,
    {
        let c = s.get_char(i);
        proof {
            assert(whole.take(i + 1).drop_last() =~= whole.take(i as int));
            assert(whole.take(i + 1).last() == whole[i as int]);
        }
        if c == ',' {
            let piece = s.substring_char(start, i);
            let trimmed = trim_str(piece);
            let ghost outpre = out.deep_view();
            out.push(trimmed);
            proof {
                let cur = whole.subrange(start as int, i as int);
                raw_done = raw_done.push(cur);
                assert(whole.subrange(i + 1, i + 1) =~= Seq::<char>::empty());
                assert(spec_split_commas(whole.take(i + 1)) == raw_done.push(
                    Seq::<char>::empty(),
                ));
                assert(out.deep_view() =~= outpre.push(trim_spec(cur)));
                assert(out.deep_view() =~= raw_done.map_values(|p: Seq<char>| trim_spec(p)));
            }
            start = i + 1;
        } else {
            proof {
                let cur = whole.subrange(start as int, i as int);
                let prev = raw_done.push(cur);
                assert(prev.last() == cur);
                assert(prev.drop_last() =~= raw_done);
                assert(prev.update(prev.len() - 1, cur.push(whole[i as int])) =~= raw_done.push(
                    cur.push(whole[i as int]),
                ));
                assert(whole.subrange(start as int, i + 1) =~= cur.push(whole[i as int]));
            }
        }
        i = i + 1;
    }
    let piece = s.substring_char(start, n);
    let trimmed = trim_str(piece);
    let ghost outpre = out.deep_view();
    out.push(trimmed);
    proof {
        let cur = whole.subrange(start as int, n as int);
        assert(whole.take(n as int) =~= whole);
        assert(out.deep_view() =~= outpre.push(trim_spec(cur)));
        assert(out.deep_view() =~= (raw_done.push(cur)).map_values(|p: Seq<char>| trim_spec(p)));
    }
    out
}

fn is_ws_char(c: char) -> (r: bool)
    ensures
        r == is_ascii_ws(c),
{
    c == ' ' || c == '\t' || c == '\n' || c == '\r' || c == '\x0c'
}

/// Bounds of the string with ASCII whitespace trimmed from both ends:
/// the trimmed text is exactly `s[lo..hi]`.
pub fn trim_bounds(s: &str) -> (r: (usize, usize))
    ensures
        r.0 <= r.1 <= s@.len(),
        s@.subrange(r.0 as int, r.1 as int) == trim_spec(s@),
{
    let n = s.unicode_len();
    proof {
        assert(s@.subrange(0, n as int) =~= s@);
    }
    let mut lo: usize = 0;
    while lo < n && is_ws_char(s.get_char(lo))
        invariant
            lo <= n,
            n == s@.len(),
            trim_start_spec(s@) == trim_start_spec(s@.subrange(lo as int, n as int)),
        decreases n - lo,
    {
        proof {
            let sub = s@.subrange(lo as int, n as int);
            assert(sub.len() > 0 && is_ascii_ws(sub[0]));
            assert(sub.drop_first() =~= s@.subrange(lo + 1, n as int));
        }
        lo = lo + 1;
    }
    proof {
        let sub = s@.subrange(lo as int, n as int);
        if lo < n {
            assert(!is_ascii_ws(sub[0]));
        }
        assert(trim_start_spec(sub) == sub);
    }
    let mut hi: usize = n;
    while hi > lo && is_ws_char(s.get_char(hi - 1))
        invariant
            lo <= hi <= n,
            n == s@.len(),
            trim_start_spec(s@) == s@.subrange(lo as int, n as int),
            trim_end_spec(s@.subrange(lo as int, n as int)) == trim_end_spec(
                s@.subrange(lo as int, hi as int),
            ),
        decreases hi,
    {
        proof {
            let sub = s@.subrange(lo as int, hi as int);
            assert(sub.len() > 0 && is_ascii_ws(sub.last()));
            assert(sub.drop_last() =~= s@.subrange(lo as int, hi - 1));
        }
        hi = hi - 1;
    }
    proof {
        let sub = s@.subrange(lo as int, hi as int);
        if hi > lo {
            assert(!is_ascii_ws(sub.last()));
        }
        assert(trim_end_spec(sub) == sub);
    }
    (lo, hi)
}

} // verus!

