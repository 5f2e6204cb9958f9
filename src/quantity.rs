use crate::error::AppError;
use vstd::prelude::*;

verus! {

/// A resource amount in its normalized unit: millicores for CPU, bytes for
/// memory.
#[derive(Debug, Clone, Copy)]
pub struct ResourceValue(pub i64);

impl ResourceValue {
    pub fn new(value: i64) -> (r: Self)
        ensures
            r.0 == value,
    {
        Self(value)
    }

    pub fn as_millicores(&self) -> (r: i64)
        ensures
            r == self.0,
    {
        self.0
    }

    pub fn as_bytes(&self) -> (r: i64)
        ensures
            r == self.0,
    {
        self.0
    }
}

impl Default for ResourceValue {
    fn default() -> (r: Self)
        ensures
            r.0 == 0,
    {
        Self(0)
    }
}

pub open spec fn fits_i64(v: int) -> bool {
    i64::MIN <= v <= i64::MAX
}

pub open spec fn is_digit(c: char) -> bool {
    '0' <= c <= '9'
}

pub open spec fn digit_value(c: char) -> int {
    (c as int) - ('0' as int)
}

pub open spec fn all_digits(s: Seq<char>) -> bool {
    forall|i: int| 0 <= i < s.len() ==> is_digit(#[trigger] s[i])
}

/// The number that a run of decimal digits spells.
pub open spec fn digits_value(s: Seq<char>) -> int
    decreases s.len(),
{
    if s.len() == 0 {
        0
    } else {
        10 * digits_value(s.drop_last()) + digit_value(s.last())
    }
}

pub open spec fn has_sign(s: Seq<char>) -> bool {
    s.len() > 0 && (s[0] == '-' || s[0] == '+')
}

pub open spec fn unsigned_part(s: Seq<char>) -> Seq<char> {
    if has_sign(s) {
        s.drop_first()
    } else {
        s
    }
}

/// A decimal integer with an optional leading `+` or `-`, when it fits in
/// `i64`: the syntax that `i64`'s `FromStr` accepts.
pub open spec fn parse_int(s: Seq<char>) -> Option<int> {
    let digits = unsigned_part(s);
    let magnitude = digits_value(digits);
    let v = if has_sign(s) && s[0] == '-' {
        -magnitude
    } else {
        magnitude
    };
    if digits.len() > 0 && all_digits(digits) && fits_i64(v) {
        Some(v)
    } else {
        None
    }
}

proof fn lemma_digits_value_step(s: Seq<char>, start: int, i: int)
    requires
        0 <= start <= i < s.len(),
    ensures
        digits_value(s.subrange(start, i + 1)) == 10 * digits_value(s.subrange(start, i))
            + digit_value(s[i]),
{
    assert(s.subrange(start, i + 1).drop_last() =~= s.subrange(start, i));
}

proof fn lemma_digits_value_prefix(s: Seq<char>, k: int)
    requires
        all_digits(s),
        0 <= k <= s.len(),
    ensures
        0 <= digits_value(s.subrange(0, k)) <= digits_value(s),
    decreases s.len(),
{
    if k == s.len() {
        assert(s.subrange(0, k) =~= s);
        if s.len() > 0 {
            let t = s.drop_last();
            assert(all_digits(t)) by {
                assert forall|i: int| 0 <= i < t.len() implies is_digit(#[trigger] t[i]) by {
                    assert(t[i] == s[i]);
                }
            }
            lemma_digits_value_prefix(t, t.len() as int);
            assert(t.subrange(0, t.len() as int) =~= t);
            assert(is_digit(s[s.len() - 1]));
        }
    } else {
        let t = s.drop_last();
        assert(all_digits(t)) by {
            assert forall|i: int| 0 <= i < t.len() implies is_digit(#[trigger] t[i]) by {
                assert(t[i] == s[i]);
            }
        }
        lemma_digits_value_prefix(t, k);
        lemma_digits_value_prefix(t, t.len() as int);
        assert(t.subrange(0, k) =~= s.subrange(0, k));
        assert(t.subrange(0, t.len() as int) =~= t);
        assert(is_digit(s[s.len() - 1]));
    }
}

/// Parses `s@.subrange(0, end)` as `i64`'s `FromStr` would.
fn parse_int_prefix(s: &str, end: usize) -> (r: Option<i64>)
    requires
        end <= s@.len(),
    ensures
        r matches Some(v) ==> parse_int(s@.subrange(0, end as int)) == Some(v as int),
        r is None ==> parse_int(s@.subrange(0, end as int)) is None,
{
    let ghost t = s@.subrange(0, end as int);
    if end == 0 {
        return None;
    }
    let first = s.get_char(0);
    let negative = first == '-';
    let start: usize = if first == '-' || first == '+' {
        1
    } else {
        0
    };
    assert(has_sign(t) <==> start == 1);
    let ghost digits = t.subrange(start as int, end as int);
    assert(unsigned_part(t) =~= digits);
    if start == end {
        return None;
    }
    let limit: u64 = if negative {
        9223372036854775808
    } else {
        9223372036854775807
    };
    let mut acc: u64 = 0;
    let mut i: usize = start;
    while i < end
        invariant
            start <= i <= end <= s@.len(),
            t == s@.subrange(0, end as int),
            t.len() > 0,
            negative == (t[0] == '-'),
            has_sign(t) <==> start == 1,
            unsigned_part(t) == digits,
            limit == if negative {
                9223372036854775808u64
            } else {
                9223372036854775807u64
            },
            digits == t.subrange(start as int, end as int),
            all_digits(s@.subrange(start as int, i as int)),
            acc as int == digits_value(s@.subrange(start as int, i as int)),
            acc <= limit,
        decreases end - i,
    {
        let c = s.get_char(i);
        if !('0' <= c && c <= '9') {
            assert(digits[i - start] == s@[i as int]);
            assert(!is_digit(digits[i - start]));
            return None;
        }
        let d: u64 = (c as u32 - '0' as u32) as u64;
        assert(d <= 9 && d == digit_value(s@[i as int]));
        proof {
            lemma_digits_value_step(s@, start as int, i as int);
        }
        if acc > (limit - d) / 10 {
            proof {
                assert(acc * 10 + d > limit) by (nonlinear_arith)
                    requires
                        acc > (limit - d) / 10,
                        d <= limit,
                ;
                let p = s@.subrange(start as int, i as int + 1);
                assert(all_digits(p)) by {
                    assert forall|j: int| 0 <= j < p.len() implies is_digit(#[trigger] p[j]) by {
                        if j < i - start {
                            assert(p[j] == s@.subrange(start as int, i as int)[j]);
                        }
                    }
                }
                if all_digits(digits) {
                    assert(p =~= digits.subrange(0, i + 1 - start));
                    lemma_digits_value_prefix(digits, i + 1 - start);
                }
            }
            return None;
        }
        assert(acc * 10 + d <= limit) by (nonlinear_arith)
            requires
                acc <= (limit - d) / 10,
                d <= limit,
        ;
        acc = acc * 10 + d;
        proof {
            let p = s@.subrange(start as int, i as int + 1);
            assert forall|j: int| 0 <= j < p.len() implies is_digit(#[trigger] p[j]) by {
                if j < i - start {
                    assert(p[j] == s@.subrange(start as int, i as int)[j]);
                }
            }
        }
        i = i + 1;
    }
    assert(s@.subrange(start as int, end as int) =~= digits);
    if negative {
        if acc == 9223372036854775808 {
            Some(i64::MIN)
        } else {
            Some(-(acc as i64))
        }
    } else {
        Some(acc as i64)
    }
}

pub open spec fn ends_with(s: Seq<char>, p: Seq<char>) -> bool {
    p.len() <= s.len() && s.subrange(s.len() - p.len(), s.len() as int) == p
}

/// `v` multiplied by `factor`, when both are there and the product fits in
/// `i64`.
pub open spec fn scale(v: Option<int>, factor: int) -> Option<int> {
    match v {
        Some(x) => if fits_i64(x * factor) {
            Some(x * factor)
        } else {
            None
        },
        None => None,
    }
}

/// The millicores that a CPU quantity stands for: `""` is zero, an integer
/// followed by one `m` counts millicores, and a bare integer counts whole
/// cores.
pub open spec fn cpu_millicores(s: Seq<char>) -> Option<int> {
    if s.len() == 0 {
        Some(0)
    } else if s.last() == 'm' {
        parse_int(s.drop_last())
    } else {
        scale(parse_int(s), 1000)
    }
}

pub open spec fn kibi_suffix() -> Seq<char> {
    seq!['K', 'i']
}

pub open spec fn mebi_suffix() -> Seq<char> {
    seq!['M', 'i']
}

pub open spec fn gibi_suffix() -> Seq<char> {
    seq!['G', 'i']
}

/// The bytes that a memory quantity stands for: `""` is zero, an integer
/// followed by one of the suffixes `Mi`, `Gi` and `Ki` is scaled by the
/// matching power of 1024, and a bare integer counts bytes.
pub open spec fn memory_bytes(s: Seq<char>) -> Option<int> {
    if s.len() == 0 {
        Some(0)
    } else if ends_with(s, mebi_suffix()) {
        scale(parse_int(s.subrange(0, s.len() - 2)), 1048576)
    } else if ends_with(s, gibi_suffix()) {
        scale(parse_int(s.subrange(0, s.len() - 2)), 1073741824)
    } else if ends_with(s, kibi_suffix()) {
        scale(parse_int(s.subrange(0, s.len() - 2)), 1024)
    } else {
        parse_int(s)
    }
}

/// Whether the first `end` characters of `s` end with `p`.
fn ends_with_at(s: &str, end: usize, p: &str, p_len: usize) -> (r: bool)
    requires
        end <= s@.len(),
        p_len == p@.len(),
    ensures
        r == ends_with(s@.subrange(0, end as int), p@),
{
    let ghost t = s@.subrange(0, end as int);
    if p_len > end {
        return false;
    }
    let base = end - p_len;
    let mut j: usize = 0;
    while j < p_len
        invariant
            j <= p_len == p@.len(),
            base + p_len == end <= s@.len(),
            t == s@.subrange(0, end as int),
            forall|m: int| 0 <= m < j ==> s@[base + m] == p@[m],
        decreases p_len - j,
    {
        if s.get_char(base + j) != p.get_char(j) {
            assert(t.subrange(base as int, end as int)[j as int] != p@[j as int]);
            return false;
        }
        j = j + 1;
    }
    assert(t.subrange(base as int, end as int) =~= p@);
    true
}

/// `scale(parse_int(s@.subrange(0, end)), factor)`, computed.
fn parse_scaled_prefix(s: &str, end: usize, factor: i64) -> (r: Option<i64>)
    requires
        end <= s@.len(),
    ensures
        r matches Some(v) ==> scale(parse_int(s@.subrange(0, end as int)), factor as int) == Some(
            v as int,
        ),
        r is None ==> scale(parse_int(s@.subrange(0, end as int)), factor as int) is None,
{
    match parse_int_prefix(s, end) {
        Some(v) => v.checked_mul(factor),
        None => None,
    }
}

fn parse_error(what: &str) -> (r: AppError)
    ensures
        r matches AppError::ParseError(_),
{
    let mut message = "Failed to parse ".to_owned();
    message.append(what);
    AppError::ParseError(message)
}

/// Parses a CPU quantity into millicores: `""` is 0, `"500m"` is 500 and
/// `"2"` is 2000; only one `m` is stripped, so `"5mm"` is an error. Any other text, or an amount that does not fit in `i64`,
/// is a `ParseError`.
pub fn parse_cpu(quantity: &str) -> (r: Result<ResourceValue, AppError>)
    ensures
        match cpu_millicores(quantity@) {
            Some(v) => r matches Ok(x) && x.0 == v,
            None => r matches Err(AppError::ParseError(_)),
        },
{
    let n = quantity.unicode_len();
    if n == 0 {
        return Ok(ResourceValue(0));
    }
    assert(quantity@.subrange(0, n as int) =~= quantity@);
    if quantity.get_char(n - 1) == 'm' {
        assert(quantity@.subrange(0, n - 1) =~= quantity@.drop_last());
        match parse_int_prefix(quantity, n - 1) {
            Some(v) => Ok(ResourceValue(v)),
            None => Err(parse_error("CPU millicores")),
        }
    } else {
        match parse_scaled_prefix(quantity, n, 1000) {
            Some(v) => Ok(ResourceValue(v)),
            None => Err(parse_error("CPU cores")),
        }
    }
}

/// Parses a memory quantity into bytes: `""` is 0, `"1Ki"`, `"1Mi"` and
/// `"1Gi"` are 1024, 1024² and 1024³, and a bare integer counts bytes; only
/// one suffix is stripped, so `"1MiMi"` is an error. Any
/// other text, or an amount that does not fit in `i64`, is a `ParseError`.
pub fn parse_memory(quantity: &str) -> (r: Result<ResourceValue, AppError>)
    ensures
        match memory_bytes(quantity@) {
            Some(v) => r matches Ok(x) && x.0 == v,
            None => r matches Err(AppError::ParseError(_)),
        },
{
    let n = quantity.unicode_len();
    if n == 0 {
        return Ok(ResourceValue(0));
    }
    assert(quantity@.subrange(0, n as int) =~= quantity@);
    proof {
        reveal_strlit("Mi");
        reveal_strlit("Gi");
        reveal_strlit("Ki");
    }
    assert("Mi"@ =~= mebi_suffix());
    assert("Gi"@ =~= gibi_suffix());
    assert("Ki"@ =~= kibi_suffix());
    let parsed = if ends_with_at(quantity, n, "Mi", 2) {
        parse_scaled_prefix(quantity, n - 2, 1048576)
    } else if ends_with_at(quantity, n, "Gi", 2) {
        parse_scaled_prefix(quantity, n - 2, 1073741824)
    } else if ends_with_at(quantity, n, "Ki", 2) {
        parse_scaled_prefix(quantity, n - 2, 1024)
    } else {
        parse_scaled_prefix(quantity, n, 1)
    };
    match parsed {
        Some(v) => Ok(ResourceValue(v)),
        None => Err(parse_error("memory value")),
    }
}

} // verus!
