//! Plain decimal numerals, read and written exactly.
//!
//! Telemetry carries two fractional quantities (indicated airspeed and
//! barometric altitude). The library stores each as a whole number of
//! thousandths, so every value it handles is exact; a numeral is accepted
//! when it is an optional minus sign, one or more digits, and an optional
//! fraction of one or more digits, read to thousandth precision.

use vstd::prelude::*;

verus! {

/// Largest magnitude, in thousandths, that a numeric telemetry field may
/// carry; larger values are rejected by the decoder so that every later
/// unit conversion stays within machine integers.
pub const MAX_MILLI: i64 = 1_000_000_000_000;

pub open spec fn is_digit(c: char) -> bool {
    48 <= c as u32 <= 57
}

pub open spec fn digit_val(c: char) -> int {
    c as u32 - 48
}

pub open spec fn all_digits(s: Seq<char>) -> bool {
    forall|i: int| 0 <= i < s.len() ==> is_digit(#[trigger] s[i])
}

/// Value of a digit string, most significant digit first.
pub open spec fn digits_val(s: Seq<char>) -> int
    decreases s.len(),
{
    if s.len() == 0 {
        0
    } else {
        digits_val(s.drop_last()) * 10 + digit_val(s.last())
    }
}

/// An unsigned integer field: one or more digits whose value fits in `u64`.
pub open spec fn valid_u64_field(s: Seq<char>) -> bool {
    s.len() >= 1 && all_digits(s) && digits_val(s) <= u64::MAX
}

/// Index of the first occurrence of `c` in `s`, or `-1` when absent.
pub open spec fn find_sym(s: Seq<char>, c: char) -> int
    decreases s.len(),
{
    if s.len() == 0 {
        -1
    } else if s[0] == c {
        0
    } else {
        let r = find_sym(s.drop_first(), c);
        if r < 0 {
            -1
        } else {
            r + 1
        }
    }
}

pub open spec fn number_neg(s: Seq<char>) -> bool {
    s.len() > 0 && s[0] == '-'
}

/// The numeral with its sign stripped.
pub open spec fn number_body(s: Seq<char>) -> Seq<char> {
    if number_neg(s) {
        s.drop_first()
    } else {
        s
    }
}

/// Value, in thousandths, of a fraction digit string: only the first three
/// digits contribute; deeper digits are beyond the stored precision.
pub open spec fn frac_milli(s: Seq<char>) -> int {
    frac_digit(s, 0) * 100 + frac_digit(s, 1) * 10 + frac_digit(s, 2)
}

pub open spec fn frac_digit(s: Seq<char>, i: int) -> int {
    if i < s.len() {
        digit_val(s[i])
    } else {
        0
    }
}

/// Shape of an accepted numeral: optional minus sign, then digits, then
/// optionally a dot followed by at least one digit.
pub open spec fn valid_decimal(s: Seq<char>) -> bool {
    let b = number_body(s);
    let d = find_sym(b, '.');
    if d < 0 {
        b.len() >= 1 && all_digits(b)
    } else {
        &&& d >= 1
        &&& d + 1 < b.len()
        &&& all_digits(b.subrange(0, d))
        &&& all_digits(b.subrange(d + 1, b.len() as int))
    }
}

/// Value of an accepted numeral, in signed thousandths.
pub open spec fn decimal_milli(s: Seq<char>) -> int {
    let b = number_body(s);
    let d = find_sym(b, '.');
    let mag = if d < 0 {
        digits_val(b) * 1000
    } else {
        digits_val(b.subrange(0, d)) * 1000 + frac_milli(b.subrange(d + 1, b.len() as int))
    };
    if number_neg(s) {
        -mag
    } else {
        mag
    }
}

/// A numeric telemetry field: an accepted numeral whose magnitude the
/// library can carry.
pub open spec fn valid_number_field(s: Seq<char>) -> bool {
    valid_decimal(s) && -MAX_MILLI <= decimal_milli(s) <= MAX_MILLI
}

pub proof fn lemma_digits_val_nonneg(s: Seq<char>)
    requires
        all_digits(s),
    ensures
        digits_val(s) >= 0,
    decreases s.len(),
{
    if s.len() > 0 {
        assert(all_digits(s.drop_last())) by {
            assert forall|i: int| 0 <= i < s.drop_last().len() implies is_digit(
                #[trigger] s.drop_last()[i],
            ) by {
                assert(s.drop_last()[i] == s[i]);
            }
        }
        lemma_digits_val_nonneg(s.drop_last());
    }
}

/// A digit string is worth at least any of its prefixes.
pub proof fn lemma_digits_val_prefix(s: Seq<char>, i: int)
    requires
        all_digits(s),
        0 <= i <= s.len(),
    ensures
        digits_val(s.take(i)) <= digits_val(s),
    decreases s.len(),
{
    if i == s.len() {
        assert(s.take(i) =~= s);
    } else {
        let d = s.drop_last();
        assert(all_digits(d)) by {
            assert forall|j: int| 0 <= j < d.len() implies is_digit(#[trigger] d[j]) by {
                assert(d[j] == s[j]);
            }
        }
        assert(s.take(i) =~= d.take(i));
        lemma_digits_val_prefix(d, i);
        lemma_digits_val_nonneg(d);
    }
}

pub proof fn lemma_find_sym_at(s: Seq<char>, c: char, i: int)
    requires
        0 <= i < s.len(),
        s[i] == c,
        forall|j: int| 0 <= j < i ==> s[j] != c,
    ensures
        find_sym(s, c) == i,
    decreases i,
{
    if i > 0 {
        lemma_find_sym_at(s.drop_first(), c, i - 1);
    }
}

pub proof fn lemma_find_sym_none(s: Seq<char>, c: char)
    requires
        forall|j: int| 0 <= j < s.len() ==> s[j] != c,
    ensures
        find_sym(s, c) == -1,
    decreases s.len(),
{
    if s.len() > 0 {
        lemma_find_sym_none(s.drop_first(), c);
    }
}

pub proof fn lemma_find_sym_props(s: Seq<char>, c: char)
    ensures
        find_sym(s, c) >= 0 ==> 0 <= find_sym(s, c) < s.len() && s[find_sym(s, c)] == c,
        find_sym(s, c) >= 0 ==> forall|j: int| 0 <= j < find_sym(s, c) ==> s[j] != c,
        find_sym(s, c) < 0 ==> forall|j: int| 0 <= j < s.len() ==> s[j] != c,
    decreases s.len(),
{
    if s.len() > 0 && s[0] != c {
        lemma_find_sym_props(s.drop_first(), c);
        if find_sym(s, c) >= 0 {
            assert forall|j: int| 0 <= j < find_sym(s, c) implies s[j] != c by {
                if j > 0 {
                    assert(s.drop_first()[j - 1] == s[j]);
                }
            }
        } else {
            assert forall|j: int| 0 <= j < s.len() implies s[j] != c by {
                if j > 0 {
                    assert(s.drop_first()[j - 1] == s[j]);
                }
            }
        }
    }
}

/// Reads an unsigned integer field.
///
/// Succeeds exactly on one-or-more digits whose value fits in `u64`, and
/// then returns that value.
pub fn parse_u64_digits(s: &str) -> (r: Option<u64>)
    ensures
        r is Some <==> valid_u64_field(s@),
        r matches Some(v) ==> v == digits_val(s@),
{
    let n = s.unicode_len();
    if n == 0 {
        return None;
    }
    let mut i: usize = 0;
    let mut val: u64 = 0;
    while i < n
        invariant
            0 <= i <= n,
            n == s@.len(),
            all_digits(s@.take(i as int)),
            val == digits_val(s@.take(i as int)),
        decreases n - i,
    {
        let c = s.get_char(i);
        let u = c as u32;
        if u < 48 || u > 57 {
            assert(!all_digits(s@)) by {
                assert(s@[i as int] == c);
            }
            return None;
        }
        let d: u64 = (u - 48) as u64;
        proof {
            assert(s@.take(i + 1).drop_last() =~= s@.take(i as int));
            assert(s@.take(i + 1).last() == c);
            assert(all_digits(s@.take(i + 1))) by {
                assert forall|j: int| 0 <= j < i + 1 implies is_digit(
                    #[trigger] s@.take(i + 1)[j],
                ) by {
                    if j < i {
                        assert(s@.take(i + 1)[j] == s@.take(i as int)[j]);
                    } else {
                        assert(s@.take(i + 1)[j] == c);
                    }
                }
            }
        }
        let v10 = match val.checked_mul(10) {
            Some(v) => v,
            None => {
                proof {
                    overflow_means_invalid(s@, i as int, val * 10 + d);
                }
                return None;
            },
        };
        val = match v10.checked_add(d) {
            Some(v) => v,
            None => {
                proof {
                    overflow_means_invalid(s@, i as int, val * 10 + d);
                }
                return None;
            },
        };
        i = i + 1;
    }
    proof {
        assert(s@.take(n as int) =~= s@);
    }
    Some(val)
}

/// A field whose digits already exceed `u64::MAX` at some prefix cannot be a
/// valid unsigned integer field.
proof fn overflow_means_invalid(s: Seq<char>, i: int, prefix_val: int)
    requires
        0 <= i < s.len(),
        all_digits(s.take(i + 1)),
        prefix_val == digits_val(s.take(i + 1)),
        prefix_val > u64::MAX,
    ensures
        !valid_u64_field(s),
{
    if all_digits(s) {
        lemma_digits_val_prefix(s, i + 1);
    }
}

/// Reads a digit run starting at `from`, stopping at the first non-digit.
///
/// Returns the end of the run and its value capped detection: `None` in the
/// value position means the run's value exceeds `u64::MAX`.
fn scan_digits(s: &str, from: usize) -> (r: (usize, Option<u64>))
    requires
        from <= s@.len(),
    ensures
        from <= r.0 <= s@.len(),
        all_digits(s@.subrange(from as int, r.0 as int)),
        r.0 < s@.len() ==> !is_digit(s@[r.0 as int]),
        r.1 matches Some(v) ==> v == digits_val(s@.subrange(from as int, r.0 as int)),
        r.1 is None ==> digits_val(s@.subrange(from as int, r.0 as int)) > u64::MAX,
{
    let n = s.unicode_len();
    let mut i: usize = from;
    let mut val: Option<u64> = Some(0);
    while i < n
        invariant
            from <= i <= n,
            n == s@.len(),
            all_digits(s@.subrange(from as int, i as int)),
            val matches Some(v) ==> v == digits_val(s@.subrange(from as int, i as int)),
            val is None ==> digits_val(s@.subrange(from as int, i as int)) > u64::MAX,
        decreases n - i,
    {
        let c = s.get_char(i);
        let u = c as u32;
        if u < 48 || u > 57 {
            return (i, val);
        }
        let d: u64 = (u - 48) as u64;
        proof {
            assert(s@.subrange(from as int, i + 1).drop_last() =~= s@.subrange(
                from as int,
                i as int,
            ));
            assert(s@.subrange(from as int, i + 1).last() == c);
            assert forall|j: int| 0 <= j < i + 1 - from implies is_digit(
                #[trigger] s@.subrange(from as int, i + 1)[j],
            ) by {
                if j < i - from {
                    assert(s@.subrange(from as int, i + 1)[j] == s@.subrange(
                        from as int,
                        i as int,
                    )[j]);
                } else {
                    assert(s@.subrange(from as int, i + 1)[j] == c);
                }
            }
        }
        val = match val {
            Some(v) => {
                proof {
                    let prev = s@.subrange(from as int, i as int);
                    lemma_digits_val_nonneg(prev);
                }
                match v.checked_mul(10) {
                    Some(v10) => v10.checked_add(d),
                    None => None,
                }
            },
            None => {
                proof {
                    let prev = s@.subrange(from as int, i as int);
                    let cur = s@.subrange(from as int, i + 1);
                    assert(digits_val(cur) == digits_val(prev) * 10 + digit_val(c));
                }
                None
            },
        };
        i = i + 1;
    }
    (i, val)
}

fn digit_at(s: &str, i: usize) -> (r: u64)
    requires
        i < s@.len(),
        is_digit(s@[i as int]),
    ensures
        r == digit_val(s@[i as int]),
        r < 10,
{
    let c = s.get_char(i);
    ((c as u32) - 48) as u64
}

/// Reads a numeric telemetry field into signed thousandths.
///
/// Succeeds exactly on an accepted numeral whose magnitude is at most
/// `MAX_MILLI`, and then returns its value; fraction digits beyond the
/// third are read but do not contribute.
pub fn parse_milli(s: &str) -> (r: Option<i64>)
    ensures
        r is Some <==> valid_number_field(s@),
        r matches Some(v) ==> v == decimal_milli(s@) && -MAX_MILLI <= v <= MAX_MILLI,
{
    let n = s.unicode_len();
    let neg = if n >= 1 {
        s.get_char(0) == '-'
    } else {
        false
    };
    let start: usize = if neg {
        1
    } else {
        0
    };
    proof {
        assert(number_neg(s@) == neg);
        assert(number_body(s@) =~= s@.subrange(start as int, n as int));
    }
    let ghost body = number_body(s@);
    let (intend, intval_opt) = scan_digits(s, start);
    let ghost intpart = s@.subrange(start as int, intend as int);
    proof {
        assert forall|j: int| 0 <= j < intend - start implies is_digit(#[trigger] body[j]) by {
            assert(body[j] == intpart[j]);
        }
    }
    if intend == start {
        // the numeral has no integer digits at all
        proof {
            lemma_find_sym_props(body, '.');
            let d = find_sym(body, '.');
            if body.len() > 0 {
                assert(body[0] == s@[intend as int]);
                if d >= 0 {
                    assert(d >= 1 ==> !is_digit(body.subrange(0, d)[0]));
                }
            }
        }
        return None;
    }
    if intend == n {
        // digits all the way to the end: no fraction
        proof {
            assert forall|j: int| 0 <= j < body.len() implies body[j] != '.' by {
                assert(is_digit(body[j]));
            }
            lemma_find_sym_none(body, '.');
            assert(body =~= intpart);
        }
        let iv = match intval_opt {
            Some(v) => v,
            None => {
                proof {
                    lemma_digits_val_nonneg(intpart);
                }
                return None;
            },
        };
        if iv > 1_000_000_000 {
            return None;
        }
        let mag: u64 = iv * 1000;
        let v: i64 = if neg {
            -(mag as i64)
        } else {
            mag as i64
        };
        return Some(v);
    }
    let c = s.get_char(intend);
    proof {
        assert(body[intend - start] == c);
        assert(!is_digit(c));
    }
    if c != '.' {
        // a character that can be part of no numeral
        proof {
            lemma_find_sym_props(body, '.');
            let d = find_sym(body, '.');
            if d >= 0 {
                assert(d != intend - start);
                if d < intend - start {
                    assert(is_digit(body[d]));
                }
                assert(d > intend - start);
                assert(!is_digit(body.subrange(0, d)[intend - start]));
            }
        }
        return None;
    }
    proof {
        lemma_find_sym_at(body, '.', intend - start);
    }
    if intend + 1 == n {
        // a trailing dot with no fraction digits
        return None;
    }
    let (fend, _fval) = scan_digits(s, intend + 1);
    let ghost fracpart = s@.subrange(intend + 1, fend as int);
    if fend < n {
        // a non-digit inside or after the fraction
        proof {
            let d = intend - start;
            assert(body.subrange(d + 1, body.len() as int)[fend - (intend + 1)] == s@[fend as int]);
            assert(!is_digit(s@[fend as int]));
        }
        return None;
    }
    // the numeral is well-shaped; now bound its magnitude
    proof {
        let d = intend - start;
        assert(body.subrange(0, d) =~= intpart);
        assert(body.subrange(d + 1, body.len() as int) =~= fracpart);
        assert(valid_decimal(s@));
    }
    let flen = n - (intend + 1);
    proof {
        assert(fracpart.len() == flen);
        assert(fracpart[0] == s@[intend + 1]);
        if flen >= 2 {
            assert(fracpart[1] == s@[intend + 2]);
        }
        if flen >= 3 {
            assert(fracpart[2] == s@[intend + 3]);
        }
    }
    let d0: u64 = digit_at(s, intend + 1);
    let d1: u64 = if flen >= 2 {
        digit_at(s, intend + 2)
    } else {
        0
    };
    let d2: u64 = if flen >= 3 {
        digit_at(s, intend + 3)
    } else {
        0
    };
    let fm: u64 = d0 * 100 + d1 * 10 + d2;
    proof {
        assert(frac_digit(fracpart, 0) == digit_val(s@[intend + 1]));
        if flen >= 2 {
            assert(frac_digit(fracpart, 1) == digit_val(s@[intend + 2]));
        }
        if flen >= 3 {
            assert(frac_digit(fracpart, 2) == digit_val(s@[intend + 3]));
        }
        assert(fm == frac_milli(fracpart));
    }
    let iv = match intval_opt {
        Some(v) => v,
        None => {
            proof {
                assert(fm >= 0);
            }
            return None;
        },
    };
    if iv > 1_000_000_000 {
        return None;
    }
    let mag: u64 = iv * 1000 + fm;
    if mag > 1_000_000_000_000 {
        return None;
    }
    let v: i64 = if neg {
        -(mag as i64)
    } else {
        mag as i64
    };
    Some(v)
}

pub open spec fn digit_char_of(d: int) -> char {
    if d == 0 {
        '0'
    } else if d == 1 {
        '1'
    } else if d == 2 {
        '2'
    } else if d == 3 {
        '3'
    } else if d == 4 {
        '4'
    } else if d == 5 {
        '5'
    } else if d == 6 {
        '6'
    } else if d == 7 {
        '7'
    } else if d == 8 {
        '8'
    } else {
        '9'
    }
}

/// Decimal digit string of a non-negative integer, most significant first.
pub open spec fn render_u64_spec(n: int) -> Seq<char>
    decreases n,
{
    if n < 10 {
        seq![digit_char_of(n)]
    } else {
        render_u64_spec(n / 10) + seq![digit_char_of(n % 10)]
    }
}

/// Signed decimal digit string.
pub open spec fn render_int_spec(v: int) -> Seq<char> {
    if v < 0 {
        seq!['-'] + render_u64_spec(-v)
    } else {
        render_u64_spec(v)
    }
}

/// Canonical numeral for a value in thousandths: sign, integer digits, a
/// dot, and exactly three fraction digits.
pub open spec fn render_milli_spec(v: int) -> Seq<char> {
    let m = if v < 0 {
        -v
    } else {
        v
    };
    let frac = seq![
        digit_char_of(m / 100 % 10),
        digit_char_of(m / 10 % 10),
        digit_char_of(m % 10),
    ];
    let body = render_u64_spec(m / 1000) + seq!['.'] + frac;
    if v < 0 {
        seq!['-'] + body
    } else {
        body
    }
}

pub proof fn lemma_render_u64(n: int)
    requires
        n >= 0,
    ensures
        render_u64_spec(n).len() >= 1,
        all_digits(render_u64_spec(n)),
        digits_val(render_u64_spec(n)) == n,
    decreases n,
{
    if n < 10 {
        let s = seq![digit_char_of(n)];
        assert(s.drop_last() =~= Seq::<char>::empty());
        assert(digits_val(Seq::<char>::empty()) == 0);
        assert(s.last() == digit_char_of(n));
        assert(digits_val(s) == digit_val(digit_char_of(n)));
    } else {
        lemma_render_u64(n / 10);
        let r = render_u64_spec(n / 10);
        let s = r + seq![digit_char_of(n % 10)];
        assert(s.drop_last() =~= r);
        assert(s.last() == digit_char_of(n % 10));
        assert forall|i: int| 0 <= i < s.len() implies is_digit(#[trigger] s[i]) by {
            if i < r.len() {
                assert(s[i] == r[i]);
            }
        }
        assert(digits_val(s) == (n / 10) * 10 + n % 10);
    }
}

/// Digits are never punctuation: a digit string holds no comma, dot or sign.
pub proof fn lemma_digit_chars_plain(s: Seq<char>)
    requires
        all_digits(s),
    ensures
        forall|j: int| 0 <= j < s.len() ==> s[j] != ',' && s[j] != '.' && s[j] != '-',
{
    assert forall|j: int| 0 <= j < s.len() implies s[j] != ',' && s[j] != '.' && s[j]
        != '-' by {
        assert(is_digit(s[j]));
    }
}

proof fn lemma_digit_char_val(d: int)
    requires
        0 <= d < 10,
    ensures
        is_digit(digit_char_of(d)),
        digit_val(digit_char_of(d)) == d,
{
}

/// Shape facts about a numeral body made of digits, a dot, and three
/// fraction digits.
proof fn lemma_decimal_body(digits: Seq<char>, frac: Seq<char>)
    requires
        all_digits(digits),
        digits.len() >= 1,
        all_digits(frac),
        frac.len() == 3,
    ensures
        ({
            let body = digits + seq!['.'] + frac;
            &&& find_sym(body, '.') == digits.len()
            &&& body.subrange(0, digits.len() as int) == digits
            &&& body.subrange(digits.len() as int + 1, body.len() as int) == frac
            &&& forall|j: int| 0 <= j < body.len() ==> body[j] != ',' && body[j] != '-'
        }),
{
    let body = digits + seq!['.'] + frac;
    let d = digits.len() as int;
    assert(body[d] == '.');
    assert forall|j: int| 0 <= j < d implies body[j] != '.' by {
        assert(body[j] == digits[j]);
        assert(is_digit(digits[j]));
    }
    lemma_find_sym_at(body, '.', d);
    assert(body.subrange(0, d) =~= digits);
    assert(body.subrange(d + 1, body.len() as int) =~= frac);
    assert forall|j: int| 0 <= j < body.len() implies body[j] != ',' && body[j] != '-' by {
        if j < d {
            assert(body[j] == digits[j]);
            assert(is_digit(digits[j]));
        } else if j == d {
            assert(body[j] == '.');
        } else {
            assert(body[j] == frac[j - d - 1]);
            assert(is_digit(frac[j - d - 1]));
        }
    }
}

/// The three rendered fraction digits recombine to the value below one
/// whole unit.
proof fn lemma_render_frac_val(m: int)
    requires
        m >= 0,
    ensures
        ({
            let frac = seq![
                digit_char_of(m / 100 % 10),
                digit_char_of(m / 10 % 10),
                digit_char_of(m % 10),
            ];
            &&& all_digits(frac)
            &&& m / 1000 * 1000 + frac_milli(frac) == m
        }),
{
    let frac = seq![
        digit_char_of(m / 100 % 10),
        digit_char_of(m / 10 % 10),
        digit_char_of(m % 10),
    ];
    lemma_digit_char_val(m / 100 % 10);
    lemma_digit_char_val(m / 10 % 10);
    lemma_digit_char_val(m % 10);
    assert forall|j: int| 0 <= j < 3 implies is_digit(frac[j]) by {
        if j == 0 {
            assert(frac[j] == digit_char_of(m / 100 % 10));
        } else if j == 1 {
            assert(frac[j] == digit_char_of(m / 10 % 10));
        } else {
            assert(frac[j] == digit_char_of(m % 10));
        }
    }
    assert(frac_milli(frac) == (m / 100 % 10) * 100 + (m / 10 % 10) * 10 + m % 10);
    assert(m == m / 10 * 10 + m % 10);
    assert(m / 10 == m / 100 * 10 + m / 10 % 10);
    assert(m / 100 == m / 1000 * 10 + m / 100 % 10);
}

/// The canonical numeral of a value reads back as that value: rendering
/// then decoding is the identity on stored thousandths.
#[verifier::rlimit(100)]
pub proof fn lemma_decode_render_milli(v: int)
    requires
        -MAX_MILLI <= v <= MAX_MILLI,
    ensures
        valid_number_field(render_milli_spec(v)),
        decimal_milli(render_milli_spec(v)) == v,
        forall|j: int|
            0 <= j < render_milli_spec(v).len() ==> #[trigger] render_milli_spec(v)[j] != ',',
{
    let s = render_milli_spec(v);
    let m = if v < 0 {
        -v
    } else {
        v
    };
    let digits = render_u64_spec(m / 1000);
    let frac = seq![
        digit_char_of(m / 100 % 10),
        digit_char_of(m / 10 % 10),
        digit_char_of(m % 10),
    ];
    let body = digits + seq!['.'] + frac;
    lemma_render_u64(m / 1000);
    lemma_render_frac_val(m);
    lemma_decimal_body(digits, frac);
    let d = digits.len() as int;
    if v < 0 {
        assert(s == seq!['-'] + body);
        assert(s[0] == '-');
        assert(number_neg(s));
        assert(number_body(s) =~= body);
    } else {
        assert(s == body);
        assert(s[0] == digits[0]);
        assert(is_digit(digits[0]));
        assert(!number_neg(s));
        assert(number_body(s) == body);
    }
    assert(valid_decimal(s));
    assert(digits_val(digits) * 1000 + frac_milli(frac) == m);
    assert(decimal_milli(s) == v);
    assert forall|j: int| 0 <= j < s.len() implies #[trigger] s[j] != ',' by {
        let off = if v < 0 {
            1int
        } else {
            0int
        };
        if j >= off {
            assert(s[j] == body[j - off]);
        }
    }
}

fn digit_str(d: u64) -> (r: &'static str)
    requires
        d < 10,
    ensures
        r@ =~= seq![digit_char_of(d as int)],
{
    proof {
        reveal_strlit("0");
        reveal_strlit("1");
        reveal_strlit("2");
        reveal_strlit("3");
        reveal_strlit("4");
        reveal_strlit("5");
        reveal_strlit("6");
        reveal_strlit("7");
        reveal_strlit("8");
        reveal_strlit("9");
    }
    match d {
        0 => "0",
        1 => "1",
        2 => "2",
        3 => "3",
        4 => "4",
        5 => "5",
        6 => "6",
        7 => "7",
        8 => "8",
        _ => "9",
    }
}

/// Writes a non-negative integer in decimal.
pub fn render_u64(n: u64) -> (r: String)
    ensures
        r@ == render_u64_spec(n as int),
    decreases n,
{
    if n < 10 {
        String::from_str(digit_str(n))
    } else {
        let mut s = render_u64(n / 10);
        s.append(digit_str(n % 10));
        proof {
            assert(s@ =~= render_u64_spec(n as int));
        }
        s
    }
}

/// Writes a signed integer in decimal.
pub fn render_i64(v: i64) -> (r: String)
    requires
        v > i64::MIN,
    ensures
        r@ == render_int_spec(v as int),
{
    proof {
        reveal_strlit("-");
    }
    if v < 0 {
        let mut s = String::from_str("-");
        let m = render_u64((-v) as u64);
        s.append(m.as_str());
        proof {
            assert(s@ =~= render_int_spec(v as int));
        }
        s
    } else {
        render_u64(v as u64)
    }
}

/// Writes a value in thousandths as its canonical numeral.
pub fn render_milli(v: i64) -> (r: String)
    requires
        -MAX_MILLI <= v <= MAX_MILLI,
    ensures
        r@ == render_milli_spec(v as int),
{
    proof {
        reveal_strlit("-");
        reveal_strlit(".");
    }
    let m: u64 = if v < 0 {
        (-v) as u64
    } else {
        v as u64
    };
    let mut s = if v < 0 {
        String::from_str("-")
    } else {
        String::new()
    };
    let ip = render_u64(m / 1000);
    s.append(ip.as_str());
    s.append(".");
    s.append(digit_str(m / 100 % 10));
    s.append(digit_str(m / 10 % 10));
    s.append(digit_str(m % 10));
    proof {
        assert(s@ =~= render_milli_spec(v as int));
    }
    s
}

} // verus!
