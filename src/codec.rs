//! The controller's text protocol: reading a gain out of its report, and
//! writing a gain as the argument it accepts.
use vstd::prelude::*;

use crate::error::GainError;
use crate::gain::{differs_spec, in_range, round_tenths, round_to_tenths, Gain};

verus! {

/// Pattern that finds the reported gain in the controller's output.
pub const GAIN_PATTERN: &'static str = "Gain\\((?P<gain>-*\\d*\\.*\\d*)\\)";

/// Name of the group of `GAIN_PATTERN` that holds the number.
pub const GAIN_GROUP: &'static str = "gain";

pub open spec fn is_digit(c: char) -> bool {
    '0' <= c && c <= '9'
}

pub open spec fn digit_value(c: char) -> int {
    c as int - '0' as int
}

pub open spec fn digit_char(d: int) -> char {
    if d <= 0 {
        '0'
    } else if d == 1 {
        '1'
    } else if d == 2 {
        '2'
    } else if d == 3 {
        '3'
    } else if d == 4 {
        '4'
    } else if d == 5 {
        '5'
    } else if d == 6 {
        '6'
    } else if d == 7 {
        '7'
    } else if d == 8 {
        '8'
    } else {
        '9'
    }
}

/// The decimal digits of `n`, most significant first, without leading zeros.
pub open spec fn nat_digits(n: nat) -> Seq<char>
    decreases n,
{
    if n < 10 {
        seq![digit_char(n as int)]
    } else {
        nat_digits(n / 10).push(digit_char((n % 10) as int))
    }
}

pub open spec fn abs(x: int) -> nat {
    if x < 0 {
        (-x) as nat
    } else {
        x as nat
    }
}

/// A count of tenths written with one fractional digit, as in `-12.3`.
pub open spec fn gain_text(tenths: int) -> Seq<char> {
    let sign = if tenths < 0 {
        seq!['-']
    } else {
        Seq::<char>::empty()
    };
    sign + nat_digits(abs(tenths) / 10) + seq!['.', digit_char((abs(tenths) % 10) as int)]
}

/// The value of a run of decimal digits.
pub open spec fn digits_value(s: Seq<char>) -> int
    decreases s.len(),
{
    if s.len() == 0 {
        0
    } else {
        digits_value(s.drop_last()) * 10 + digit_value(s.last())
    }
}

pub open spec fn all_digits(s: Seq<char>) -> bool {
    forall|i: int| 0 <= i < s.len() ==> is_digit(#[trigger] s[i])
}

/// How many decimal digits `s` starts with.
pub open spec fn leading_digits(s: Seq<char>) -> nat
    decreases s.len(),
{
    if s.len() > 0 && is_digit(s[0]) {
        1 + leading_digits(s.drop_first())
    } else {
        0
    }
}

/// The first two fractional digits as hundredths; later digits are dropped.
pub open spec fn frac_hundredths(f: Seq<char>) -> int {
    (if f.len() > 0 {
        digit_value(f[0]) * 10
    } else {
        0
    }) + (if f.len() > 1 {
        digit_value(f[1])
    } else {
        0
    })
}

/// The value in hundredths of a number written as an optional `-`, digits,
/// and optionally a `.` and more digits, with at least one digit in all;
/// `None` for any other text.
pub open spec fn number_spec(s: Seq<char>) -> Option<int> {
    let neg = s.len() > 0 && s[0] == '-';
    let r = if neg {
        s.drop_first()
    } else {
        s
    };
    let k = leading_digits(r);
    let rest = r.skip(k as int);
    let frac = if rest.len() > 0 {
        rest.drop_first()
    } else {
        Seq::<char>::empty()
    };
    if (rest.len() == 0 || (rest[0] == '.' && all_digits(frac))) && k + frac.len() >= 1 {
        let mag = digits_value(r.take(k as int)) * 100 + frac_hundredths(frac);
        Some(
            if neg {
                -mag
            } else {
                mag
            },
        )
    } else {
        None
    }
}

/// The gain a captured number denotes, when it is well formed and fits.
pub open spec fn gain_of_number(s: Seq<char>) -> Result<Gain, GainError> {
    match number_spec(s) {
        Some(v) => if i64::MIN <= v <= i64::MAX {
            Ok(Gain { hundredths: v as i64 })
        } else {
            Err(GainError::ProtocolParse)
        },
        None => Err(GainError::ProtocolParse),
    }
}

/// What group `group` of `pattern` captures in the leftmost-first match of
/// `pattern` in `text`.
pub uninterp spec fn regex_named_capture(
    pattern: Seq<char>,
    text: Seq<char>,
    group: Seq<char>,
) -> Option<Seq<char>>;

/// The gain that the controller's output `text` reports.
pub open spec fn parse_gain_spec(text: Seq<char>) -> Result<Gain, GainError> {
    match regex_named_capture(GAIN_PATTERN@, text, GAIN_GROUP@) {
        Some(c) => gain_of_number(c),
        None => Err(GainError::ProtocolParse),
    }
}

/// Relies on regex::Regex::new, Regex::captures and Captures::name with
/// Match::as_str: the text that a named group captured in the leftmost-first
/// match, and `None` when the pattern does not compile, nothing matches, or
/// the group took no part in the match.
#[verifier::external_body]
fn named_capture(pattern: &str, text: &str, group: &str) -> (r: Option<String>)
    ensures
        r matches Some(c) ==> regex_named_capture(pattern@, text@, group@) == Some(c@),
        r is None ==> regex_named_capture(pattern@, text@, group@) is None,
{
    let re = regex::Regex::new(pattern).ok()?;
    let caps = re.captures(text)?;
    caps.name(group).map(|m| m.as_str().to_string())
}


/// Bound on the integer part while it is read: beyond it no value fits.
const INT_PART_LIMIT: u128 = 100_000_000_000_000_000;

proof fn lemma_leading_digits(r: Seq<char>, m: nat)
    requires
        m <= r.len(),
        forall|j: int| 0 <= j < m ==> is_digit(#[trigger] r[j]),
    ensures
        leading_digits(r) >= m,
        (m == r.len() || !is_digit(r[m as int])) ==> leading_digits(r) == m,
    decreases m,
{
    if m > 0 {
        let t = r.drop_first();
        assert forall|j: int| 0 <= j < m - 1 implies is_digit(#[trigger] t[j]) by {
            assert(t[j] == r[j + 1]);
        }
        lemma_leading_digits(t, (m - 1) as nat);
        if m < r.len() {
            assert(t[m - 1] == r[m as int]);
        }
    }
}

proof fn lemma_digits_nonneg(s: Seq<char>)
    requires
        all_digits(s),
    ensures
        digits_value(s) >= 0,
    decreases s.len(),
{
    if s.len() > 0 {
        let t = s.drop_last();
        assert(all_digits(t)) by {
            assert forall|j: int| 0 <= j < t.len() implies is_digit(#[trigger] t[j]) by {
                assert(t[j] == s[j]);
            }
        }
        lemma_digits_nonneg(t);
        assert(is_digit(s[s.len() - 1]));
    }
}

proof fn lemma_digits_monotone(s: Seq<char>, i: int, j: int)
    requires
        0 <= i <= j <= s.len(),
        forall|m: int| 0 <= m < j ==> is_digit(#[trigger] s[m]),
    ensures
        0 <= digits_value(s.take(i)) <= digits_value(s.take(j)),
    decreases j - i,
{
    if i == j {
        assert(all_digits(s.take(i)));
        lemma_digits_nonneg(s.take(i));
    } else {
        lemma_digits_monotone(s, i, j - 1);
        assert(s.take(j).drop_last() =~= s.take(j - 1));
        assert(s.take(j).last() == s[j - 1]);
    }
}

fn is_digit_char(c: char) -> (r: bool)
    ensures
        r == is_digit(c),
{
    '0' <= c && c <= '9'
}

fn digit_of(c: char) -> (r: u128)
    requires
        is_digit(c),
    ensures
        r == digit_value(c),
        r <= 9,
{
    (c as u32 - '0' as u32) as u128
}

/// Reads a number captured from the controller's output: an optional `-`,
/// digits, and optionally a `.` and more digits, with at least one digit in
/// all. The result is in hundredths; fractional digits past the second are
/// dropped. Any other text, or a value that does not fit, is a
/// `ProtocolParse` error.
pub fn parse_captured_gain(s: &str) -> (r: Result<Gain, GainError>)
    ensures
        r == gain_of_number(s@),
{
    let n = s.unicode_len();
    let neg = n > 0 && s.get_char(0) == '-';
    let start: usize = if neg {
        1
    } else {
        0
    };
    let ghost r = s@.subrange(start as int, n as int);
    proof {
        if neg {
            assert(r =~= s@.drop_first());
        } else {
            assert(r =~= s@);
        }
    }
    let mut i: usize = start;
    let mut mag: u128 = 0;
    while i < n && is_digit_char(s.get_char(i))
        invariant
            start <= i <= n,
            n == s@.len(),
            r == s@.subrange(start as int, n as int),
            r == (if neg {
                s@.drop_first()
            } else {
                s@
            }),
            neg == (s@.len() > 0 && s@[0] == '-'),
            forall|j: int| start <= j < i ==> is_digit(#[trigger] s@[j]),
            mag == digits_value(s@.subrange(start as int, i as int)),
            mag <= INT_PART_LIMIT,
        decreases n - i,
    {
        let d = digit_of(s.get_char(i));
        proof {
            assert(s@.subrange(start as int, i + 1).drop_last() =~= s@.subrange(
                start as int,
                i as int,
            ));
        }
        let next = mag * 10 + d;
        assert(digits_value(s@.subrange(start as int, i + 1)) == next);
        if next > INT_PART_LIMIT {
            proof {
                let m = (i + 1 - start) as nat;
                assert forall|j: int| 0 <= j < m implies is_digit(#[trigger] r[j]) by {
                    assert(r[j] == s@[start + j]);
                }
                lemma_leading_digits(r, m);
                let k = leading_digits(r);
                lemma_leading_bound(r);
                assert forall|j: int| 0 <= j < k implies is_digit(#[trigger] r[j]) by {
                    lemma_leading_prefix(r, j);
                }
                lemma_digits_monotone(r, m as int, k as int);
                assert(r.take(m as int) =~= s@.subrange(start as int, i + 1));
                assert(digits_value(r.take(m as int)) == next);
                assert(digits_value(r.take(k as int)) > INT_PART_LIMIT);
                let rest = r.skip(k as int);
                let frac = if rest.len() > 0 {
                    rest.drop_first()
                } else {
                    Seq::<char>::empty()
                };
                if frac.len() > 0 && all_digits(frac) {
                    assert(is_digit(frac[0]));
                }
                if frac.len() > 1 && all_digits(frac) {
                    assert(is_digit(frac[1]));
                }
            }
            return Err(GainError::ProtocolParse);
        }
        mag = next;
        i = i + 1;
    }
    let k = i - start;
    proof {
        assert forall|j: int| 0 <= j < k implies is_digit(#[trigger] r[j]) by {
            assert(r[j] == s@[start + j]);
        }
        if i < n {
            assert(r[k as int] == s@[i as int]);
        }
        lemma_leading_digits(r, k as nat);
        assert(r.take(k as int) =~= s@.subrange(start as int, i as int));
        assert(r.skip(k as int) =~= s@.subrange(i as int, n as int));
    }
    let mut frac: u128 = 0;
    let mut frac_len: usize = 0;
    if i < n {
        if s.get_char(i) != '.' {
            return Err(GainError::ProtocolParse);
        }
        let ghost fs = s@.subrange(i + 1, n as int);
        proof {
            assert(s@.subrange(i as int, n as int).drop_first() =~= fs);
        }
        let mut j: usize = i + 1;
        while j < n
            invariant
                i < j <= n,
                n == s@.len(),
                k == i - start,
                start == (if neg {
                    1int
                } else {
                    0int
                }),
                neg == (s@.len() > 0 && s@[0] == '-'),
                r == s@.subrange(start as int, n as int),
                r == (if neg {
                    s@.drop_first()
                } else {
                    s@
                }),
                leading_digits(r) == k,
                r.skip(k as int) == s@.subrange(i as int, n as int),
                s@[i as int] == '.',
                s@.subrange(i as int, n as int).drop_first() == fs,
                fs == s@.subrange(i + 1, n as int),
                forall|m: int| i + 1 <= m < j ==> is_digit(#[trigger] s@[m]),
                frac == frac_hundredths(s@.subrange(i + 1, j as int)),
            decreases n - j,
        {
            let c = s.get_char(j);
            if !is_digit_char(c) {
                proof {
                    assert(fs[j - i - 1] == c);
                }
                return Err(GainError::ProtocolParse);
            }
            let d = digit_of(c);
            if j == i + 1 {
                frac = d * 10;
            } else if j == i + 2 {
                frac = frac + d;
            }
            proof {
                let a = s@.subrange(i + 1, j as int);
                let b = s@.subrange(i + 1, j + 1);
                assert(b.len() > 0 ==> b[0] == s@[i + 1]);
                assert(a.len() > 0 ==> a[0] == s@[i + 1]);
                assert(b.len() > 1 ==> b[1] == s@[i + 2]);
                assert(a.len() > 1 ==> a[1] == s@[i + 2]);
            }
            j = j + 1;
        }
        proof {
            assert(s@.subrange(i + 1, n as int) =~= fs);
            assert(all_digits(fs)) by {
                assert forall|m: int| 0 <= m < fs.len() implies is_digit(#[trigger] fs[m]) by {
                    assert(fs[m] == s@[i + 1 + m]);
                }
            }
        }
        frac_len = n - i - 1;
    }
    if k + frac_len < 1 {
        return Err(GainError::ProtocolParse);
    }
    let total: u128 = mag * 100 + frac;
    if neg {
        if total > 0x8000_0000_0000_0000 {
            Err(GainError::ProtocolParse)
        } else {
            Ok(Gain { hundredths: (0 - (total as i128)) as i64 })
        }
    } else {
        if total > 0x7fff_ffff_ffff_ffff {
            Err(GainError::ProtocolParse)
        } else {
            Ok(Gain { hundredths: total as i64 })
        }
    }
}

proof fn lemma_leading_bound(r: Seq<char>)
    ensures
        leading_digits(r) <= r.len(),
    decreases r.len(),
{
    if r.len() > 0 {
        lemma_leading_bound(r.drop_first());
    }
}

proof fn lemma_leading_prefix(r: Seq<char>, j: int)
    requires
        0 <= j < leading_digits(r),
    ensures
        j < r.len(),
        is_digit(r[j]),
    decreases j,
{
    lemma_leading_bound(r);
    if j > 0 {
        lemma_leading_prefix(r.drop_first(), j - 1);
    }
}


/// Reads the gain that the controller's output reports: the number captured
/// by `GAIN_PATTERN`, read as `parse_captured_gain` does. Output with no
/// match is a `ProtocolParse` error.
pub fn parse_gain(text: &str) -> (r: Result<Gain, GainError>)
    ensures
        r == parse_gain_spec(text@),
        regex_named_capture(GAIN_PATTERN@, text@, GAIN_GROUP@) is None ==> r == Err::<
            Gain,
            GainError,
        >(GainError::ProtocolParse),
{
    match named_capture(GAIN_PATTERN, text, GAIN_GROUP) {
        Some(c) => parse_captured_gain(c.as_str()),
        None => Err(GainError::ProtocolParse),
    }
}

fn digit_text(d: u64) -> (r: &'static str)
    requires
        d < 10,
    ensures
        r@ == seq![digit_char(d as int)],
{
    if d == 0 {
        proof {
            reveal_strlit("0");
        }
        assert("0"@ =~= seq!['0']);
        "0"
    } else if d == 1 {
        proof {
            reveal_strlit("1");
        }
        assert("1"@ =~= seq!['1']);
        "1"
    } else if d == 2 {
        proof {
            reveal_strlit("2");
        }
        assert("2"@ =~= seq!['2']);
        "2"
    } else if d == 3 {
        proof {
            reveal_strlit("3");
        }
        assert("3"@ =~= seq!['3']);
        "3"
    } else if d == 4 {
        proof {
            reveal_strlit("4");
        }
        assert("4"@ =~= seq!['4']);
        "4"
    } else if d == 5 {
        proof {
            reveal_strlit("5");
        }
        assert("5"@ =~= seq!['5']);
        "5"
    } else if d == 6 {
        proof {
            reveal_strlit("6");
        }
        assert("6"@ =~= seq!['6']);
        "6"
    } else if d == 7 {
        proof {
            reveal_strlit("7");
        }
        assert("7"@ =~= seq!['7']);
        "7"
    } else if d == 8 {
        proof {
            reveal_strlit("8");
        }
        assert("8"@ =~= seq!['8']);
        "8"
    } else {
        proof {
            reveal_strlit("9");
        }
        assert("9"@ =~= seq!['9']);
        "9"
    }
}

fn push_digits(n: u64, out: &mut String)
    ensures
        final(out)@ == old(out)@ + nat_digits(n as nat),
    decreases n,
{
    if n >= 10 {
        push_digits(n / 10, out);
    }
    out.append(digit_text(n % 10));
    proof {
        if n >= 10 {
            assert(old(out)@ + nat_digits((n / 10) as nat) + seq![digit_char((n % 10) as int)]
                =~= old(out)@ + nat_digits(n as nat));
        } else {
            assert(old(out)@ + seq![digit_char((n % 10) as int)] =~= old(out)@ + nat_digits(
                n as nat,
            ));
        }
    }
}

/// Writes a gain as the controller reports and accepts it: rounded to tenths
/// (ties away from zero), with exactly one fractional digit, as in `-12.3`.
pub fn format_gain(g: Gain) -> (r: String)
    ensures
        r@ == gain_text(round_tenths(g.hundredths as int)),
{
    let t = round_to_tenths(g.hundredths);
    let a: u64 = if t < 0 {
        (0 - (t as i128)) as u64
    } else {
        t as u64
    };
    let mut out = String::new();
    if t < 0 {
        proof {
            reveal_strlit("-");
        }
        assert("-"@ =~= seq!['-']);
        out.append("-");
    }
    push_digits(a / 10, &mut out);
    proof {
        reveal_strlit(".");
    }
    assert("."@ =~= seq!['.']);
    out.append(".");
    out.append(digit_text(a % 10));
    assert(out@ =~= gain_text(t as int));
    out
}

proof fn lemma_digit_char(d: int)
    requires
        0 <= d <= 9,
    ensures
        is_digit(digit_char(d)),
        digit_value(digit_char(d)) == d,
{
}

proof fn lemma_nat_digits(n: nat)
    ensures
        nat_digits(n).len() >= 1,
        all_digits(nat_digits(n)),
        digits_value(nat_digits(n)) == n,
    decreases n,
{
    if n < 10 {
        lemma_digit_char(n as int);
        assert(nat_digits(n).drop_last() =~= Seq::<char>::empty());
        assert(digits_value(Seq::<char>::empty()) == 0);
    } else {
        lemma_nat_digits(n / 10);
        lemma_digit_char((n % 10) as int);
        let s = nat_digits(n);
        assert(s.drop_last() =~= nat_digits(n / 10));
        assert(s.last() == digit_char((n % 10) as int));
        assert((n / 10) * 10 + n % 10 == n);
        assert forall|i: int| 0 <= i < s.len() implies is_digit(#[trigger] s[i]) by {
            if i < s.len() - 1 {
                assert(s[i] == nat_digits(n / 10)[i]);
            }
        }
    }
}

/// Reading back the text of a count of tenths gives that count, in hundredths.
pub proof fn lemma_text_number(t: int)
    ensures
        number_spec(gain_text(t)) == Some(t * 10),
{
    let q = abs(t) / 10;
    let d = (abs(t) % 10) as int;
    let ds = nat_digits(q);
    let tail = seq!['.', digit_char(d)];
    let r = ds + tail;
    let s = gain_text(t);
    lemma_nat_digits(q);
    lemma_digit_char(d);
    if t < 0 {
        assert(s[0] == '-');
        assert(s.drop_first() =~= r);
    } else {
        assert(s =~= r);
        assert(is_digit(ds[0]));
        assert(s[0] == ds[0]);
    }
    assert forall|j: int| 0 <= j < ds.len() implies is_digit(#[trigger] r[j]) by {
        assert(r[j] == ds[j]);
    }
    assert(r[ds.len() as int] == '.');
    lemma_leading_digits(r, ds.len());
    assert(r.take(ds.len() as int) =~= ds);
    assert(r.skip(ds.len() as int) =~= tail);
    let frac = tail.drop_first();
    assert(frac =~= seq![digit_char(d)]);
    assert(all_digits(frac));
    assert(frac_hundredths(frac) == d * 10);
    assert(q * 100 + d * 10 == abs(t) * 10);
}

/// Formatting a gain in range and reading the text back gives the gain
/// rounded to tenths.
pub proof fn lemma_format_parse_round_trip(g: Gain)
    requires
        in_range(g),
    ensures
        gain_of_number(gain_text(round_tenths(g.hundredths as int))) == Ok::<Gain, GainError>(
            Gain { hundredths: (round_tenths(g.hundredths as int) * 10) as i64 },
        ),
{
    lemma_text_number(round_tenths(g.hundredths as int));
}

/// Two gains differ materially exactly when their texts differ.
pub proof fn lemma_differs_iff_text_differs(a: Gain, b: Gain)
    ensures
        differs_spec(a, b) == (gain_text(round_tenths(a.hundredths as int)) != gain_text(
            round_tenths(b.hundredths as int),
        )),
{
    lemma_text_number(round_tenths(a.hundredths as int));
    lemma_text_number(round_tenths(b.hundredths as int));
}

} // verus!
