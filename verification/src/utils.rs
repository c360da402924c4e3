//! Small helpers on sizes and text: a byte count as people read it, a size
//! threshold as people write it, a URL turned into a file name, and text
//! shortened for a listing.

use vstd::prelude::*;
use vstd::string::*;

use crate::error::{BallError, ErrorView};
use crate::text::{chars_of, concat, concat3, sub_string, eq_str, decimal, decimal_string, is_alphanumeric, spec_is_alphanumeric, string_of, trim};

verus! {

pub open spec fn kib() -> nat {
    1024
}

pub open spec fn mib() -> nat {
    1024 * 1024
}

pub open spec fn gib() -> nat {
    1024 * 1024 * 1024
}

/// `n` in `unit`s with one decimal (cut, not rounded), then the unit's name.
pub open spec fn in_unit(n: nat, unit: nat, name: Seq<char>) -> Seq<char> {
    decimal(n / unit) + "."@ + decimal(((n % unit) * 10) / unit) + " "@ + name
}

/// A byte count as people read it: bytes below a kilobyte, else KB, MB or GB
/// (powers of 1024) with one decimal.
pub open spec fn spec_format_size(n: nat) -> Seq<char> {
    if n < kib() {
        decimal(n) + " bytes"@
    } else if n < mib() {
        in_unit(n, kib(), "KB"@)
    } else if n < gib() {
        in_unit(n, mib(), "MB"@)
    } else {
        in_unit(n, gib(), "GB"@)
    }
}

fn in_unit_exec(n: u64, unit: u64, name: &str) -> (r: String)
    requires
        1024 <= unit <= 1024 * 1024 * 1024,
    ensures
        r@ == in_unit(n as nat, unit as nat, name@),
{
    let whole = n / unit;
    let rem = n % unit;
    let tenths = (rem * 10) / unit;
    let mut r = decimal_string(whole);
    r.append(".");
    r.append(decimal_string(tenths).as_str());
    r.append(" ");
    r.append(name);
    r
}

/// A byte count as people read it.
pub fn format_size(n: u64) -> (r: String)
    ensures
        r@ == spec_format_size(n as nat),
{
    if n < 1024 {
        let mut r = decimal_string(n);
        r.append(" bytes");
        r
    } else if n < 1024 * 1024 {
        in_unit_exec(n, 1024, "KB")
    } else if n < 1024 * 1024 * 1024 {
        in_unit_exec(n, 1024 * 1024, "MB")
    } else {
        in_unit_exec(n, 1024 * 1024 * 1024, "GB")
    }
}

/// The multiplier a size unit names (case aside): bytes, kilobytes,
/// megabytes or gigabytes (powers of 1024).
pub open spec fn unit_factor(u: Seq<char>) -> Option<nat> {
    if u.len() == 0 || u == "b"@ || u == "B"@ {
        Some(1)
    } else if u == "k"@ || u == "K"@ || u == "kb"@ || u == "KB"@ || u == "Kb"@ || u == "kB"@ {
        Some(kib())
    } else if u == "m"@ || u == "M"@ || u == "mb"@ || u == "MB"@ || u == "Mb"@ || u == "mB"@ {
        Some(mib())
    } else if u == "g"@ || u == "G"@ || u == "gb"@ || u == "GB"@ || u == "Gb"@ || u == "gB"@ {
        Some(gib())
    } else {
        None
    }
}

pub open spec fn is_digit(c: char) -> bool {
    '0' <= c && c <= '9'
}

/// How many leading characters are digits.
pub open spec fn digits_len(s: Seq<char>) -> nat
    decreases s.len(),
{
    if s.len() > 0 && is_digit(s[0]) {
        1 + digits_len(s.subrange(1, s.len() as int))
    } else {
        0
    }
}

pub open spec fn digit_val(c: char) -> nat {
    if is_digit(c) {
        (c as int - '0' as int) as nat
    } else {
        0
    }
}

/// The number the digits spell.
pub open spec fn digits_value(s: Seq<char>) -> nat
    decreases s.len(),
{
    if s.len() == 0 {
        0
    } else {
        digits_value(s.drop_last()) * 10 + digit_val(s.last())
    }
}

/// A size threshold as people write it: a number of bytes, optionally
/// followed by a unit (`B`, `KB`, `MB`, `GB`, or their first letter, any
/// case), blanks around allowed.
pub open spec fn spec_parse_size(raw: Seq<char>) -> Option<nat> {
    let t = trim(raw);
    let k = digits_len(t);
    if k == 0 {
        None
    } else {
        match unit_factor(trim(t.subrange(k as int, t.len() as int))) {
            Some(f) => Some(digits_value(t.subrange(0, k as int)) * f),
            None => None,
        }
    }
}

pub proof fn lemma_digits_len_bound(s: Seq<char>)
    ensures
        digits_len(s) <= s.len(),
        forall|i: int| 0 <= i < digits_len(s) ==> is_digit(#[trigger] s[i]),
    decreases s.len(),
{
    if s.len() > 0 && is_digit(s[0]) {
        let t = s.subrange(1, s.len() as int);
        lemma_digits_len_bound(t);
        assert forall|i: int| 0 <= i < digits_len(s) implies is_digit(#[trigger] s[i]) by {
            if i > 0 {
                assert(s[i] == t[i - 1]);
            }
        }
    }
}

fn unit_factor_exec(u: &[char]) -> (r: Option<u64>)
    ensures
        match r {
            Some(f) => unit_factor(u@) == Some(f as nat),
            None => unit_factor(u@) is None,
        },
{
    if u.len() == 0 || eq_str(u, "b") || eq_str(u, "B") {
        Some(1)
    } else if eq_str(u, "k") || eq_str(u, "K") || eq_str(u, "kb") || eq_str(u, "KB") || eq_str(u, "Kb") || eq_str(
        u,
        "kB",
    ) {
        Some(1024)
    } else if eq_str(u, "m") || eq_str(u, "M") || eq_str(u, "mb") || eq_str(u, "MB") || eq_str(u, "Mb") || eq_str(
        u,
        "mB",
    ) {
        Some(1024 * 1024)
    } else if eq_str(u, "g") || eq_str(u, "G") || eq_str(u, "gb") || eq_str(u, "GB") || eq_str(u, "Gb") || eq_str(
        u,
        "gB",
    ) {
        Some(1024 * 1024 * 1024)
    } else {
        None
    }
}

/// A size threshold as people write it; what does not read as one, or does
/// not fit in 64 bits, is refused.
pub fn parse_size(raw: &str) -> (r: Result<u64, BallError>)
    ensures
        match r {
            Ok(n) => spec_parse_size(raw@) == Some(n as nat),
            Err(e) => e@ == ErrorView::InvalidConfig("invalid size '"@ + raw@ + "': expected a number of bytes, optionally followed by KB, MB or GB"@) && (spec_parse_size(raw@) is None || spec_parse_size(raw@)->Some_0 > u64::MAX),
        },
{
    let v = chars_of(raw);
    let t = crate::text::trimmed(v.as_slice());
    let mut k: usize = 0;
    let mut value: u64 = 0;
    let mut overflow = false;
    proof {
        assert(t@.subrange(0, 0) =~= Seq::<char>::empty());
        assert(t@.subrange(0, t@.len() as int) =~= t@);
    }
    while k < t.len() && '0' <= t[k] && t[k] <= '9'
        invariant
            k <= t@.len(),
            digits_len(t@) == k + digits_len(t@.subrange(k as int, t@.len() as int)),
            !overflow ==> value as nat == digits_value(t@.subrange(0, k as int)),
            overflow ==> digits_value(t@.subrange(0, k as int)) > u64::MAX,
        decreases t@.len() - k,
    {
        let d = (t[k] as u32 - '0' as u32) as u64;
        proof {
            let s = t@.subrange(k as int, t@.len() as int);
            assert(s.subrange(1, s.len() as int) =~= t@.subrange(k + 1, t@.len() as int));
            assert(s[0] == t@[k as int]);
            assert(t@.subrange(0, k + 1).drop_last() =~= t@.subrange(0, k as int));
            assert(t@.subrange(0, k + 1).last() == t@[k as int]);
        }
        if !overflow {
            if value > (u64::MAX - d) / 10 {
                overflow = true;
                proof {
                    assert(digits_value(t@.subrange(0, k + 1)) == value * 10 + d);
                    assert(value * 10 + d > u64::MAX) by (nonlinear_arith)
                        requires
                            value > (u64::MAX - d) / 10,
                            d < 10,
                    ;
                }
            } else {
                proof {
                    assert(value * 10 + d <= u64::MAX) by (nonlinear_arith)
                        requires
                            value <= (u64::MAX - d) / 10,
                            d < 10,
                    ;
                }
                value = value * 10 + d;
            }
        } else {
            proof {
                let p = digits_value(t@.subrange(0, k as int));
                assert(digits_value(t@.subrange(0, k + 1)) == p * 10 + d);
                assert(p * 10 + d > u64::MAX) by (nonlinear_arith)
                    requires
                        p > u64::MAX,
                        d < 10,
                ;
            }
        }
        k = k + 1;
    }
    proof {
        let s = t@.subrange(k as int, t@.len() as int);
        if k < t@.len() {
            assert(s[0] == t@[k as int]);
        }
        assert(digits_len(s) == 0);
    }
    let err = BallError::InvalidConfig(
        concat3(
            "invalid size '",
            raw,
            "': expected a number of bytes, optionally followed by KB, MB or GB",
        ),
    );
    if k == 0 {
        return Err(err);
    }
    let unit = crate::text::trimmed(crate::text::sub_vec(t.as_slice(), k, t.len()).as_slice());
    match unit_factor_exec(unit.as_slice()) {
        None => Err(err),
        Some(f) => {
            if overflow {
                proof {
                    assert(digits_value(t@.subrange(0, k as int)) * f >= digits_value(t@.subrange(0, k as int)))
                        by (nonlinear_arith)
                        requires
                            f >= 1,
                    ;
                }
                Err(err)
            } else if value > u64::MAX / f {
                proof {
                    assert(value * f > u64::MAX) by (nonlinear_arith)
                        requires
                            value > u64::MAX / f,
                            f >= 1,
                    ;
                }
                Err(err)
            } else {
                proof {
                    assert(value * f <= u64::MAX) by (nonlinear_arith)
                        requires
                            value <= u64::MAX / f,
                            f >= 1,
                    ;
                }
                Ok(value * f)
            }
        },
    }
}

/// A character kept in a file name: letters, digits, `.`, `-` and `_`.
pub open spec fn keeps(c: char) -> bool {
    spec_is_alphanumeric(c) || c == '.' || c == '-' || c == '_'
}

/// A text made safe as a file name: every other character becomes `_`.
pub open spec fn spec_sanitize_filename(s: Seq<char>) -> Seq<char> {
    Seq::new(s.len(), |i: int| if keeps(s[i]) { s[i] } else { '_' })
}

pub fn sanitize_filename(s: &str) -> (r: String)
    ensures
        r@ == spec_sanitize_filename(s@),
{
    let v = chars_of(s);
    let mut out: Vec<char> = Vec::new();
    let mut i: usize = 0;
    while i < v.len()
        invariant
            i <= v@.len(),
            v@ == s@,
            out@ =~= spec_sanitize_filename(s@).subrange(0, i as int),
        decreases v@.len() - i,
    {
        let c = v[i];
        if is_alphanumeric(c) || c == '.' || c == '-' || c == '_' {
            out.push(c);
        } else {
            out.push('_');
        }
        i = i + 1;
    }
    proof {
        assert(spec_sanitize_filename(s@).subrange(0, v@.len() as int) =~= spec_sanitize_filename(s@));
    }
    string_of(out.as_slice())
}

/// Text shortened to at most `max` characters for a listing: longer text
/// keeps its first `max - 3` characters and ends in `...`.
pub open spec fn spec_truncate(s: Seq<char>, max: nat) -> Seq<char> {
    if s.len() <= max {
        s
    } else {
        s.subrange(0, max - 3) + "..."@
    }
}

pub fn truncate_str(s: &str, max: usize) -> (r: String)
    requires
        max >= 3,
    ensures
        r@ == spec_truncate(s@, max as nat),
{
    let v = chars_of(s);
    if v.len() <= max {
        String::from_str(s)
    } else {
        let head = sub_string(v.as_slice(), 0, max - 3);
        concat(head.as_str(), "...")
    }
}

} // verus!
