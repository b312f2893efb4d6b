//! Configuration: a section-based key/value text with a required `star`
//! section and zero or more `spot*` sections. Numeric fields are parsed
//! by a verified fixed-point decimal reader; every missing, unparsable
//! or out-of-range field is collected, and the batch is reported
//! together before construction aborts.

use vstd::prelude::*;

verus! {

use crate::fx::FX_ONE;
use crate::profile::Profile;
use crate::profile::profile_vecs_ok;
use crate::region::Region;
use crate::region::SIZE_MAX;
use crate::region::LAT_MAX;
use crate::star::Star;
use crate::star::GRID_MAX;
use crate::star::LIMB_MAX;
use crate::star::TEMP_MAX;
use crate::star::PERIOD_MIN;
use crate::star::PERIOD_MAX;
use crate::star::RADIUS_MAX;
use crate::sim::Simulation;
use crate::sim::FILL_MAX;
use crate::sim::pairwise_ok;
use crate::sim::pair_ok;
use crate::sim::all_wf;

/// Whether rust-ini's `Ini::load_from_str` accepts the text. Parsing is
/// a function of the text alone.
pub uninterp spec fn ini_parses(text: Seq<char>) -> bool;

/// Whether the parsed text holds a section of the given name (bytes).
pub uninterp spec fn ini_section_present(text: Seq<char>, section: Seq<u8>) -> bool;

/// The first value of `key` in the named section of the parsed text, as
/// bytes, or nothing where the section or the key is absent.
pub uninterp spec fn ini_field(text: Seq<char>, section: Seq<u8>, key: Seq<char>) -> Option<
    Seq<u8>,
>;

/// The named sections of the parsed text, in file order, as bytes; empty
/// where the text does not parse.
pub uninterp spec fn ini_names(text: Seq<char>) -> Seq<Seq<u8>>;

/// Relies on rust-ini's `Ini::load_from_str`: it returns `Err` on
/// malformed text and never panics.
#[verifier::external_body]
fn ini_parses_exec(text: &str) -> (r: bool)
    ensures
        r == ini_parses(text@),
{
    ini::Ini::load_from_str(text).is_ok()
}

/// Relies on rust-ini's `Ini::load_from_str` and `Ini::section`: whether
/// the parsed text has the named section.
#[verifier::external_body]
fn ini_section_present_exec(text: &str, section: &Vec<u8>) -> (r: bool)
    ensures
        r == ini_section_present(text@, section@),
{
    match ini::Ini::load_from_str(text) {
        Ok(f) => f.section(Some(String::from_utf8_lossy(section).into_owned())).is_some(),
        Err(_) => false,
    }
}

/// Relies on rust-ini's `Ini::load_from_str`, `Ini::section` and
/// `Properties::get`: the first value of `key` in the named section.
#[verifier::external_body]
fn ini_field_exec(text: &str, section: &Vec<u8>, key: &str) -> (r: Option<Vec<u8>>)
    ensures
        (r is Some) <==> (ini_field(text@, section@, key@) is Some),
        r is Some ==> r->0@ == ini_field(text@, section@, key@)->0,
{
    let f = ini::Ini::load_from_str(text).ok()?;
    let sec = f.section(Some(String::from_utf8_lossy(section).into_owned()))?;
    let v = sec.get(key)?;
    Some(v.as_bytes().to_vec())
}

/// Relies on rust-ini's `Ini::load_from_str` and `Ini::sections`: the
/// named sections of the parsed text, in file order, as bytes.
#[verifier::external_body]
fn ini_names_exec(text: &str) -> (r: Vec<Vec<u8>>)
    ensures
        r@.len() == ini_names(text@).len(),
        forall|i: int| 0 <= i < r@.len() ==> #[trigger] r@[i]@ == ini_names(text@)[i],
{
    match ini::Ini::load_from_str(text) {
        Ok(f) => f.sections().filter_map(|s| s.map(|n| n.as_bytes().to_vec())).collect(),
        Err(_) => Vec::new(),
    }
}

/// Relies on std's `String::from_utf8_lossy`: the bytes back as text,
/// for a section name quoted in an error.
#[verifier::external_body]
fn bytes_to_string(b: &Vec<u8>) -> (r: String)
{
    String::from_utf8_lossy(b).into_owned()
}

#[derive(Debug)]
pub enum ConfigErrorKind {
    /// The section or field is absent.
    Missing,
    /// The value is not a decimal of the accepted shape.
    Unparsable,
    /// The value lies outside the accepted range, or two statically
    /// configured regions overlap.
    OutOfRange,
}

/// One problem found in a configuration; problems are collected and
/// reported together.
#[derive(Debug)]
pub struct ConfigError {
    pub section: String,
    pub field: String,
    pub kind: ConfigErrorKind,
}

pub open spec fn is_digit(b: u8) -> bool {
    48 <= b <= 57
}

pub open spec fn all_digits(s: Seq<u8>) -> bool {
    forall|i: int| 0 <= i < s.len() ==> is_digit(#[trigger] s[i])
}

/// The number written by a sequence of decimal digits.
pub open spec fn digits_val(s: Seq<u8>) -> int
    decreases s.len(),
{
    if s.len() == 0 {
        0
    } else {
        digits_val(s.drop_last()) * 10 + (s.last() - 48)
    }
}

/// Index of the first occurrence of `c`, or the length.
pub open spec fn find_byte(s: Seq<u8>, c: u8) -> int
    decreases s.len(),
{
    if s.len() == 0 {
        0
    } else if s[0] == c {
        0
    } else {
        1 + find_byte(s.subrange(1, s.len() as int), c)
    }
}

pub open spec fn pow10(k: int) -> int
    decreases k,
{
    if k <= 0 {
        1
    } else {
        10 * pow10(k - 1)
    }
}

/// The fixed-point value written by a decimal numeral: an optional
/// minus, up to twelve integer digits, and optionally a dot and up to
/// six fraction digits; anything else is rejected.
pub open spec fn parse_fx_spec(b: Seq<u8>) -> Option<int> {
    let neg = b.len() > 0 && b[0] == 45u8;
    let body = if neg {
        b.subrange(1, b.len() as int)
    } else {
        b
    };
    let d = find_byte(body, 46u8);
    let ip = body.subrange(0, d);
    let fp = if d < body.len() {
        body.subrange(d + 1, body.len() as int)
    } else {
        Seq::<u8>::empty()
    };
    if ip.len() == 0 && fp.len() == 0 {
        None
    } else if !all_digits(ip) || !all_digits(fp) {
        None
    } else if ip.len() > 12 || fp.len() > 6 {
        None
    } else {
        let v = digits_val(ip) * 1_000_000 + digits_val(fp) * pow10(6 - fp.len());
        if neg {
            Some(-v)
        } else {
            Some(v)
        }
    }
}

proof fn lemma_find_byte_first(s: Seq<u8>, c: u8)
    ensures
        0 <= find_byte(s, c) <= s.len(),
        forall|k: int| 0 <= k < find_byte(s, c) ==> s[k] != c,
        find_byte(s, c) < s.len() ==> s[find_byte(s, c)] == c,
    decreases s.len(),
{
    if s.len() > 0 && s[0] != c {
        lemma_find_byte_first(s.subrange(1, s.len() as int), c);
        assert forall|k: int| 0 <= k < find_byte(s, c) implies s[k] != c by {
            if k > 0 {
                assert(s.subrange(1, s.len() as int)[k - 1] == s[k]);
            }
        }
    }
}

proof fn lemma_digits_take(s: Seq<u8>, i: int)
    requires
        0 <= i < s.len(),
    ensures
        digits_val(s.subrange(0, i + 1)) == digits_val(s.subrange(0, i)) * 10 + (s[i] - 48),
{
    assert(s.subrange(0, i + 1).drop_last() =~= s.subrange(0, i));
    assert(s.subrange(0, i + 1).last() == s[i]);
}

proof fn lemma_pow10_vals()
    ensures
        pow10(0) == 1,
        pow10(1) == 10,
        pow10(2) == 100,
        pow10(3) == 1_000,
        pow10(4) == 10_000,
        pow10(5) == 100_000,
        pow10(6) == 1_000_000,
        pow10(7) == 10_000_000,
        pow10(8) == 100_000_000,
        pow10(9) == 1_000_000_000,
        pow10(10) == 10_000_000_000,
        pow10(11) == 100_000_000_000,
        pow10(12) == 1_000_000_000_000,
{
    assert(pow10(0) == 1);
    assert(pow10(1) == 10);
    assert(pow10(2) == 100);
    assert(pow10(3) == 1_000);
    assert(pow10(4) == 10_000);
    assert(pow10(5) == 100_000);
    assert(pow10(6) == 1_000_000);
    assert(pow10(7) == 10_000_000);
    assert(pow10(8) == 100_000_000);
    assert(pow10(9) == 1_000_000_000);
    assert(pow10(10) == 10_000_000_000);
    assert(pow10(11) == 100_000_000_000);
    assert(pow10(12) == 1_000_000_000_000);
}

proof fn lemma_digits_bound(s: Seq<u8>)
    requires
        all_digits(s),
        s.len() <= 12,
    ensures
        0 <= digits_val(s) < pow10(s.len() as int),
        pow10(s.len() as int) <= 1_000_000_000_000,
    decreases s.len(),
{
    lemma_pow10_vals();
    if s.len() == 0 {
    } else {
        assert(all_digits(s.drop_last()));
        lemma_digits_bound(s.drop_last());
        assert(is_digit(s.last()));
        assert(pow10(s.len() as int) == 10 * pow10(s.len() - 1));
    }
}

/// Parse a fixed-point decimal; `None` exactly where the grammar or the
/// size bound is violated.
pub fn parse_fx(b: &[u8]) -> (r: Option<i64>)
    ensures
        r is Some ==> parse_fx_spec(b@) == Some(r->0 as int),
        r is None ==> parse_fx_spec(b@) is None,
{
    let n = b.len();
    let neg = n > 0 && b[0] == 45u8;
    let start: usize = if neg {
        1
    } else {
        0
    };
    let mut body: Vec<u8> = Vec::new();
    let mut i: usize = start;
    while i < n
        invariant
            n == b@.len(),
            start <= i <= n,
            body@ =~= b@.subrange(start as int, i as int),
        decreases n - i,
    {
        body.push(b[i]);
        i += 1;
    }
    proof {
        assert(body@ =~= b@.subrange(start as int, n as int));
        if !neg {
            assert(b@.subrange(0, n as int) =~= b@);
        }
        assert(body@ =~= (if neg {
            b@.subrange(1, b@.len() as int)
        } else {
            b@
        }));
    }
    let m = body.len();
    // Find the first dot.
    let mut dot: usize = m;
    let mut k: usize = 0;
    while k < m
        invariant
            m == body@.len(),
            k <= m,
            dot == m || (dot < k && body@[dot as int] == 46 && forall|q: int|
                0 <= q < dot ==> body@[q] != 46),
            dot == m ==> forall|q: int| 0 <= q < k ==> body@[q] != 46,
        decreases m - k,
    {
        if body[k] == 46u8 && dot == m {
            dot = k;
        }
        k += 1;
    }
    proof {
        lemma_find_byte_first(body@, 46u8);
        let f = find_byte(body@, 46u8);
        if dot < m {
            if f < dot {
                assert(body@[f] == 46);
            }
            if f > dot {
                assert(body@[dot as int] != 46);
            }
        } else {
            if f < m {
                assert(body@[f] == 46);
            }
        }
        assert(f == dot);
    }
    let ghost ipg: Seq<u8> = body@.subrange(0, dot as int);
    let ghost fpg: Seq<u8> = if dot < m {
        body@.subrange(dot as int + 1, m as int)
    } else {
        Seq::<u8>::empty()
    };
    let ip_len: usize = dot;
    let fp_len: usize = if dot < m {
        m - dot - 1
    } else {
        0
    };
    if ip_len == 0 && fp_len == 0 {
        return None;
    }
    if ip_len > 12 || fp_len > 6 {
        return None;
    }
    // Integer part.
    let mut iv: i64 = 0;
    let mut k: usize = 0;
    proof {
        assert(ipg.subrange(0, 0) =~= Seq::<u8>::empty());
    }
    while k < ip_len
        invariant
            n == b@.len(),
            neg == (b@.len() > 0 && b@[0] == 45u8),
            m == body@.len(),
            body@ == (if neg {
                b@.subrange(1, b@.len() as int)
            } else {
                b@
            }),
            find_byte(body@, 46u8) == dot as int,
            ip_len == dot <= m,
            ip_len <= 12,
            fp_len <= 6,
            fp_len == (if dot < m {
                m - dot - 1
            } else {
                0
            }),
            fpg == (if dot < m {
                body@.subrange(dot as int + 1, m as int)
            } else {
                Seq::<u8>::empty()
            }),
            k <= ip_len,
            ipg == body@.subrange(0, dot as int),
            forall|q: int| 0 <= q < k ==> is_digit(#[trigger] ipg[q]),
            iv == digits_val(ipg.subrange(0, k as int)),
            0 <= iv < 1_000_000_000_000,
        decreases ip_len - k,
    {
        let c = body[k];
        proof {
            assert(ipg[k as int] == body@[k as int]);
        }
        if !(48 <= c && c <= 57) {
            proof {
                assert(!is_digit(ipg[k as int]));
                assert(!all_digits(ipg));
            }
            return None;
        }
        proof {
            lemma_digits_take(ipg, k as int);
            assert(all_digits(ipg.subrange(0, k as int + 1)));
            lemma_digits_bound(ipg.subrange(0, k as int + 1));
        }
        iv = iv * 10 + ((c - 48) as i64);
        k += 1;
    }
    proof {
        assert(ipg.subrange(0, ip_len as int) =~= ipg);
        assert(all_digits(ipg));
    }
    // Fraction part.
    let mut fv: i64 = 0;
    let mut k: usize = 0;
    proof {
        assert(fpg.subrange(0, 0) =~= Seq::<u8>::empty());
    }
    while k < fp_len
        invariant
            n == b@.len(),
            neg == (b@.len() > 0 && b@[0] == 45u8),
            m == body@.len(),
            body@ == (if neg {
                b@.subrange(1, b@.len() as int)
            } else {
                b@
            }),
            find_byte(body@, 46u8) == dot as int,
            ipg == body@.subrange(0, dot as int),
            all_digits(ipg),
            ip_len == dot <= m,
            ip_len <= 12,
            dot < m || fp_len == 0,
            fp_len <= 6,
            fp_len == (if dot < m {
                m - dot - 1
            } else {
                0
            }),
            k <= fp_len,
            fpg == (if dot < m {
                body@.subrange(dot as int + 1, m as int)
            } else {
                Seq::<u8>::empty()
            }),
            forall|q: int| 0 <= q < k ==> is_digit(#[trigger] fpg[q]),
            fv == digits_val(fpg.subrange(0, k as int)),
            0 <= fv < 1_000_000,
        decreases fp_len - k,
    {
        let c = body[dot + 1 + k];
        proof {
            lemma_pow10_vals();
            assert(fpg[k as int] == body@[dot + 1 + k]);
        }
        if !(48 <= c && c <= 57) {
            proof {
                assert(!is_digit(fpg[k as int]));
                assert(!all_digits(fpg));
            }
            return None;
        }
        proof {
            lemma_digits_take(fpg, k as int);
            assert(all_digits(fpg.subrange(0, k as int + 1)));
            lemma_digits_bound(fpg.subrange(0, k as int + 1));
        }
        fv = fv * 10 + ((c - 48) as i64);
        k += 1;
    }
    proof {
        assert(fpg.subrange(0, fp_len as int) =~= fpg);
        assert(all_digits(fpg));
    }
    // Scale the fraction to six places.
    proof {
        assert(pow10(0) == 1);
        assert(pow10(1) == 10);
        assert(pow10(2) == 100);
        assert(pow10(3) == 1_000);
        assert(pow10(4) == 10_000);
        assert(pow10(5) == 100_000);
        assert(pow10(6) == 1_000_000);
    }
    let scale: i64 = if fp_len == 0 {
        1_000_000
    } else if fp_len == 1 {
        100_000
    } else if fp_len == 2 {
        10_000
    } else if fp_len == 3 {
        1_000
    } else if fp_len == 4 {
        100
    } else if fp_len == 5 {
        10
    } else {
        1
    };
    proof {
        vstd::arithmetic::mul::lemma_mul_upper_bound(fv as int, 1_000_000, scale as int, 1_000_000);
        vstd::arithmetic::mul::lemma_mul_nonnegative(fv as int, scale as int);
    }
    let v: i64 = iv * 1_000_000 + fv * scale;
    if neg {
        Some(-v)
    } else {
        Some(v)
    }
}


fn push_err(errors: &mut Vec<ConfigError>, section: &str, field: &str, kind: ConfigErrorKind)
    ensures
        final(errors)@.len() == old(errors)@.len() + 1,
        forall|i: int|
            0 <= i < old(errors)@.len() ==> #[trigger] final(errors)@[i] == old(errors)@[i],
{
    errors.push(ConfigError { section: section.to_owned(), field: field.to_owned(), kind });
}

/// The `star` section's name, as bytes.
pub open spec fn star_section() -> Seq<u8> {
    seq![115u8, 116u8, 97u8, 114u8]
}

fn star_section_vec() -> (r: Vec<u8>)
    ensures
        r@ == star_section(),
{
    let mut v: Vec<u8> = Vec::new();
    v.push(115);
    v.push(116);
    v.push(97);
    v.push(114);
    proof {
        assert(v@ =~= star_section());
    }
    v
}

/// The field is present, parses, and lies within `[lo, hi]`.
pub open spec fn fx_field_ok(
    text: Seq<char>,
    section: Seq<u8>,
    key: Seq<char>,
    lo: int,
    hi: int,
) -> bool {
    match ini_field(text, section, key) {
        Some(v) => match parse_fx_spec(v) {
            Some(x) => lo <= x <= hi,
            None => false,
        },
        None => false,
    }
}

/// The parsed value of an accepted field; the lower bound stands in for
/// a rejected one.
pub open spec fn fx_field_val(
    text: Seq<char>,
    section: Seq<u8>,
    key: Seq<char>,
    lo: int,
    hi: int,
) -> int {
    if fx_field_ok(text, section, key, lo, hi) {
        parse_fx_spec(ini_field(text, section, key)->0)->0
    } else {
        lo
    }
}

/// The field is an accepted whole number of `[lo, hi]`.
pub open spec fn count_field_ok(
    text: Seq<char>,
    section: Seq<u8>,
    key: Seq<char>,
    lo: int,
    hi: int,
) -> bool {
    fx_field_ok(text, section, key, lo * 1_000_000, hi * 1_000_000) && fx_field_val(
        text,
        section,
        key,
        lo * 1_000_000,
        hi * 1_000_000,
    ) % 1_000_000 == 0
}

pub open spec fn count_field_val(
    text: Seq<char>,
    section: Seq<u8>,
    key: Seq<char>,
    lo: int,
    hi: int,
) -> int {
    if count_field_ok(text, section, key, lo, hi) {
        fx_field_val(text, section, key, lo * 1_000_000, hi * 1_000_000) / 1_000_000
    } else {
        lo
    }
}

/// The value written by a boolean field: the bytes `true` or `false`.
pub open spec fn parse_bool_spec(v: Seq<u8>) -> Option<bool> {
    if v == seq![116u8, 114u8, 117u8, 101u8] {
        Some(true)
    } else if v == seq![102u8, 97u8, 108u8, 115u8, 101u8] {
        Some(false)
    } else {
        None
    }
}

pub open spec fn bool_field_ok(text: Seq<char>, section: Seq<u8>, key: Seq<char>) -> bool {
    match ini_field(text, section, key) {
        Some(v) => parse_bool_spec(v) is Some,
        None => false,
    }
}

pub open spec fn bool_field_val(text: Seq<char>, section: Seq<u8>, key: Seq<char>) -> bool {
    if bool_field_ok(text, section, key) {
        parse_bool_spec(ini_field(text, section, key)->0)->0
    } else {
        false
    }
}

/// Read one fixed-point field; on a missing, unparsable or out-of-range
/// value exactly one error is recorded and the lower bound stands in.
fn get_fx(
    text: &str,
    section: &Vec<u8>,
    section_name: &str,
    key: &str,
    lo: i64,
    hi: i64,
    errors: &mut Vec<ConfigError>,
) -> (r: i64)
    requires
        lo <= hi,
    ensures
        r == fx_field_val(text@, section@, key@, lo as int, hi as int),
        lo <= r <= hi,
        final(errors)@.len() == old(errors)@.len() + (if fx_field_ok(
            text@,
            section@,
            key@,
            lo as int,
            hi as int,
        ) {
            0int
        } else {
            1int
        }),
        forall|i: int|
            0 <= i < old(errors)@.len() ==> #[trigger] final(errors)@[i] == old(errors)@[i],
{
    match ini_field_exec(text, section, key) {
        None => {
            push_err(errors, section_name, key, ConfigErrorKind::Missing);
            lo
        },
        Some(v) => match parse_fx(v.as_slice()) {
            None => {
                push_err(errors, section_name, key, ConfigErrorKind::Unparsable);
                lo
            },
            Some(x) => {
                if lo <= x && x <= hi {
                    x
                } else {
                    push_err(errors, section_name, key, ConfigErrorKind::OutOfRange);
                    lo
                }
            },
        },
    }
}

/// Read a whole-number field such as the grid resolution.
fn get_count(
    text: &str,
    section: &Vec<u8>,
    section_name: &str,
    key: &str,
    lo: usize,
    hi: usize,
    errors: &mut Vec<ConfigError>,
) -> (r: usize)
    requires
        lo <= hi,
        hi <= 1_000_000,
    ensures
        r == count_field_val(text@, section@, key@, lo as int, hi as int),
        lo <= r <= hi,
        final(errors)@.len() == old(errors)@.len() + (if count_field_ok(
            text@,
            section@,
            key@,
            lo as int,
            hi as int,
        ) {
            0int
        } else {
            1int
        }),
        forall|i: int|
            0 <= i < old(errors)@.len() ==> #[trigger] final(errors)@[i] == old(errors)@[i],
{
    let x = get_fx(
        text,
        section,
        section_name,
        key,
        lo as i64 * 1_000_000,
        hi as i64 * 1_000_000,
        errors,
    );
    if (x as u64) % 1_000_000 == 0 {
        ((x as u64) / 1_000_000) as usize
    } else {
        push_err(errors, section_name, key, ConfigErrorKind::Unparsable);
        lo
    }
}

/// Read a boolean field written `true` or `false`.
fn get_bool(
    text: &str,
    section: &Vec<u8>,
    section_name: &str,
    key: &str,
    errors: &mut Vec<ConfigError>,
) -> (r: bool)
    ensures
        r == bool_field_val(text@, section@, key@),
        final(errors)@.len() == old(errors)@.len() + (if bool_field_ok(text@, section@, key@) {
            0int
        } else {
            1int
        }),
        forall|i: int|
            0 <= i < old(errors)@.len() ==> #[trigger] final(errors)@[i] == old(errors)@[i],
{
    match ini_field_exec(text, section, key) {
        None => {
            push_err(errors, section_name, key, ConfigErrorKind::Missing);
            false
        },
        Some(v) => {
            if v.len() == 4 && *v.get(0).unwrap() == 116 && *v.get(1).unwrap() == 114 && *v.get(
                2,
            ).unwrap() == 117 && *v.get(3).unwrap() == 101 {
                proof {
                    assert(v@ =~= seq![116u8, 114u8, 117u8, 101u8]);
                }
                true
            } else if v.len() == 5 && *v.get(0).unwrap() == 102 && *v.get(1).unwrap() == 97
                && *v.get(2).unwrap() == 108 && *v.get(3).unwrap() == 115 && *v.get(4).unwrap()
                == 101 {
                proof {
                    assert(v@ =~= seq![102u8, 97u8, 108u8, 115u8, 101u8]);
                }
                false
            } else {
                proof {
                    assert(v@ != seq![116u8, 114u8, 117u8, 101u8]);
                    assert(v@ != seq![102u8, 97u8, 108u8, 115u8, 101u8]);
                }
                push_err(errors, section_name, key, ConfigErrorKind::Unparsable);
                false
            }
        },
    }
}

/// A section name that opens a statically configured region.
pub open spec fn is_spot_name_spec(n: Seq<u8>) -> bool {
    n.len() >= 4 && n[0] == 115 && n[1] == 112 && n[2] == 111 && n[3] == 116
}

fn is_spot_name(name: &Vec<u8>) -> (r: bool)
    ensures
        r == is_spot_name_spec(name@),
{
    name.len() >= 4 && *name.get(0).unwrap() == 115 && *name.get(1).unwrap() == 112 && *name.get(
        2,
    ).unwrap() == 111 && *name.get(3).unwrap() == 116
}

/// The section names that open regions, in file order.
pub open spec fn spot_names(names: Seq<Seq<u8>>) -> Seq<Seq<u8>>
    decreases names.len(),
{
    if names.len() == 0 {
        Seq::empty()
    } else {
        let rest = spot_names(names.drop_last());
        if is_spot_name_spec(names.last()) {
            rest.push(names.last())
        } else {
            rest
        }
    }
}

proof fn lemma_spot_names_take(names: Seq<Seq<u8>>, i: int)
    requires
        0 <= i < names.len(),
    ensures
        spot_names(names.take(i + 1)) == if is_spot_name_spec(names[i]) {
            spot_names(names.take(i)).push(names[i])
        } else {
            spot_names(names.take(i))
        },
{
    assert(names.take(i + 1).drop_last() =~= names.take(i));
    assert(names.take(i + 1).last() == names[i]);
}

/// The whole-run region written by one `spot*` section; a rejected field
/// stands at its lower bound, and the error batch reports it.
pub open spec fn spot_region(text: Seq<char>, name: Seq<u8>) -> Region {
    Region {
        latitude: fx_field_val(text, name, "latitude"@, -LAT_MAX as int, LAT_MAX as int) as i64,
        longitude: fx_field_val(text, name, "longitude"@, 0, 359_999_999) as i64,
        size: fx_field_val(text, name, "size"@, 0, SIZE_MAX as int) as i64,
        plage: bool_field_val(text, name, "plage"@),
        time_appear: 0,
        time_disappear: crate::region::TIME_HORIZON,
        intensity: 0,
    }
}

/// Every field of one `spot*` section is accepted.
pub open spec fn spot_ok(text: Seq<char>, name: Seq<u8>) -> bool {
    &&& fx_field_ok(text, name, "latitude"@, -LAT_MAX as int, LAT_MAX as int)
    &&& fx_field_ok(text, name, "longitude"@, 0, 359_999_999)
    &&& fx_field_ok(text, name, "size"@, 0, SIZE_MAX as int)
    &&& bool_field_ok(text, name, "plage"@)
}

/// The statically configured regions, one per `spot*` section, in file
/// order, all alive over the whole run.
pub open spec fn static_regions(text: Seq<char>) -> Seq<Region> {
    Seq::new(
        spot_names(ini_names(text)).len(),
        |i: int| spot_region(text, spot_names(ini_names(text))[i]),
    )
}

/// Every field of the `star` section is accepted, and the region
/// temperature offset leaves the region temperature positive.
pub open spec fn star_ok(text: Seq<char>) -> bool {
    &&& fx_field_ok(text, star_section(), "radius"@, 1, RADIUS_MAX as int)
    &&& fx_field_ok(text, star_section(), "period"@, PERIOD_MIN as int, PERIOD_MAX as int)
    &&& fx_field_ok(text, star_section(), "inclination"@, 0, 359_999_999)
    &&& fx_field_ok(text, star_section(), "Tstar"@, 1, TEMP_MAX as int)
    &&& fx_field_ok(text, star_section(), "Tdiff_spot"@, 0, TEMP_MAX as int)
    &&& fx_field_ok(text, star_section(), "limb1"@, -LIMB_MAX as int, LIMB_MAX as int)
    &&& fx_field_ok(text, star_section(), "limb2"@, -LIMB_MAX as int, LIMB_MAX as int)
    &&& fx_field_ok(text, star_section(), "fillfactor"@, 0, FILL_MAX as int)
    &&& count_field_ok(text, star_section(), "grid_resolution"@, 1, GRID_MAX as int)
    &&& fx_field_val(text, star_section(), "Tdiff_spot"@, 0, TEMP_MAX as int) < fx_field_val(
        text,
        star_section(),
        "Tstar"@,
        1,
        TEMP_MAX as int,
    )
}

/// A configuration is accepted exactly when: the text parses, the `star`
/// section is present with every field accepted, every `spot*` section's
/// fields are accepted and the regions fit the collection, no two of
/// them collide, the reference profiles are well-formed and of one
/// length, and the integrated quiet flux is positive.
pub open spec fn config_ok(
    text: Seq<char>,
    rv: Seq<i64>,
    ccf_quiet: Seq<i64>,
    ccf_active: Seq<i64>,
) -> bool {
    &&& ini_parses(text)
    &&& ini_section_present(text, star_section())
    &&& star_ok(text)
    &&& spot_names(ini_names(text)).len() <= 1_000_000_000
    &&& (forall|k: int|
        0 <= k < spot_names(ini_names(text)).len() ==> spot_ok(
            text,
            #[trigger] spot_names(ini_names(text))[k],
        ))
    &&& pairwise_ok(static_regions(text))
    &&& profile_vecs_ok(rv, ccf_quiet)
    &&& profile_vecs_ok(rv, ccf_active)
    &&& ccf_quiet.len() == ccf_active.len()
    &&& crate::star::flux_rec(
        count_field_val(text, star_section(), "grid_resolution"@, 1, GRID_MAX as int),
        count_field_val(text, star_section(), "grid_resolution"@, 1, GRID_MAX as int),
        fx_field_val(text, star_section(), "limb1"@, -LIMB_MAX as int, LIMB_MAX as int),
        fx_field_val(text, star_section(), "limb2"@, -LIMB_MAX as int, LIMB_MAX as int),
    ) > 0
}

/// Build a simulator from configuration text and the two reference line
/// profiles (one velocity grid, a quiet and an active amplitude column).
/// Every problem in the text is collected and the whole batch of errors
/// returned together; construction succeeds exactly on a clean
/// configuration, and the returned simulator carries the parsed values:
/// the fill target and star parameters of the `star` section and one
/// whole-run region per `spot*` section, in file order.
#[verifier::rlimit(100)]
pub fn from_config(
    text: &str,
    rv: Vec<i64>,
    ccf_quiet: Vec<i64>,
    ccf_active: Vec<i64>,
) -> (r: Result<Simulation, Vec<ConfigError>>)
    ensures
        r is Err ==> r->Err_0@.len() > 0,
        !ini_parses(text@) ==> r is Err,
        (r is Ok) <==> config_ok(text@, rv@, ccf_quiet@, ccf_active@),
        r is Ok ==> {
            let s = r->Ok_0;
            &&& s.wf()
            &&& s.dynamic_fill_factor == fx_field_val(
                text@,
                star_section(),
                "fillfactor"@,
                0,
                FILL_MAX as int,
            )
            &&& s.star.period == fx_field_val(
                text@,
                star_section(),
                "period"@,
                PERIOD_MIN as int,
                PERIOD_MAX as int,
            )
            &&& s.star.inclination == fx_field_val(
                text@,
                star_section(),
                "inclination"@,
                0,
                359_999_999,
            )
            &&& s.star.temperature == fx_field_val(
                text@,
                star_section(),
                "Tstar"@,
                1,
                TEMP_MAX as int,
            )
            &&& s.star.spot_temp_diff == fx_field_val(
                text@,
                star_section(),
                "Tdiff_spot"@,
                0,
                TEMP_MAX as int,
            )
            &&& s.star.limb_linear == fx_field_val(
                text@,
                star_section(),
                "limb1"@,
                -LIMB_MAX as int,
                LIMB_MAX as int,
            )
            &&& s.star.limb_quadratic == fx_field_val(
                text@,
                star_section(),
                "limb2"@,
                -LIMB_MAX as int,
                LIMB_MAX as int,
            )
            &&& s.star.grid_size == count_field_val(
                text@,
                star_section(),
                "grid_resolution"@,
                1,
                GRID_MAX as int,
            )
            &&& s.star.profile_quiet.rv@ == rv@
            &&& s.star.profile_quiet.ccf@ == ccf_quiet@
            &&& s.star.profile_active.rv@ == rv@
            &&& s.star.profile_active.ccf@ == ccf_active@
            &&& s.star.flux_quiet == crate::star::flux_rec(
                s.star.grid_size as int,
                s.star.grid_size as int,
                s.star.limb_linear as int,
                s.star.limb_quadratic as int,
            )
            &&& s.star.equatorial_velocity == crate::star::ev_spec(
                fx_field_val(text@, star_section(), "radius"@, 1, RADIUS_MAX as int),
                s.star.period as int,
                s.star.inclination as int,
            )
            &&& (forall|j: int|
                0 <= j < s.star.integrated_ccf@.len()
                    ==> #[trigger] s.star.integrated_ccf@[j] == crate::star::integ_at(
                    s.star.profile_quiet,
                    s.star.equatorial_velocity as int,
                    s.star.grid_size as int,
                    j,
                    s.star.grid_size as int,
                    s.star.limb_linear as int,
                    s.star.limb_quadratic as int,
                ))
            &&& s.spots@ == static_regions(text@)
        },
{
    let mut errors: Vec<ConfigError> = Vec::new();
    let star_sec = star_section_vec();
    if !ini_parses_exec(text) {
        push_err(&mut errors, "", "", ConfigErrorKind::Unparsable);
        return Err(errors);
    }
    if !ini_section_present_exec(text, &star_sec) {
        push_err(&mut errors, "star", "", ConfigErrorKind::Missing);
        return Err(errors);
    }
    let radius = get_fx(text, &star_sec, "star", "radius", 1, RADIUS_MAX, &mut errors);
    let period = get_fx(text, &star_sec, "star", "period", PERIOD_MIN, PERIOD_MAX, &mut errors);
    let inclination = get_fx(text, &star_sec, "star", "inclination", 0, 359_999_999, &mut errors);
    let temperature = get_fx(text, &star_sec, "star", "Tstar", 1, TEMP_MAX, &mut errors);
    let spot_temp_diff = get_fx(text, &star_sec, "star", "Tdiff_spot", 0, TEMP_MAX, &mut errors);
    let limb_linear = get_fx(text, &star_sec, "star", "limb1", -LIMB_MAX, LIMB_MAX, &mut errors);
    let limb_quadratic = get_fx(text, &star_sec, "star", "limb2", -LIMB_MAX, LIMB_MAX, &mut errors);
    let fill = get_fx(text, &star_sec, "star", "fillfactor", 0, FILL_MAX, &mut errors);
    let grid_size = get_count(text, &star_sec, "star", "grid_resolution", 1, GRID_MAX, &mut errors);
    let diff_used: i64 = if spot_temp_diff >= temperature {
        push_err(&mut errors, "star", "Tdiff_spot", ConfigErrorKind::OutOfRange);
        0
    } else {
        spot_temp_diff
    };
    let ghost pre_ok: bool = errors@.len() == 0;
    proof {
        assert(pre_ok <==> star_ok(text@));
    }

    // Statically configured regions, one per spot* section in file order.
    let names = ini_names_exec(text);
    let ghost names_g: Seq<Seq<u8>> = ini_names(text@);
    let mut regions: Vec<Region> = Vec::new();
    let nn = names.len();
    let mut i: usize = 0;
    proof {
        assert(names_g.take(0) =~= Seq::<Seq<u8>>::empty());
    }
    while i < nn
        invariant
            nn == names@.len(),
            names_g == ini_names(text@),
            names@.len() == names_g.len(),
            forall|k: int| 0 <= k < names@.len() ==> #[trigger] names@[k]@ == names_g[k],
            i <= nn,
            all_wf(regions@),
            regions@.len() <= 1_000_000_000,
            forall|k: int|
                0 <= k < regions@.len() ==> (#[trigger] regions@[k]).time_appear == 0
                    && regions@[k].time_disappear == crate::region::TIME_HORIZON,
            spot_names(names_g.take(i as int)).len() <= 1_000_000_000 ==> (regions@.len()
                == spot_names(names_g.take(i as int)).len() && (forall|k: int|
                0 <= k < regions@.len() ==> #[trigger] regions@[k] == spot_region(
                    text@,
                    spot_names(names_g.take(i as int))[k],
                ))),
            (errors@.len() == 0) <==> (pre_ok && spot_names(names_g.take(i as int)).len()
                <= 1_000_000_000 && (forall|k: int|
                0 <= k < spot_names(names_g.take(i as int)).len() ==> spot_ok(
                    text@,
                    #[trigger] spot_names(names_g.take(i as int))[k],
                ))),
        decreases nn - i,
    {
        let ghost errs0: Seq<ConfigError> = errors@;
        proof {
            lemma_spot_names_take(names_g, i as int);
            let oldsn = spot_names(names_g.take(i as int));
            let newsn = spot_names(names_g.take(i as int + 1));
            if is_spot_name_spec(names_g[i as int]) {
                assert(newsn == oldsn.push(names_g[i as int]));
                assert(forall|k: int| 0 <= k < oldsn.len() ==> #[trigger] newsn[k] == oldsn[k]);
                assert(newsn[oldsn.len() as int] == names_g[i as int]);
            } else {
                assert(newsn == oldsn);
            }
        }
        let name = &names[i];
        if is_spot_name(name) {
            let sname = bytes_to_string(name);
            let lat = get_fx(text, name, sname.as_str(), "latitude", -LAT_MAX, LAT_MAX, &mut errors);
            let long = get_fx(text, name, sname.as_str(), "longitude", 0, 359_999_999, &mut errors);
            let size = get_fx(text, name, sname.as_str(), "size", 0, SIZE_MAX, &mut errors);
            let plage = get_bool(text, name, sname.as_str(), "plage", &mut errors);
            let reg = Region::new_static(lat, long, size, plage);
            if regions.len() < 1_000_000_000 {
                proof {
                    assert(reg == spot_region(text@, names_g[i as int]));
                }
                regions.push(reg);
            } else {
                push_err(&mut errors, sname.as_str(), "count", ConfigErrorKind::OutOfRange);
            }
        }
        proof {
            let sn0 = spot_names(names_g.take(i as int));
            let sn1 = spot_names(names_g.take(i as int + 1));
            if errors@.len() != 0 {
                if errs0.len() != 0 {
                    assert(!(pre_ok && sn0.len() <= 1_000_000_000 && (forall|k: int|
                        0 <= k < sn0.len() ==> spot_ok(text@, #[trigger] sn0[k]))));
                    if pre_ok && sn1.len() <= 1_000_000_000 {
                        assert(sn0.len() <= sn1.len());
                        let kw = choose|k: int|
                            0 <= k < sn0.len() && !spot_ok(text@, #[trigger] sn0[k]);
                        assert(sn1[kw] == sn0[kw]);
                        assert(!spot_ok(text@, sn1[kw]));
                    }
                } else {
                    // Every earlier condition held; this iteration added
                    // the first error: a rejected field of this section,
                    // or a region count past the collection bound.
                    if is_spot_name_spec(names_g[i as int]) {
                        if !spot_ok(text@, names_g[i as int]) {
                            assert(sn1[sn0.len() as int] == names_g[i as int]);
                            assert(!spot_ok(text@, sn1[sn0.len() as int]));
                        } else {
                            assert(sn0.len() == 1_000_000_000);
                            assert(sn1.len() > 1_000_000_000);
                        }
                    }
                }
            }
            assert((errors@.len() == 0) <==> (pre_ok && sn1.len() <= 1_000_000_000 && (forall|
                k: int,
            |
                0 <= k < sn1.len() ==> spot_ok(text@, #[trigger] sn1[k]))));
        }
        i += 1;
    }
    proof {
        assert(names_g.take(nn as int) =~= names_g);
    }
    let ghost errs_loop: Seq<ConfigError> = errors@;

    // The static regions must not collide with one another: their whole-
    // run life windows always overlap.
    let nr = regions.len();
    let mut overlap_found = false;
    let ghost mut wx: int = 0;
    let ghost mut wy: int = 0;
    let mut a: usize = 1;
    while a < nr
        invariant
            nr == regions@.len(),
            all_wf(regions@),
            1 <= a <= nr || nr == 0,
            overlap_found ==> 0 <= wx < wy < nr && regions@[wx].collides_spec(regions@[wy]),
            !overlap_found ==> forall|x: int, y: int|
                0 <= x < y < a ==> !(#[trigger] regions@[x].collides_spec(regions@[y])),
        decreases nr - a,
    {
        let mut b: usize = 0;
        while b < a
            invariant
                nr == regions@.len(),
                all_wf(regions@),
                b <= a < nr,
                overlap_found ==> 0 <= wx < wy < nr && regions@[wx].collides_spec(regions@[wy]),
                !overlap_found ==> forall|x: int, y: int|
                    0 <= x < y < a ==> !(#[trigger] regions@[x].collides_spec(regions@[y])),
                !overlap_found ==> forall|x: int|
                    0 <= x < b ==> !(#[trigger] regions@[x].collides_spec(regions@[a as int])),
            decreases a - b,
        {
            proof {
                assert(regions@[a as int].wf());
                assert(regions@[b as int].wf());
            }
            if regions[b].collides_with(&regions[a]) {
                if !overlap_found {
                    proof {
                        wx = b as int;
                        wy = a as int;
                    }
                }
                overlap_found = true;
            }
            b += 1;
        }
        a += 1;
    }
    if overlap_found {
        push_err(&mut errors, "spot", "overlap", ConfigErrorKind::OutOfRange);
    }
    proof {
        if spot_names(names_g).len() <= 1_000_000_000 {
            assert(regions@ =~= static_regions(text@));
        }
        if overlap_found {
            assert(regions@[wx].windows_overlap(regions@[wy]));
            assert(!pair_ok(regions@[wx], regions@[wy]));
            assert(!pairwise_ok(regions@));
        }
    }

    // Reference profiles: the quiet and active columns share one grid.
    let mut rv2: Vec<i64> = Vec::new();
    let mut j: usize = 0;
    while j < rv.len()
        invariant
            j <= rv@.len(),
            rv2@ =~= rv@.subrange(0, j as int),
        decreases rv@.len() - j,
    {
        rv2.push(rv[j]);
        j += 1;
    }
    proof {
        assert(rv2@ =~= rv@);
    }
    let pq = Profile::new(rv, ccf_quiet);
    let pa = Profile::new(rv2, ccf_active);
    let (pq, pa) = match (pq, pa) {
        (Some(q), Some(act)) => {
            if q.len() != act.len() {
                push_err(&mut errors, "profile", "length", ConfigErrorKind::OutOfRange);
                return Err(errors);
            }
            (q, act)
        },
        _ => {
            push_err(&mut errors, "profile", "shape", ConfigErrorKind::OutOfRange);
            return Err(errors);
        },
    };
    let star = match Star::new(
        radius,
        period,
        inclination,
        temperature,
        diff_used,
        limb_linear,
        limb_quadratic,
        grid_size,
        pq,
        pa,
    ) {
        Some(s) => s,
        None => {
            push_err(&mut errors, "star", "flux", ConfigErrorKind::OutOfRange);
            proof {
                assert(!config_ok(text@, rv@, ccf_quiet@, ccf_active@));
            }
            return Err(errors);
        },
    };
    if errors.len() > 0 {
        proof {
            assert(errs_loop.len() != 0 || overlap_found);
            if errs_loop.len() != 0 {
                assert(!(pre_ok && spot_names(names_g).len() <= 1_000_000_000 && (forall|k: int|
                    0 <= k < spot_names(names_g).len() ==> spot_ok(
                        text@,
                        #[trigger] spot_names(names_g)[k],
                    ))));
                assert(!config_ok(text@, rv@, ccf_quiet@, ccf_active@));
            } else {
                if spot_names(names_g).len() <= 1_000_000_000 {
                    assert(!pairwise_ok(static_regions(text@)));
                }
                assert(!config_ok(text@, rv@, ccf_quiet@, ccf_active@));
            }
        }
        return Err(errors);
    }
    proof {
        assert(regions@ =~= static_regions(text@));
        assert(pairwise_ok(regions@));
        assert(config_ok(text@, rv@, ccf_quiet@, ccf_active@));
    }
    Ok(Simulation::new(star, regions, fill))
}

} // verus!
