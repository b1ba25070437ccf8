//! STIX 2.1 export: patterns for disclosed indicators, one-epoch validity
//! windows, confidence normalization and bundle assembly.
//!
//! Undisclosed indicators (ones seen only as an opaque hash) never appear
//! here: callers pass only disclosed, already-scored observations.

use vstd::prelude::*;
use crate::text::{trimmed, trim_str, chars_of, push_char, push_chars, push_str, push_digits, decimal, hexadecimal, make_string, digits, hex_digit};
use crate::indicator_kind::{IndicatorKind, kind_of, kind_of_chars, is_hex_spec, is_hex_digit};
use crate::ip::{
    digit_run, digit_value, read_char, read_groups, read_hex_group, read_ipv4, read_octet, read_octets, ipv4_syntax,
    ipv6_syntax,
};

verus! {

// ---------------------------------------------------------------------------
// Patterns

/// `s` with every `'` written as `\'`.
pub open spec fn escape_quotes(s: Seq<char>) -> Seq<char>
    decreases s.len(),
{
    if s.len() == 0 {
        Seq::empty()
    } else {
        escape_quotes(s.drop_last()) + (if s.last() == '\'' { seq!['\\', '\''] } else { seq![s.last()] })
    }
}

/// The STIX pattern for a raw indicator, by its kind after trimming; an
/// unrecognized shape gets a clearly-marked custom object type.
pub open spec fn pattern_spec(raw: Seq<char>) -> Seq<char> {
    let s = trimmed(raw);
    match kind_of(s) {
        IndicatorKind::Md5 => "[file:hashes.MD5 = '"@ + s + "']"@,
        IndicatorKind::Sha1 => "[file:hashes.'SHA-1' = '"@ + s + "']"@,
        IndicatorKind::Sha256 => "[file:hashes.'SHA-256' = '"@ + s + "']"@,
        IndicatorKind::Ipv4 => "[ipv4-addr:value = '"@ + s + "']"@,
        IndicatorKind::Ipv6 => "[ipv6-addr:value = '"@ + s + "']"@,
        IndicatorKind::Url => "[url:value = '"@ + escape_quotes(s) + "']"@,
        IndicatorKind::Domain => "[domain-name:value = '"@ + escape_quotes(s) + "']"@,
        IndicatorKind::Unrecognized => "[x-umbra:unrecognized-indicator = '"@ + escape_quotes(s) + "']"@,
    }
}

fn push_escaped(out: &mut String, v: &Vec<char>)
    ensures
        final(out)@ == old(out)@ + escape_quotes(v@),
{
    let mut i: usize = 0;
    proof { assert(v@.take(0) =~= Seq::<char>::empty()); }
    while i < v.len()
        invariant
            i <= v@.len(),
            out@ == old(out)@ + escape_quotes(v@.take(i as int)),
        decreases v@.len() - i,
    {
        let ghost before = out@;
        let c = v[i];
        if c == '\'' {
            push_char(out, '\\');
            push_char(out, '\'');
        } else {
            push_char(out, c);
        }
        proof {
            let t = v@.take(i + 1);
            assert(t.drop_last() =~= v@.take(i as int));
            assert(t.last() == c);
            assert(out@ =~= old(out)@ + escape_quotes(t));
        }
        i = i + 1;
    }
    proof { assert(v@.take(v@.len() as int) =~= v@); }
}

/// Best-effort STIX 2.1 pattern for a raw, disclosed indicator.
pub fn stix_pattern_for(raw_indicator: &str) -> (r: String)
    ensures
        r@ == pattern_spec(raw_indicator@),
{
    let s = trim_str(raw_indicator);
    let v = chars_of(s);
    let kind = kind_of_chars(&v);
    let mut out = String::new();
    match kind {
        IndicatorKind::Md5 => {
            push_str(&mut out, "[file:hashes.MD5 = '");
            push_chars(&mut out, &v);
        },
        IndicatorKind::Sha1 => {
            push_str(&mut out, "[file:hashes.'SHA-1' = '");
            push_chars(&mut out, &v);
        },
        IndicatorKind::Sha256 => {
            push_str(&mut out, "[file:hashes.'SHA-256' = '");
            push_chars(&mut out, &v);
        },
        IndicatorKind::Ipv4 => {
            push_str(&mut out, "[ipv4-addr:value = '");
            push_chars(&mut out, &v);
        },
        IndicatorKind::Ipv6 => {
            push_str(&mut out, "[ipv6-addr:value = '");
            push_chars(&mut out, &v);
        },
        IndicatorKind::Url => {
            push_str(&mut out, "[url:value = '");
            push_escaped(&mut out, &v);
        },
        IndicatorKind::Domain => {
            push_str(&mut out, "[domain-name:value = '");
            push_escaped(&mut out, &v);
        },
        IndicatorKind::Unrecognized => {
            push_str(&mut out, "[x-umbra:unrecognized-indicator = '");
            push_escaped(&mut out, &v);
        },
    }
    push_str(&mut out, "']");
    proof {
        assert(Seq::<char>::empty() + "[file:hashes.MD5 = '"@ =~= "[file:hashes.MD5 = '"@);
    }
    out
}

// ---------------------------------------------------------------------------
// Validity windows

/// A leap year of the Gregorian calendar.
pub open spec fn is_leap(y: nat) -> bool {
    (y % 4 == 0 && y % 100 != 0) || y % 400 == 0
}

/// Days in month `m` of year `y` (0 for a month outside 1 to 12).
pub open spec fn days_in_month(y: nat, m: nat) -> nat {
    if m == 1 || m == 3 || m == 5 || m == 7 || m == 8 || m == 10 || m == 12 {
        31
    } else if m == 4 || m == 6 || m == 9 || m == 11 {
        30
    } else if m == 2 {
        if is_leap(y) { 29 } else { 28 }
    } else {
        0
    }
}

/// An epoch read as a `YYYYMMDD` integer: (year, month, day).
pub open spec fn epoch_date(epoch: u64) -> (nat, nat, nat) {
    ((epoch / 10_000) as nat, ((epoch / 100) % 100) as nat, (epoch % 100) as nat)
}

/// A date of the years 1970 to 9999 that exists in the calendar.
pub open spec fn valid_date(d: (nat, nat, nat)) -> bool {
    1970 <= d.0 <= 9999 && 1 <= d.1 <= 12 && 1 <= d.2 <= days_in_month(d.0, d.1)
}

/// The calendar day after `d`.
pub open spec fn next_date(d: (nat, nat, nat)) -> (nat, nat, nat) {
    if d.2 < days_in_month(d.0, d.1) {
        (d.0, d.1, d.2 + 1)
    } else if d.1 < 12 {
        (d.0, d.1 + 1, 1)
    } else {
        (d.0 + 1, 1, 1)
    }
}

/// RFC 3339 midnight UTC of `d`: `YYYY-MM-DDT00:00:00Z`.
pub open spec fn timestamp(d: (nat, nat, nat)) -> Seq<char> {
    decimal(d.0, 4) + "-"@ + decimal(d.1, 2) + "-"@ + decimal(d.2, 2) + "T00:00:00Z"@
}

/// The last day whose window still ends in a four-digit year is 9999-12-30:
/// the window of 9999-12-31 would end in year 10000, outside RFC 3339.
pub open spec fn window_fits(d: (nat, nat, nat)) -> bool {
    valid_date(d) && next_date(d).0 <= 9999
}

/// One epoch's validity window, from its midnight to the next day's, or
/// nothing when the epoch is not a valid `YYYYMMDD` date or its window
/// would end past year 9999.
pub open spec fn validity_window(epoch: u64) -> Option<(Seq<char>, Seq<char>)> {
    let d = epoch_date(epoch);
    if window_fits(d) {
        Some((timestamp(d), timestamp(next_date(d))))
    } else {
        None
    }
}

fn push_timestamp(out: &mut String, y: u64, m: u64, d: u64)
    ensures
        final(out)@ == old(out)@ + timestamp((y as nat, m as nat, d as nat)),
{
    push_digits(out, y, 10, 4);
    push_str(out, "-");
    push_digits(out, m, 10, 2);
    push_str(out, "-");
    push_digits(out, d, 10, 2);
    push_str(out, "T00:00:00Z");
    proof {
        let t = timestamp((y as nat, m as nat, d as nat));
        assert(out@ =~= old(out)@ + t);
    }
}

/// One epoch's validity window `(valid_from, valid_until)` as RFC 3339 UTC
/// timestamps, reading `epoch` as `YYYYMMDD`; `None` when it is not a date,
/// or when it is 9999-12-31, whose window would end in year 10000, which
/// RFC 3339 cannot write.
pub fn epoch_validity_window(epoch: u64) -> (r: Option<(String, String)>)
    ensures
        match r {
            Some((from, until)) => validity_window(epoch) == Some((from@, until@)),
            None => validity_window(epoch) is None,
        },
{
    let year = epoch / 10_000;
    let month = (epoch / 100) % 100;
    let day = epoch % 100;
    if !(1970 <= year && year <= 9999) || !(1 <= month && month <= 12) || !(1 <= day && day <= 31) {
        return None;
    }
    let days_in_month: u64 = if month == 1 || month == 3 || month == 5 || month == 7 || month == 8
        || month == 10 || month == 12 {
        31
    } else if month == 4 || month == 6 || month == 9 || month == 11 {
        30
    } else {
        let leap = (year % 4 == 0 && year % 100 != 0) || year % 400 == 0;
        if leap { 29 } else { 28 }
    };
    if day > days_in_month {
        return None;
    }
    let mut valid_from = String::new();
    push_timestamp(&mut valid_from, year, month, day);
    let (next_year, next_month, next_day) = if day < days_in_month {
        (year, month, day + 1)
    } else if month < 12 {
        (year, month + 1, 1)
    } else {
        (year + 1, 1, 1)
    };
    if next_year > 9999 {
        return None;
    }
    let mut valid_until = String::new();
    push_timestamp(&mut valid_until, next_year, next_month, next_day);
    proof {
        assert(Seq::<char>::empty() + timestamp((year as nat, month as nat, day as nat))
            =~= timestamp((year as nat, month as nat, day as nat)));
        assert(Seq::<char>::empty() + timestamp((next_year as nat, next_month as nat, next_day as nat))
            =~= timestamp((next_year as nat, next_month as nat, next_day as nat)));
    }
    Some((valid_from, valid_until))
}

// ---------------------------------------------------------------------------
// Confidence

/// Raw score to STIX `confidence` (0 to 100): `min(100, score * 100 / full)`,
/// and 100 when `full` is 0.
pub open spec fn confidence_spec(score: u32, full: u32) -> u8 {
    if full == 0 {
        100
    } else if (score as nat) * 100 / (full as nat) >= 100 {
        100
    } else {
        ((score as nat) * 100 / (full as nat)) as u8
    }
}

/// Raw score to STIX `confidence` (0 to 100), on the scale where
/// `score_for_full_confidence` points is full confidence.
pub fn normalize_confidence(score: u32, score_for_full_confidence: u32) -> (c: u8)
    ensures
        c == confidence_spec(score, score_for_full_confidence),
        c <= 100,
{
    if score_for_full_confidence == 0 {
        return 100;
    }
    let scaled = (score as u64 * 100) / score_for_full_confidence as u64;
    if scaled >= 100 {
        100
    } else {
        scaled as u8
    }
}

// ---------------------------------------------------------------------------
// Deterministic ids

/// FNV-1a over `bytes`.
pub open spec fn fnv1a(bytes: Seq<u8>) -> u64
    decreases bytes.len(),
{
    if bytes.len() == 0 {
        0xcbf29ce484222325
    } else {
        (((fnv1a(bytes.drop_last()) ^ (bytes.last() as u64)) as nat * 0x100000001b3nat)
            % 0x1_0000_0000_0000_0000nat) as u64
    }
}

fn fnv1a_exec(bytes: &[u8]) -> (h: u64)
    ensures
        h == fnv1a(bytes@),
{
    let mut hash: u64 = 0xcbf29ce484222325;
    let mut i: usize = 0;
    proof { assert(bytes@.take(0) =~= Seq::<u8>::empty()); }
    while i < bytes.len()
        invariant
            i <= bytes@.len(),
            hash == fnv1a(bytes@.take(i as int)),
        decreases bytes@.len() - i,
    {
        hash = hash ^ (bytes[i] as u64);
        hash = hash.wrapping_mul(0x100000001b3);
        proof {
            let t = bytes@.take(i + 1);
            assert(t.drop_last() =~= bytes@.take(i as int));
            assert(t.last() == bytes@[i as int]);
        }
        i = i + 1;
    }
    proof { assert(bytes@.take(bytes@.len() as int) =~= bytes@); }
    hash
}

/// The text the id of (relay, key, epoch, salt) is hashed from.
pub open spec fn id_input(relay_id: Seq<char>, key: Seq<char>, epoch: nat, salt: nat) -> Seq<char> {
    relay_id + "|"@ + key + "|"@ + decimal(epoch, 0) + "|"@ + decimal(salt, 0)
}

/// A deterministic, UUID-shaped hex string derived from its inputs through
/// FNV-1a (not a real UUID): 8-4-4-4-12 hex digits, with the version
/// nibble 4 and the variant bits `10`.
pub open spec fn uuid_like(relay_id: Seq<char>, key: Seq<char>, epoch: nat, salt: nat) -> Seq<char> {
    let input = id_input(relay_id, key, epoch, salt);
    let h1 = fnv1a(vstd::utf8::encode_utf8(input)) as nat;
    let h2 = fnv1a(vstd::utf8::encode_utf8(input + "|2"@)) as nat;
    hexadecimal(h1 / 0x1_0000_0000, 8) + "-"@
        + hexadecimal((h1 / 0x1_0000) % 0x1_0000, 4) + "-"@
        + hexadecimal(h1 % 0x1000 + 0x4000, 4) + "-"@
        + hexadecimal((h2 / 0x1_0000_0000_0000) % 0x4000 + 0x8000, 4) + "-"@
        + hexadecimal(h2 % 0x1_0000_0000_0000, 12)
}

/// A stable id in UUID shape for `(relay_id, key, epoch, salt)`: the same
/// inputs always give the same id.
pub fn deterministic_uuid_like(relay_id: &str, key: &str, epoch: u64, salt: usize) -> (r: String)
    ensures
        r@ == uuid_like(relay_id@, key@, epoch as nat, salt as nat),
{
    let mut input = String::new();
    push_str(&mut input, relay_id);
    push_str(&mut input, "|");
    push_str(&mut input, key);
    push_str(&mut input, "|");
    push_digits(&mut input, epoch, 10, 0);
    push_str(&mut input, "|");
    push_digits(&mut input, salt as u64, 10, 0);
    let ghost text = id_input(relay_id@, key@, epoch as nat, salt as nat);
    proof { assert(input@ =~= text); }
    let h1 = fnv1a_exec(input.as_str().as_bytes());
    let mut input2 = input.clone();
    push_str(&mut input2, "|2");
    let h2 = fnv1a_exec(input2.as_str().as_bytes());
    let mut out = String::new();
    push_digits(&mut out, h1 / 0x1_0000_0000, 16, 8);
    push_str(&mut out, "-");
    push_digits(&mut out, (h1 / 0x1_0000) % 0x1_0000, 16, 4);
    push_str(&mut out, "-");
    push_digits(&mut out, h1 % 0x1000 + 0x4000, 16, 4);
    push_str(&mut out, "-");
    push_digits(&mut out, (h2 / 0x1_0000_0000_0000) % 0x4000 + 0x8000, 16, 4);
    push_str(&mut out, "-");
    push_digits(&mut out, h2 % 0x1_0000_0000_0000, 16, 12);
    proof {
        assert(out@ =~= uuid_like(relay_id@, key@, epoch as nat, salt as nat));
    }
    out
}

// ---------------------------------------------------------------------------
// Bundles

/// One disclosed, scored observation to export.
#[derive(Debug, Clone)]
pub struct StixIndicatorInput {
    pub raw_indicator: String,
    pub epoch: u64,
    pub score: u32,
    pub proof_count: u32,
}

pub struct StixInputView {
    pub raw_indicator: Seq<char>,
    pub epoch: u64,
    pub score: u32,
    pub proof_count: u32,
}

impl View for StixIndicatorInput {
    type V = StixInputView;

    open spec fn view(&self) -> StixInputView {
        StixInputView {
            raw_indicator: self.raw_indicator@,
            epoch: self.epoch,
            score: self.score,
            proof_count: self.proof_count,
        }
    }
}

/// One STIX 2.1 `indicator` object.
#[derive(Debug, Clone)]
pub struct StixObject {
    pub id: String,
    pub spec_version: String,
    pub pattern: String,
    pub pattern_type: String,
    pub valid_from: String,
    pub valid_until: String,
    pub confidence: u8,
    pub x_umbra_proof_count: u32,
    pub x_umbra_relay_id: String,
}

pub struct StixObjectView {
    pub id: Seq<char>,
    pub spec_version: Seq<char>,
    pub pattern: Seq<char>,
    pub pattern_type: Seq<char>,
    pub valid_from: Seq<char>,
    pub valid_until: Seq<char>,
    pub confidence: u8,
    pub x_umbra_proof_count: u32,
    pub x_umbra_relay_id: Seq<char>,
}

impl View for StixObject {
    type V = StixObjectView;

    open spec fn view(&self) -> StixObjectView {
        StixObjectView {
            id: self.id@,
            spec_version: self.spec_version@,
            pattern: self.pattern@,
            pattern_type: self.pattern_type@,
            valid_from: self.valid_from@,
            valid_until: self.valid_until@,
            confidence: self.confidence,
            x_umbra_proof_count: self.x_umbra_proof_count,
            x_umbra_relay_id: self.x_umbra_relay_id@,
        }
    }
}

/// A STIX 2.1 bundle (`type` is `bundle_type`).
#[derive(Debug)]
pub struct StixBundle {
    pub id: String,
    pub bundle_type: String,
    pub objects: Vec<StixObject>,
}

/// The object exported for input number `i`, if its epoch is a valid date.
pub open spec fn stix_object_spec(input: StixInputView, i: nat, full: u32, relay_id: Seq<char>) -> Option<StixObjectView> {
    match validity_window(input.epoch) {
        None => None,
        Some(w) => Some(StixObjectView {
            id: "indicator--"@ + uuid_like(relay_id, input.raw_indicator, input.epoch as nat, i),
            spec_version: "2.1"@,
            pattern: pattern_spec(input.raw_indicator),
            pattern_type: "stix"@,
            valid_from: w.0,
            valid_until: w.1,
            confidence: confidence_spec(input.score, full),
            x_umbra_proof_count: input.proof_count,
            x_umbra_relay_id: relay_id,
        }),
    }
}

/// The objects of a bundle: one per input with a valid epoch, in input order;
/// inputs with an unparseable epoch are skipped.
pub open spec fn stix_objects_spec(inputs: Seq<StixInputView>, full: u32, relay_id: Seq<char>) -> Seq<StixObjectView>
    decreases inputs.len(),
{
    if inputs.len() == 0 {
        Seq::empty()
    } else {
        let prev = stix_objects_spec(inputs.drop_last(), full, relay_id);
        match stix_object_spec(inputs.last(), (inputs.len() - 1) as nat, full, relay_id) {
            Some(o) => prev.push(o),
            None => prev,
        }
    }
}

pub open spec fn input_views(inputs: Seq<StixIndicatorInput>) -> Seq<StixInputView> {
    inputs.map_values(|x: StixIndicatorInput| x@)
}

pub open spec fn object_views(objects: Seq<StixObject>) -> Seq<StixObjectView> {
    objects.map_values(|x: StixObject| x@)
}

/// Builds a STIX 2.1 bundle of `indicator` objects from disclosed, scored
/// observations. Filtering to disclosed indicators above a threshold is the
/// caller's job; this function maps fields and skips inputs whose epoch is
/// not a `YYYYMMDD` date.
pub fn build_stix_bundle(inputs: &[StixIndicatorInput], score_for_full_confidence: u32, relay_id: &str) -> (b: StixBundle)
    ensures
        b.id@ == "bundle--"@ + uuid_like(relay_id@, "bundle"@, 0, 0),
        b.bundle_type@ == "bundle"@,
        object_views(b.objects@) == stix_objects_spec(input_views(inputs@), score_for_full_confidence, relay_id@),
{
    let ghost ins = input_views(inputs@);
    let mut objects: Vec<StixObject> = Vec::new();
    let mut i: usize = 0;
    proof { assert(object_views(objects@) =~= stix_objects_spec(ins.take(0), score_for_full_confidence, relay_id@)); }
    while i < inputs.len()
        invariant
            i <= inputs@.len(),
            ins == input_views(inputs@),
            object_views(objects@) == stix_objects_spec(ins.take(i as int), score_for_full_confidence, relay_id@),
        decreases inputs@.len() - i,
    {
        let input = &inputs[i];
        proof {
            let t = ins.take(i + 1);
            assert(t.drop_last() =~= ins.take(i as int));
            assert(t.last() == input@);
        }
        match epoch_validity_window(input.epoch) {
            None => {},
            Some((valid_from, valid_until)) => {
                let mut id = make_string("indicator--");
                let u = deterministic_uuid_like(relay_id, input.raw_indicator.as_str(), input.epoch, i);
                push_str(&mut id, u.as_str());
                let obj = StixObject {
                    id,
                    spec_version: make_string("2.1"),
                    pattern: stix_pattern_for(input.raw_indicator.as_str()),
                    pattern_type: make_string("stix"),
                    valid_from,
                    valid_until,
                    confidence: normalize_confidence(input.score, score_for_full_confidence),
                    x_umbra_proof_count: input.proof_count,
                    x_umbra_relay_id: make_string(relay_id),
                };
                let ghost before = object_views(objects@);
                objects.push(obj);
                proof { assert(object_views(objects@) =~= before.push(obj@)); }
            },
        }
        i = i + 1;
    }
    proof { assert(ins.take(inputs@.len() as int) =~= ins); }
    let mut id = make_string("bundle--");
    let u = deterministic_uuid_like(relay_id, "bundle", 0, 0);
    push_str(&mut id, u.as_str());
    StixBundle { id, bundle_type: make_string("bundle"), objects }
}

// ---------------------------------------------------------------------------
// Laws

/// The days of a valid date's month are at most 31.
proof fn lemma_days_bound(y: nat, m: nat)
    ensures
        days_in_month(y, m) <= 31,
        1 <= m <= 12 ==> days_in_month(y, m) >= 28,
{
}

/// The day after a valid date is a valid date, unless it leaves year 9999.
pub proof fn law_next_date_is_valid(d: (nat, nat, nat))
    requires
        valid_date(d),
        !(d.0 == 9999 && d.1 == 12 && d.2 == 31),
    ensures
        valid_date(next_date(d)),
{
    lemma_days_bound(d.0, d.1);
    lemma_days_bound(d.0, d.1 + 1);
    lemma_days_bound(d.0 + 1, 1);
}

/// Validity windows tile the calendar: the window of an epoch ends exactly
/// where the window of the next day's epoch begins, for every day up to
/// 9999-12-29 (the next day must have a window too).
pub proof fn law_windows_tile(epoch: u64)
    requires
        validity_window(epoch) is Some,
        epoch_date(epoch) != (9999nat, 12nat, 30nat),
    ensures
        ({
            let n = next_date(epoch_date(epoch));
            let next_epoch = (n.0 * 10_000 + n.1 * 100 + n.2) as u64;
            &&& validity_window(next_epoch) matches Some(later)
            &&& validity_window(epoch) matches Some(this)
            &&& later.0 == this.1
        }),
{
    let d = epoch_date(epoch);
    lemma_days_bound(d.0, d.1);
    law_next_date_is_valid(d);
    let n = next_date(d);
    lemma_days_bound(n.0, n.1);
    assert(n != (9999nat, 12nat, 31nat));
    assert(next_date(n).0 <= 9999);
    let e = n.0 * 10_000 + n.1 * 100 + n.2;
    assert(e < 0x1_0000_0000_0000_0000);
    assert(e / 10_000 == n.0) by (nonlinear_arith)
        requires e == n.0 * 10_000 + n.1 * 100 + n.2, n.1 <= 12, n.2 <= 31;
    assert((e / 100) % 100 == n.1) by (nonlinear_arith)
        requires e == n.0 * 10_000 + n.1 * 100 + n.2, n.1 <= 12, n.2 <= 31;
    assert(e % 100 == n.2) by (nonlinear_arith)
        requires e == n.0 * 10_000 + n.1 * 100 + n.2, n.1 <= 12, n.2 <= 31;
    assert(epoch_date(e as u64) == n);
}

/// `10^w`.
pub open spec fn pow10(w: nat) -> nat
    decreases w,
{
    if w == 0 { 1 } else { 10 * pow10((w - 1) as nat) }
}

/// A number below `10^w` is written with exactly `w` digits when padded to
/// `w` digits.
proof fn lemma_decimal_len(n: nat, w: nat)
    requires
        w >= 1,
        n < pow10(w),
    ensures
        decimal(n, w).len() == w,
    decreases w,
{
    if w == 1 {
        assert(digits(n, 10, 1) == seq![hex_digit(n)]);
    } else {
        let b2 = pow10((w - 1) as nat);
        assert(n / 10 < b2) by (nonlinear_arith)
            requires n < 10 * b2;
        lemma_decimal_len(n / 10, (w - 1) as nat);
        assert(!(n < 10 && w <= 1));
        assert(digits(n, 10, w) == digits(n / 10, 10, (w - 1) as nat).push(hex_digit(n % 10)));
    }
}

/// A validity window's timestamps are RFC 3339: `YYYY-MM-DDT00:00:00Z`,
/// 20 characters with a four-digit year.
pub proof fn law_window_timestamps_have_four_digit_years(epoch: u64)
    requires
        validity_window(epoch) is Some,
    ensures
        ({
            let d = epoch_date(epoch);
            let n = next_date(d);
            &&& validity_window(epoch) == Some((timestamp(d), timestamp(n)))
            &&& decimal(d.0, 4).len() == 4 && decimal(n.0, 4).len() == 4
            &&& timestamp(d).len() == 20 && timestamp(n).len() == 20
        }),
{
    let d = epoch_date(epoch);
    let n = next_date(d);
    lemma_days_bound(d.0, d.1);
    law_next_date_is_valid(d);
    lemma_days_bound(n.0, n.1);
    reveal_strlit("-");
    reveal_strlit("T00:00:00Z");
    assert(pow10(4) == 10000) by { reveal_with_fuel(pow10, 5); }
    assert(pow10(2) == 100) by { reveal_with_fuel(pow10, 3); }
    lemma_decimal_len(d.0, 4);
    lemma_decimal_len(d.1, 2);
    lemma_decimal_len(d.2, 2);
    lemma_decimal_len(n.0, 4);
    lemma_decimal_len(n.1, 2);
    lemma_decimal_len(n.2, 2);
}

/// Confidence grows with the score and never exceeds 100.
pub proof fn law_confidence_monotone(a: u32, b: u32, full: u32)
    requires
        a <= b,
    ensures
        confidence_spec(a, full) <= confidence_spec(b, full),
        confidence_spec(b, full) <= 100,
{
    if full > 0 {
        assert((a as nat) * 100 / (full as nat) <= (b as nat) * 100 / (full as nat)) by (nonlinear_arith)
            requires a <= b, full > 0;
    }
}

/// A score of at least the full-confidence score maps to confidence 100.
pub proof fn law_full_score_is_full_confidence(score: u32, full: u32)
    requires
        score >= full,
    ensures
        confidence_spec(score, full) == 100,
{
    if full > 0 {
        assert((score as nat) * 100 / (full as nat) >= 100) by (nonlinear_arith)
            requires score >= full, full > 0;
    }
}

// ---------------------------------------------------------------------------
// The pattern's shape

/// The opening of the pattern for each kind of indicator.
pub open spec fn pattern_prefix(k: IndicatorKind) -> Seq<char> {
    match k {
        IndicatorKind::Md5 => "[file:hashes.MD5 = '"@,
        IndicatorKind::Sha1 => "[file:hashes.'SHA-1' = '"@,
        IndicatorKind::Sha256 => "[file:hashes.'SHA-256' = '"@,
        IndicatorKind::Ipv4 => "[ipv4-addr:value = '"@,
        IndicatorKind::Ipv6 => "[ipv6-addr:value = '"@,
        IndicatorKind::Url => "[url:value = '"@,
        IndicatorKind::Domain => "[domain-name:value = '"@,
        IndicatorKind::Unrecognized => "[x-umbra:unrecognized-indicator = '"@,
    }
}

/// No single quote among `s[a..b]`.
pub open spec fn no_quote(s: Seq<char>, a: int, b: int) -> bool {
    forall|i: int| a <= i < b ==> s[i] != '\''
}

proof fn lemma_escape_no_quote(s: Seq<char>)
    requires
        no_quote(s, 0, s.len() as int),
    ensures
        escape_quotes(s) == s,
    decreases s.len(),
{
    if s.len() > 0 {
        lemma_escape_no_quote(s.drop_last());
        assert(s.drop_last().push(s.last()) =~= s);
        assert(seq![s.last()] =~= Seq::<char>::empty().push(s.last()));
        assert(escape_quotes(s.drop_last()) + seq![s.last()] =~= s);
    }
}

proof fn lemma_digit_run_no_quote(s: Seq<char>, pos: nat, radix: nat)
    requires
        pos <= s.len(),
    ensures
        pos + digit_run(s, pos, radix) <= s.len(),
        no_quote(s, pos as int, (pos + digit_run(s, pos, radix)) as int),
    decreases s.len() - pos,
{
    if pos < s.len() && digit_value(s[pos as int], radix) is Some {
        lemma_digit_run_no_quote(s, pos + 1, radix);
    }
}

proof fn lemma_octets_no_quote(s: Seq<char>, pos: nat, i: nat)
    requires
        pos <= s.len(),
    ensures
        read_octets(s, pos, i) matches Some(q) ==> pos <= q <= s.len() && no_quote(s, pos as int, q as int),
    decreases 4 - i,
{
    if i < 4 {
        let after_sep = if i == 0 { Some(pos) } else { read_char(s, pos, '.') };
        if let Some(p) = after_sep {
            lemma_digit_run_no_quote(s, p, 10);
            if let Some(q) = read_octet(s, p) {
                lemma_octets_no_quote(s, q, i + 1);
            }
        }
    }
}

proof fn lemma_groups_no_quote(s: Seq<char>, pos: nat, i: nat, limit: nat)
    requires
        pos <= s.len(),
    ensures
        pos <= read_groups(s, pos, i, limit).2 <= s.len(),
        no_quote(s, pos as int, read_groups(s, pos, i, limit).2 as int),
    decreases limit - i,
{
    if i < limit {
        let after_sep = if i == 0 { Some(pos) } else { read_char(s, pos, ':') };
        if let Some(p) = after_sep {
            lemma_octets_no_quote(s, p, 0);
            lemma_digit_run_no_quote(s, p, 16);
            if let Some(q) = read_hex_group(s, p) {
                lemma_groups_no_quote(s, q, i + 1, limit);
            }
        }
    }
}

/// The text of a hash or an IP address holds no single quote.
proof fn lemma_plain_kinds_no_quote(s: Seq<char>)
    requires
        is_hex_spec(s, 32) || is_hex_spec(s, 40) || is_hex_spec(s, 64) || ipv4_syntax(s) || ipv6_syntax(s),
    ensures
        no_quote(s, 0, s.len() as int),
{
    if is_hex_spec(s, 32) || is_hex_spec(s, 40) || is_hex_spec(s, 64) {
        assert forall|i: int| 0 <= i < s.len() implies s[i] != '\'' by {
            assert(is_hex_digit(s[i]));
        }
    } else if ipv4_syntax(s) {
        lemma_octets_no_quote(s, 0, 0);
    } else {
        let head = read_groups(s, 0, 0, 8);
        lemma_groups_no_quote(s, 0, 0, 8);
        if head.0 != 8 {
            let p = head.2 + 1;
            let q = head.2 + 2;
            lemma_groups_no_quote(s, q, 0, (7 - head.0) as nat);
            assert(s[head.2 as int] == ':');
            assert(s[p as int] == ':');
        }
    }
}

/// A STIX pattern is the opening for the indicator's kind, the trimmed
/// indicator with each single quote escaped, and `']`: hashes and IP
/// addresses never hold a quote, so escaping changes only URLs, domains and
/// unrecognized text.
pub proof fn law_pattern_shape(raw: Seq<char>)
    ensures
        pattern_spec(raw) == pattern_prefix(kind_of(trimmed(raw))) + escape_quotes(trimmed(raw)) + "']"@,
{
    let s = trimmed(raw);
    match kind_of(s) {
        IndicatorKind::Md5 | IndicatorKind::Sha1 | IndicatorKind::Sha256 | IndicatorKind::Ipv4 | IndicatorKind::Ipv6 => {
            lemma_plain_kinds_no_quote(s);
            lemma_escape_no_quote(s);
        },
        _ => {},
    }
}

/// Each kind of indicator is matched on the STIX object and property of
/// that kind: hashes on the file's hash of that algorithm, addresses on
/// `ipv4-addr` / `ipv6-addr`, URLs on `url`, domains on `domain-name`, and
/// anything else on the custom `x-umbra` type.
pub proof fn law_pattern_prefix_names_the_kind()
    ensures
        pattern_prefix(IndicatorKind::Md5) == "[file:hashes.MD5 = '"@,
        pattern_prefix(IndicatorKind::Sha1) == "[file:hashes.'SHA-1' = '"@,
        pattern_prefix(IndicatorKind::Sha256) == "[file:hashes.'SHA-256' = '"@,
        pattern_prefix(IndicatorKind::Ipv4) == "[ipv4-addr:value = '"@,
        pattern_prefix(IndicatorKind::Ipv6) == "[ipv6-addr:value = '"@,
        pattern_prefix(IndicatorKind::Url) == "[url:value = '"@,
        pattern_prefix(IndicatorKind::Domain) == "[domain-name:value = '"@,
        pattern_prefix(IndicatorKind::Unrecognized) == "[x-umbra:unrecognized-indicator = '"@,
{
}

} // verus!
