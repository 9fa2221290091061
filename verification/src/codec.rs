//! Persistence format for [`Settings`]: a human-readable document of decimal
//! numbers, one per line, in a fixed field order.
//!
//! Lines, in order: window length (ms), decay per ms, key size, key spacing,
//! the four components of the key color, the four components of the
//! background color, the number of tracked keys, then one line per tracked
//! key code. Decoding validates every field, so a corrupt document yields
//! `None` and the caller falls back to default settings instead of failing.
//!
//! Round trip is proved: decoding a document encoded from any well-formed
//! [`Settings`] value reproduces that value exactly
//! ([`lemma_settings_round_trip`]).

use vstd::prelude::*;

use crate::settings::{Settings, SettingsModel, UColor32, settings_wf};

verus! {

/// ASCII decimal digit.
pub open spec fn is_digit(b: u8) -> bool {
    48 <= b <= 57
}

/// Canonical decimal digits of `n`, most significant first, no leading
/// zeros (a lone zero for 0).
pub open spec fn digits_of(n: nat) -> Seq<u8>
    decreases n,
{
    if n < 10 {
        seq![(48 + n) as u8]
    } else {
        digits_of(n / 10).push((48 + n % 10) as u8)
    }
}

/// The document encoding a sequence of values: each one as canonical
/// decimal digits followed by a newline.
pub open spec fn lines_of(ns: Seq<u64>) -> Seq<u8>
    decreases ns.len(),
{
    if ns.len() == 0 {
        Seq::empty()
    } else {
        digits_of(ns[0] as nat).push(10u8) + lines_of(ns.drop_first())
    }
}

/// Length of the run of digits at the front of `bs`.
pub open spec fn digit_run_len(bs: Seq<u8>) -> int
    decreases bs.len(),
{
    if bs.len() == 0 || !is_digit(bs[0]) {
        0
    } else {
        1 + digit_run_len(bs.drop_first())
    }
}

/// Value of a digit sequence, most significant first.
pub open spec fn parse_nat(ds: Seq<u8>) -> nat
    decreases ds.len(),
{
    if ds.len() == 0 {
        0
    } else {
        parse_nat(ds.drop_last()) * 10 + (if ds.last() >= 48 {
            (ds.last() - 48) as nat
        } else {
            0nat
        })
    }
}

/// Parses a whole document into its values: each line must be a run of 1 to
/// 20 digits followed by a newline, with a value that fits `u64`.
pub open spec fn parse_lines(bs: Seq<u8>) -> Option<Seq<u64>>
    decreases bs.len(),
    via parse_lines_dec
{
    if bs.len() == 0 {
        Some(Seq::empty())
    } else {
        let k = digit_run_len(bs);
        if k == 0 || k > 20 {
            None
        } else if k >= bs.len() || bs[k] != 10 {
            None
        } else {
            let v = parse_nat(bs.subrange(0, k));
            if v > u64::MAX {
                None
            } else {
                match parse_lines(bs.subrange(k + 1, bs.len() as int)) {
                    Some(rest) => Some(seq![v as u64] + rest),
                    None => None,
                }
            }
        }
    }
}

#[via_fn]
proof fn parse_lines_dec(bs: Seq<u8>) {
    lemma_digit_run_len_bounds(bs);
}

/// The digit run is never longer than the sequence.
pub proof fn lemma_digit_run_len_bounds(bs: Seq<u8>)
    ensures
        0 <= digit_run_len(bs) <= bs.len(),
    decreases bs.len(),
{
    if bs.len() > 0 && is_digit(bs[0]) {
        lemma_digit_run_len_bounds(bs.drop_first());
    }
}

/// The values a [`Settings`] document carries, in field order.
pub open spec fn settings_nums(s: SettingsModel) -> Seq<u64> {
    seq![
        s.window_ms,
        s.decay_per_ms as u64,
        s.key_size as u64,
        s.key_spacing as u64,
        s.key_color.r as u64,
        s.key_color.g as u64,
        s.key_color.b as u64,
        s.key_color.a as u64,
        s.background_color.r as u64,
        s.background_color.g as u64,
        s.background_color.b as u64,
        s.background_color.a as u64,
        s.tracked_keys.len() as u64,
    ] + s.tracked_keys.map_values(|k: u32| k as u64)
}

/// The canonical document encoding a settings value.
pub open spec fn settings_bytes(s: SettingsModel) -> Seq<u8> {
    lines_of(settings_nums(s))
}

/// Validation of parsed values: field ranges, a matching key count, and
/// distinct keys; the reconstructed settings value is well-formed.
pub open spec fn nums_to_settings(ns: Seq<u64>) -> Option<SettingsModel> {
    if ns.len() < 13 {
        None
    } else {
        let keys = ns.subrange(13, ns.len() as int);
        if ns[0] >= 1 && ns[1] <= u32::MAX && ns[2] <= u32::MAX && ns[3] <= u32::MAX && ns[4]
            <= 255 && ns[5] <= 255 && ns[6] <= 255 && ns[7] <= 255 && ns[8] <= 255 && ns[9] <= 255
            && ns[10] <= 255 && ns[11] <= 255 && ns[12] == keys.len() && (forall|i: int|
            0 <= i < keys.len() ==> keys[i] <= u32::MAX) && (forall|i: int, j: int|
            0 <= i < j < keys.len() ==> keys[i] != keys[j]) {
            Some(
                SettingsModel {
                    tracked_keys: keys.map_values(|v: u64| v as u32),
                    window_ms: ns[0],
                    decay_per_ms: ns[1] as u32,
                    key_color: UColor32 {
                        r: ns[4] as u8,
                        g: ns[5] as u8,
                        b: ns[6] as u8,
                        a: ns[7] as u8,
                    },
                    background_color: UColor32 {
                        r: ns[8] as u8,
                        g: ns[9] as u8,
                        b: ns[10] as u8,
                        a: ns[11] as u8,
                    },
                    key_size: ns[2] as u32,
                    key_spacing: ns[3] as u32,
                },
            )
        } else {
            None
        }
    }
}

/// What decoding a document yields.
pub open spec fn decode_spec(bs: Seq<u8>) -> Option<SettingsModel> {
    match parse_lines(bs) {
        Some(ns) => nums_to_settings(ns),
        None => None,
    }
}

/// Ten to the power of `k`.
pub open spec fn pow10(k: nat) -> nat
    decreases k,
{
    if k == 0 {
        1nat
    } else {
        10 * pow10((k - 1) as nat)
    }
}

/// Canonical digits: at least one, all digits.
pub proof fn lemma_digits_shape(n: nat)
    ensures
        digits_of(n).len() >= 1,
        forall|i: int| 0 <= i < digits_of(n).len() ==> is_digit(#[trigger] digits_of(n)[i]),
    decreases n,
{
    if n >= 10 {
        lemma_digits_shape(n / 10);
        assert forall|i: int| 0 <= i < digits_of(n).len() implies is_digit(
            #[trigger] digits_of(n)[i],
        ) by {
            if i < digits_of(n / 10).len() {
                assert(digits_of(n)[i] == digits_of(n / 10)[i]);
            }
        }
    }
}

/// A value below `10^k` has at most `k` digits.
pub proof fn lemma_digits_len(n: nat, k: nat)
    requires
        k >= 1,
        n < pow10(k),
    ensures
        digits_of(n).len() <= k,
    decreases k,
{
    if n < 10 {
    } else {
        assert(pow10(k) == 10 * pow10((k - 1) as nat));
        assert(n / 10 < pow10((k - 1) as nat)) by (nonlinear_arith)
            requires
                n < 10 * pow10((k - 1) as nat),
        ;
        assert(k >= 2) by {
            if k == 1 {
                assert(pow10(1nat) == 10);
            }
        }
        lemma_digits_len(n / 10, (k - 1) as nat);
    }
}

/// Parsing inverts printing: the value of the canonical digits of `n` is `n`.
pub proof fn lemma_parse_digits(n: nat)
    ensures
        parse_nat(digits_of(n)) == n,
    decreases n,
{
    if n < 10 {
        let ds = digits_of(n);
        assert(ds.last() == (48 + n) as u8);
        assert(ds.drop_last() =~= Seq::<u8>::empty());
        assert(parse_nat(ds) == parse_nat(Seq::<u8>::empty()) * 10 + ((48 + n) as u8 - 48));
        assert(parse_nat(Seq::<u8>::empty()) == 0);
    } else {
        lemma_parse_digits(n / 10);
        let ds = digits_of(n);
        assert(ds.last() == (48 + n % 10) as u8);
        assert(ds.drop_last() =~= digits_of(n / 10));
        assert(parse_nat(ds) == parse_nat(digits_of(n / 10)) * 10 + ((48 + n % 10) as u8 - 48));
        assert(parse_nat(ds) == (n / 10) * 10 + n % 10);
    }
}

/// The value of a digit run is below `10^len`.
pub proof fn lemma_parse_nat_bound(ds: Seq<u8>)
    requires
        forall|i: int| 0 <= i < ds.len() ==> is_digit(#[trigger] ds[i]),
    ensures
        parse_nat(ds) < pow10(ds.len() as nat),
    decreases ds.len(),
{
    if ds.len() > 0 {
        lemma_parse_nat_bound(ds.drop_last());
        assert(parse_nat(ds.drop_last()) <= pow10((ds.len() - 1) as nat) - 1);
        assert(pow10(ds.len() as nat) == 10 * pow10((ds.len() - 1) as nat));
        assert(parse_nat(ds) <= (pow10((ds.len() - 1) as nat) - 1) * 10 + 9) by (nonlinear_arith)
            requires
                parse_nat(ds.drop_last()) <= pow10((ds.len() - 1) as nat) - 1,
                parse_nat(ds) == parse_nat(ds.drop_last()) * 10 + (if ds.last() >= 48 {
                    (ds.last() - 48) as nat
                } else {
                    0nat
                }),
                ds.last() <= 57,
        ;
    }
}

/// The digit run of digits followed by a non-digit (or nothing) is exactly
/// those digits.
pub proof fn lemma_digit_run_prefix(d: Seq<u8>, t: Seq<u8>)
    requires
        forall|i: int| 0 <= i < d.len() ==> is_digit(#[trigger] d[i]),
        t.len() == 0 || !is_digit(t[0]),
    ensures
        digit_run_len(d + t) == d.len(),
    decreases d.len(),
{
    if d.len() == 0 {
        assert(d + t =~= t);
    } else {
        lemma_digit_run_prefix(d.drop_first(), t);
        assert((d + t).drop_first() =~= d.drop_first() + t);
        assert((d + t)[0] == d[0]);
    }
}

/// Parsing a document inverts printing it: line by line, every printed
/// value is recovered.
pub proof fn lemma_parse_lines_of(ns: Seq<u64>)
    ensures
        parse_lines(lines_of(ns)) == Some(ns),
    decreases ns.len(),
{
    if ns.len() == 0 {
        assert(parse_lines(lines_of(ns)) == Some(Seq::<u64>::empty()));
        assert(Seq::<u64>::empty() =~= ns);
    } else {
        let n0 = ns[0] as nat;
        let d = digits_of(n0);
        let bs = lines_of(ns);
        let tail = lines_of(ns.drop_first());
        lemma_digits_shape(n0);
        assert(u64::MAX < pow10(20)) by {
            reveal_with_fuel(pow10, 21);
        }
        lemma_digits_len(n0, 20);
        assert(bs =~= d + (seq![10u8] + tail));
        lemma_digit_run_prefix(d, seq![10u8] + tail);
        let k = digit_run_len(bs);
        assert(k == d.len());
        assert(1 <= k <= 20);
        assert(bs[k] == (seq![10u8] + tail)[0]);
        assert(bs.subrange(0, k) =~= d);
        lemma_parse_digits(n0);
        assert(parse_nat(bs.subrange(0, k)) == n0);
        assert(bs.subrange(k + 1, bs.len() as int) =~= tail);
        lemma_parse_lines_of(ns.drop_first());
        assert(parse_lines(bs) == Some(seq![ns[0]] + ns.drop_first()));
        assert(seq![ns[0]] + ns.drop_first() =~= ns);
    }
}

/// Printing one more value appends one more line.
pub proof fn lemma_lines_of_push(ns: Seq<u64>, n: u64)
    ensures
        lines_of(ns.push(n)) == lines_of(ns) + digits_of(n as nat).push(10u8),
    decreases ns.len(),
{
    let line = digits_of(n as nat).push(10u8);
    if ns.len() == 0 {
        assert(ns.push(n)[0] == n);
        assert(ns.push(n).drop_first() =~= Seq::<u64>::empty());
        assert(lines_of(ns.push(n)) == line + lines_of(Seq::<u64>::empty()));
        assert(lines_of(ns.push(n)) =~= lines_of(ns) + line);
    } else {
        lemma_lines_of_push(ns.drop_first(), n);
        assert(ns.push(n).drop_first() =~= ns.drop_first().push(n));
        assert(ns.push(n)[0] == ns[0]);
        let head = digits_of(ns[0] as nat).push(10u8);
        assert(lines_of(ns.push(n)) == head + lines_of(ns.drop_first().push(n)));
        assert(lines_of(ns.push(n)) == head + (lines_of(ns.drop_first()) + line));
        assert(lines_of(ns) == head + lines_of(ns.drop_first()));
        assert(head + (lines_of(ns.drop_first()) + line) =~= (head + lines_of(ns.drop_first()))
            + line);
    }
}

/// Appends the canonical decimal digits of `n` and a newline.
fn push_line(out: &mut Vec<u8>, n: u64)
    ensures
        final(out)@ == old(out)@ + digits_of(n as nat).push(10u8),
{
    if n == 0 {
        out.push(48);
        out.push(10);
        proof {
            assert(digits_of(0) =~= seq![48u8]);
            assert(out@ =~= old(out)@ + digits_of(0).push(10u8));
        }
        return ;
    }
    let mut tmp: Vec<u8> = Vec::new();
    let mut v: u64 = n;
    proof {
        assert(Seq::<u8>::empty().reverse() =~= Seq::<u8>::empty());
        assert(digits_of(n as nat) =~= digits_of(v as nat) + tmp@.reverse());
    }
    while v > 0
        invariant
            digits_of(n as nat) == (if v > 0 {
                digits_of(v as nat) + tmp@.reverse()
            } else {
                tmp@.reverse()
            }),
        decreases v,
    {
        let ghost prev_v = v;
        let ghost prev_tmp = tmp@;
        let d: u8 = 48 + (v % 10) as u8;
        tmp.push(d);
        v = v / 10;
        proof {
            assert(tmp@.reverse() =~= seq![d] + prev_tmp.reverse());
            if prev_v < 10 {
                assert(digits_of(prev_v as nat) =~= seq![d]);
                assert(digits_of(n as nat) =~= tmp@.reverse());
            } else {
                assert(digits_of(prev_v as nat) == digits_of((prev_v / 10) as nat).push(d));
                assert(digits_of(prev_v as nat) + prev_tmp.reverse() =~= digits_of(v as nat) + (
                seq![d] + prev_tmp.reverse()));
                assert(digits_of(n as nat) =~= digits_of(v as nat) + tmp@.reverse());
            }
        }
    }
    let count = tmp.len();
    let mut j: usize = count;
    while j > 0
        invariant
            j <= count,
            count == tmp@.len(),
            out@ == old(out)@ + tmp@.reverse().take(count - j),
        decreases j,
    {
        let b = tmp[j - 1];
        out.push(b);
        proof {
            assert(tmp@.reverse()[count - j] == tmp@[j - 1]);
            assert(tmp@.reverse().take(count - j + 1) =~= tmp@.reverse().take(count - j).push(b));
            assert(out@ =~= old(out)@ + tmp@.reverse().take(count - j + 1));
        }
        j = j - 1;
    }
    out.push(10);
    proof {
        assert(tmp@.reverse().take(count as int) =~= tmp@.reverse());
        assert(out@ =~= old(out)@ + digits_of(n as nat).push(10u8));
    }
}

/// Serializes a settings value into its canonical document.
pub fn encode_settings(s: &Settings) -> (out: Vec<u8>)
    ensures
        out@ == settings_bytes(s@),
{
    let mut nums: Vec<u64> = Vec::new();
    nums.push(s.window_ms);
    nums.push(s.decay_per_ms as u64);
    nums.push(s.key_size as u64);
    nums.push(s.key_spacing as u64);
    nums.push(s.key_color.r as u64);
    nums.push(s.key_color.g as u64);
    nums.push(s.key_color.b as u64);
    nums.push(s.key_color.a as u64);
    nums.push(s.background_color.r as u64);
    nums.push(s.background_color.g as u64);
    nums.push(s.background_color.b as u64);
    nums.push(s.background_color.a as u64);
    nums.push(s.tracked_keys.len() as u64);
    let ghost head = nums@;
    let key_count = s.tracked_keys.len();
    let mut i: usize = 0;
    while i < key_count
        invariant
            i <= key_count,
            key_count == s.tracked_keys@.len(),
            nums@ == head + s.tracked_keys@.take(i as int).map_values(|k: u32| k as u64),
        decreases key_count - i,
    {
        nums.push(s.tracked_keys[i] as u64);
        proof {
            assert(s.tracked_keys@.take(i as int + 1).map_values(|k: u32| k as u64)
                =~= s.tracked_keys@.take(i as int).map_values(|k: u32| k as u64).push(
                s.tracked_keys@[i as int] as u64,
            ));
            assert(nums@ =~= head + s.tracked_keys@.take(i as int + 1).map_values(
                |k: u32| k as u64,
            ));
        }
        i = i + 1;
    }
    proof {
        assert(s.tracked_keys@.take(key_count as int) =~= s.tracked_keys@);
        assert(nums@ =~= settings_nums(s@));
    }
    let mut out: Vec<u8> = Vec::new();
    let total = nums.len();
    let mut j: usize = 0;
    while j < total
        invariant
            j <= total,
            total == nums@.len(),
            nums@ == settings_nums(s@),
            out@ == lines_of(nums@.take(j as int)),
        decreases total - j,
    {
        push_line(&mut out, nums[j]);
        proof {
            assert(nums@.take(j as int + 1) =~= nums@.take(j as int).push(nums@[j as int]));
            lemma_lines_of_push(nums@.take(j as int), nums@[j as int]);
        }
        j = j + 1;
    }
    proof {
        assert(nums@.take(total as int) =~= nums@);
    }
    out
}

/// Parses a document into its values, exactly as [`parse_lines`] does.
fn parse_lines_exec(bytes: &Vec<u8>) -> (r: Option<Vec<u64>>)
    ensures
        match r {
            Some(v) => parse_lines(bytes@) == Some(v@),
            None => parse_lines(bytes@) is None,
        },
{
    let len = bytes.len();
    let mut out: Vec<u64> = Vec::new();
    let mut p: usize = 0;
    proof {
        assert(bytes@.subrange(0, len as int) =~= bytes@);
        match parse_lines(bytes@) {
            Some(rest) => {
                assert(out@ + rest =~= rest);
            },
            None => {},
        }
    }
    while p < len
        invariant
            p <= len,
            len == bytes@.len(),
            parse_lines(bytes@) == (match parse_lines(
                bytes@.subrange(p as int, len as int),
            ) {
                Some(rest) => Some(out@ + rest),
                None => None::<Seq<u64>>,
            }),
        decreases len - p,
    {
        let ghost sub = bytes@.subrange(p as int, len as int);
        let mut q: usize = p;
        while q < len && bytes[q] >= 48 && bytes[q] <= 57
            invariant
                p <= q <= len,
                len == bytes@.len(),
                forall|t: int| p <= t < q ==> is_digit(#[trigger] bytes@[t]),
            decreases len - q,
        {
            q = q + 1;
        }
        let k = q - p;
        proof {
            assert(sub.take(k as int) =~= bytes@.subrange(p as int, q as int));
            assert(forall|i: int|
                0 <= i < k ==> is_digit(#[trigger] sub.take(k as int)[i]));
            let rest_part = sub.skip(k as int);
            assert(rest_part =~= bytes@.subrange(q as int, len as int));
            assert(rest_part.len() == 0 || !is_digit(rest_part[0]));
            lemma_digit_run_prefix(sub.take(k as int), rest_part);
            assert(sub.take(k as int) + rest_part =~= sub);
            assert(digit_run_len(sub) == k);
        }
        if k == 0 || k > 20 {
            return None;
        }
        if q >= len || bytes[q] != 10 {
            proof {
                if q < len {
                    assert(sub[k as int] == bytes@[q as int]);
                }
            }
            return None;
        }
        proof {
            assert(sub[k as int] == bytes@[q as int]);
        }
        let ghost run = bytes@.subrange(p as int, q as int);
        proof {
            lemma_parse_nat_bound(run);
            assert(pow10(20) < u128::MAX) by {
                reveal_with_fuel(pow10, 21);
            }
            lemma_pow10_increases(run.len() as nat, 20);
        }
        let mut acc: u128 = 0;
        let mut t: usize = p;
        while t < q
            invariant
                p <= t <= q,
                q <= len,
                len == bytes@.len(),
                q - p <= 20,
                forall|x: int| p <= x < q ==> is_digit(#[trigger] bytes@[x]),
                acc == parse_nat(bytes@.subrange(p as int, t as int)),
            decreases q - t,
        {
            proof {
                let pref = bytes@.subrange(p as int, t as int + 1);
                assert(pref.drop_last() =~= bytes@.subrange(p as int, t as int));
                assert(pref.last() == bytes@[t as int]);
                lemma_parse_nat_bound(pref);
                lemma_pow10_increases(pref.len() as nat, 20);
                assert(pow10(20) * 10 < u128::MAX) by {
                    reveal_with_fuel(pow10, 21);
                }
            }
            acc = acc * 10 + (bytes[t] - 48) as u128;
            t = t + 1;
        }
        proof {
            assert(parse_nat(sub.subrange(0, k as int)) == parse_nat(run)) by {
                assert(sub.subrange(0, k as int) =~= run);
            }
        }
        if acc > u64::MAX as u128 {
            return None;
        }
        let ghost prev_out = out@;
        out.push(acc as u64);
        p = q + 1;
        proof {
            assert(sub.subrange(k as int + 1, sub.len() as int) =~= bytes@.subrange(
                p as int,
                len as int,
            ));
            match parse_lines(bytes@.subrange(p as int, len as int)) {
                Some(rest) => {
                    assert(parse_lines(sub) == Some(seq![acc as u64] + rest));
                    assert(prev_out + (seq![acc as u64] + rest) =~= out@ + rest);
                },
                None => {
                    assert(parse_lines(sub) is None);
                },
            }
        }
    }
    proof {
        assert(bytes@.subrange(len as int, len as int) =~= Seq::<u8>::empty());
        assert(out@ + Seq::<u64>::empty() =~= out@);
    }
    Some(out)
}

/// Powers of ten increase with the exponent.
proof fn lemma_pow10_increases(a: nat, b: nat)
    requires
        a <= b,
    ensures
        pow10(a) <= pow10(b),
    decreases b,
{
    if a < b {
        lemma_pow10_increases(a, (b - 1) as nat);
        lemma_pow10_pos((b - 1) as nat);
    }
}

/// Powers of ten are positive.
proof fn lemma_pow10_pos(k: nat)
    ensures
        pow10(k) >= 1,
    decreases k,
{
    if k > 0 {
        lemma_pow10_pos((k - 1) as nat);
    }
}

/// Deserializes a settings document. Exactly the documents produced by
/// [`encode_settings`] from a well-formed value are accepted; anything else
/// (bad syntax, an out-of-range field, a key count mismatch, repeated keys)
/// yields `None`, and the caller falls back to defaults.
pub fn decode_settings(bytes: &Vec<u8>) -> (r: Option<Settings>)
    ensures
        match r {
            Some(s) => decode_spec(bytes@) == Some(s@) && s.wf(),
            None => decode_spec(bytes@) is None,
        },
{
    let nums = match parse_lines_exec(bytes) {
        Some(v) => v,
        None => {
            return None;
        },
    };
    if nums.len() < 13 {
        return None;
    }
    let ghost ns = nums@;
    let ghost spec_keys = ns.subrange(13, ns.len() as int);
    if nums[0] < 1 {
        return None;
    }
    if nums[1] > 0xffff_ffff || nums[2] > 0xffff_ffff || nums[3] > 0xffff_ffff {
        return None;
    }
    if nums[4] > 255 || nums[5] > 255 || nums[6] > 255 || nums[7] > 255 || nums[8] > 255
        || nums[9] > 255 || nums[10] > 255 || nums[11] > 255 {
        return None;
    }
    let key_total = nums.len() - 13;
    if nums[12] != key_total as u64 {
        return None;
    }
    let mut keys: Vec<u32> = Vec::new();
    let mut i: usize = 13;
    while i < nums.len()
        invariant
            13 <= i <= nums@.len(),
            ns == nums@,
            parse_lines(bytes@) == Some(ns),
            spec_keys == ns.subrange(13, ns.len() as int),
            keys@.len() == i - 13,
            forall|x: int| 13 <= x < i ==> ns[x] <= u32::MAX,
            forall|x: int| 0 <= x < i - 13 ==> keys@[x] == spec_keys[x] as u32,
        decreases nums@.len() - i,
    {
        let v = nums[i];
        if v > 0xffff_ffff {
            proof {
                assert(spec_keys[i - 13] > u32::MAX);
            }
            return None;
        }
        keys.push(v as u32);
        i = i + 1;
    }
    let mut a: usize = 0;
    while a < keys.len()
        invariant
            a <= keys@.len(),
            ns == nums@,
            ns.len() >= 13,
            parse_lines(bytes@) == Some(ns),
            spec_keys == ns.subrange(13, ns.len() as int),
            keys@.len() == spec_keys.len(),
            forall|x: int| 0 <= x < keys@.len() ==> spec_keys[x] <= u32::MAX,
            forall|x: int| 0 <= x < keys@.len() ==> keys@[x] == spec_keys[x] as u32,
            forall|x: int, y: int|
                0 <= x < y < keys@.len() && x < a ==> keys@[x] != keys@[y],
        decreases keys@.len() - a,
    {
        let mut b: usize = a + 1;
        while b < keys.len()
            invariant
                a < b <= keys@.len(),
                ns == nums@,
                ns.len() >= 13,
                parse_lines(bytes@) == Some(ns),
                spec_keys == ns.subrange(13, ns.len() as int),
                keys@.len() == spec_keys.len(),
                forall|x: int| 0 <= x < keys@.len() ==> spec_keys[x] <= u32::MAX,
                forall|x: int| 0 <= x < keys@.len() ==> keys@[x] == spec_keys[x] as u32,
                forall|y: int| a < y < b ==> keys@[y] != keys@[a as int],
            decreases keys@.len() - b,
        {
            if keys[a] == keys[b] {
                proof {
                    assert(spec_keys[a as int] == keys@[a as int] as u64);
                    assert(spec_keys[b as int] == keys@[b as int] as u64);
                }
                return None;
            }
            b = b + 1;
        }
        a = a + 1;
    }
    proof {
        assert forall|x: int, y: int|
            0 <= x < y < spec_keys.len() implies spec_keys[x] != spec_keys[y] by {
            assert(keys@[x] != keys@[y]);
            assert(spec_keys[x] == keys@[x] as u64);
            assert(spec_keys[y] == keys@[y] as u64);
        }
    }
    let s = Settings {
        tracked_keys: keys,
        window_ms: nums[0],
        decay_per_ms: nums[1] as u32,
        key_color: UColor32 {
            r: nums[4] as u8,
            g: nums[5] as u8,
            b: nums[6] as u8,
            a: nums[7] as u8,
        },
        background_color: UColor32 {
            r: nums[8] as u8,
            g: nums[9] as u8,
            b: nums[10] as u8,
            a: nums[11] as u8,
        },
        key_size: nums[2] as u32,
        key_spacing: nums[3] as u32,
    };
    proof {
        let decoded = nums_to_settings(ns);
        assert(spec_keys.map_values(|v: u64| v as u32) =~= s.tracked_keys@);
        assert(decoded == Some(s@));
    }
    Some(s)
}

/// Startup policy for persisted configuration: a document that decodes is
/// used; an unreadable or corrupt one falls back to the default settings
/// instead of failing startup.
pub fn settings_from_document(bytes: &Vec<u8>) -> (s: Settings)
    ensures
        s.wf(),
        decode_spec(bytes@) is Some ==> Some(s@) == decode_spec(bytes@),
        decode_spec(bytes@) is None ==> s@ == crate::settings::default_settings_model(),
{
    match decode_settings(bytes) {
        Some(s) => s,
        None => Settings::default(),
    }
}

/// Round trip: decoding the document encoded from any well-formed settings
/// value reproduces the value exactly (idempotent persistence).
pub proof fn lemma_settings_round_trip(s: SettingsModel)
    requires
        settings_wf(s),
        s.tracked_keys.len() <= u64::MAX,
    ensures
        decode_spec(settings_bytes(s)) == Some(s),
{
    let ns = settings_nums(s);
    lemma_parse_lines_of(ns);
    let keys = ns.subrange(13, ns.len() as int);
    assert(keys =~= s.tracked_keys.map_values(|k: u32| k as u64));
    assert forall|i: int| 0 <= i < keys.len() implies keys[i] <= u32::MAX by {
        assert(keys[i] == s.tracked_keys[i] as u64);
    }
    assert forall|i: int, j: int| 0 <= i < j < keys.len() implies keys[i] != keys[j] by {
        assert(keys[i] == s.tracked_keys[i] as u64);
        assert(keys[j] == s.tracked_keys[j] as u64);
    }
    let decoded = nums_to_settings(ns);
    assert(decoded is Some);
    assert(keys.map_values(|v: u64| v as u32) =~= s.tracked_keys);
    assert(decoded == Some(s));
}

} // verus!
