//! Plan ids: `<yymmdd>-<six lowercase letters>`, e.g. `260919-qwerty`.
//!
//! The date half is `yymmdd`, most significant first, so string order is
//! date order. The letters half is random, drawn by the caller, because
//! parallel worktrees branched off one commit would collide on any
//! "next number in sequence" scheme.

use vstd::prelude::*;

use crate::text::{chars_of, is_digit, is_digit_exec, push_str, slice_vec, split_char, split_char_vec, string_of};

verus! {

/// How many letters follow the date.
pub const LETTERS: usize = 6;

/// The calendar date `days` after 1970-01-01, proleptic Gregorian: the
/// year, the month `1..=12` and the day `1..=31`, counted with 400-year
/// eras of 146097 days, each year taken from March so that the leap day
/// falls last.
pub open spec fn civil_spec(days: int) -> (int, int, int) {
    let z = days + 719468;
    let era = z / 146097;
    let doe = z - era * 146097;
    let yoe = (doe - doe / 1460 + doe / 36524 - doe / 146096) / 365;
    let y = yoe + era * 400;
    let doy = doe - (365 * yoe + yoe / 4 - yoe / 100);
    let mp = (5 * doy + 2) / 153;
    let d = doy - (153 * mp + 2) / 5 + 1;
    let m = if mp < 10 { mp + 3 } else { mp - 9 };
    (if m <= 2 { y + 1 } else { y }, m, d)
}

/// The Gregorian calendar repeats every 400 years, which are 146097 days:
/// that many days later it is the same month and day, 400 years on.
pub proof fn lemma_calendar_repeats_every_400_years(days: int)
    ensures
        civil_spec(days + 146097) == (civil_spec(days).0 + 400, civil_spec(days).1, civil_spec(days).2),
{
    let z = days + 719468;
    assert((z + 146097) / 146097 == z / 146097 + 1) by (nonlinear_arith);
}

/// Days since 1970-01-01 to a calendar date.
pub fn civil_from_days(days: i64) -> (r: (i64, u32, u32))
    requires
        -1_000_000_000_000 <= days <= 1_000_000_000_000,
    ensures
        r.0 == civil_spec(days as int).0,
        r.1 == civil_spec(days as int).1,
        r.2 == civil_spec(days as int).2,
        1 <= r.1 <= 12,
        1 <= r.2 <= 31,
{
    let z: i64 = days + 719468;
    let era: i64 = if z >= 0 {
        z / 146097
    } else {
        let q: i64 = (-z + 146096) / 146097;
        assert(-q == z / 146097) by (nonlinear_arith)
            requires
                z < 0,
                q == (-z + 146096) / 146097,
        ;
        -q
    };
    assert(0 <= z - era * 146097 < 146097) by (nonlinear_arith)
        requires
            era == z / 146097,
    ;
    let doe: u64 = (z - era * 146097) as u64;
    let yoe: u64 = (doe - doe / 1460 + doe / 36524 - doe / 146096) / 365;
    assert(yoe <= 399) by (nonlinear_arith)
        requires
            doe < 146097,
            yoe == (doe - doe / 1460 + doe / 36524 - doe / 146096) / 365,
    ;
    assert(365 * yoe + yoe / 4 - yoe / 100 <= doe && doe - (365 * yoe + yoe / 4 - yoe / 100) <= 365) by (nonlinear_arith)
        requires
            doe < 146097,
            yoe == (doe - doe / 1460 + doe / 36524 - doe / 146096) / 365,
    ;
    let y: i64 = yoe as i64 + era * 400;
    let doy: u64 = doe - (365 * yoe + yoe / 4 - yoe / 100);
    let mp: u64 = (5 * doy + 2) / 153;
    assert(mp <= 11) by (nonlinear_arith)
        requires
            doy <= 365,
            mp == (5 * doy + 2) / 153,
    ;
    assert((153 * mp + 2) / 5 <= doy && doy - (153 * mp + 2) / 5 + 1 <= 31) by (nonlinear_arith)
        requires
            doy <= 365,
            mp == (5 * doy + 2) / 153,
    ;
    let d: u32 = (doy - (153 * mp + 2) / 5 + 1) as u32;
    let m: u32 = if mp < 10 { (mp + 3) as u32 } else { (mp - 9) as u32 };
    (if m <= 2 { y + 1 } else { y }, m, d)
}

/// `YYYY-MM-DD`: three `-`-separated parts of four, two and two digits.
pub open spec fn is_iso_date(iso: Seq<char>) -> bool {
    let parts = split_char(iso, '-');
    &&& parts.len() == 3
    &&& parts[0].len() == 4 && parts[1].len() == 2 && parts[2].len() == 2
    &&& forall|k: int| 0 <= k < iso.len() ==> is_digit(#[trigger] iso[k]) || iso[k] == '-'
}

/// `2026-09-19` -> `260919`.
pub open spec fn stamp_spec(iso: Seq<char>) -> Seq<char> {
    let parts = split_char(iso, '-');
    parts[0].skip(2) + parts[1] + parts[2]
}

/// The message a date that is not `YYYY-MM-DD` is refused with.
pub open spec fn bad_date_message(iso: Seq<char>) -> Seq<char> {
    "expected a date as YYYY-MM-DD, got '"@ + iso + "'"@
}

/// The `yymmdd` half of an id from an ISO date.
pub fn stamp_from_iso(iso: &str) -> (r: Result<String, String>)
    ensures
        is_iso_date(iso@) ==> r is Ok && r->Ok_0@ == stamp_spec(iso@),
        !is_iso_date(iso@) ==> r is Err && r->Err_0@ == bad_date_message(iso@),
{
    let c = chars_of(iso);
    let parts = split_char_vec(&c, '-');
    let mut ok = parts.len() == 3;
    if ok {
        ok = parts[0].len() == 4 && parts[1].len() == 2 && parts[2].len() == 2;
    }
    if ok {
        let mut k: usize = 0;
        let mut all = true;
        while k < c.len()
            invariant
                k <= c@.len(),
                c@ == iso@,
                all ==> forall|j: int| 0 <= j < k ==> is_digit(#[trigger] c@[j]) || c@[j] == '-',
                !all ==> exists|j: int| 0 <= j < k && !(is_digit(#[trigger] c@[j]) || c@[j] == '-'),
            decreases c.len() - k,
        {
            if !(is_digit_exec(c[k]) || c[k] == '-') {
                all = false;
            }
            k = k + 1;
        }
        ok = all;
    }
    if !ok {
        let mut msg: Vec<char> = Vec::new();
        crate::text::push_str(&mut msg, "expected a date as YYYY-MM-DD, got '");
        crate::text::push_str(&mut msg, iso);
        crate::text::push_str(&mut msg, "'");
        assert(msg@ =~= bad_date_message(iso@));
        return Err(string_of(&msg));
    }
    let yy = slice_vec(&parts[0], 2, 4);
    let mut out = yy;
    crate::text::push_all(&mut out, &parts[1]);
    crate::text::push_all(&mut out, &parts[2]);
    assert(parts[0]@.subrange(2, 4) =~= parts[0]@.skip(2));
    assert(out@ =~= stamp_spec(iso@));
    Ok(string_of(&out))
}

/// `YYMMDD` of a calendar date: the year's last two digits, then month
/// and day, each zero-padded to two.
pub open spec fn two_digits(n: nat) -> Seq<char> {
    seq![(('0' as nat) + (n / 10) % 10) as char, (('0' as nat) + n % 10) as char]
}

/// The `yymmdd` stamp of the day `days` after 1970-01-01.
pub fn stamp_from_days(days: i64) -> (r: String)
    requires
        -1_000_000_000_000 <= days <= 1_000_000_000_000,
    ensures
        r@ == two_digits((civil_spec(days as int).0 % 100) as nat) + two_digits(
            civil_spec(days as int).1 as nat,
        ) + two_digits(civil_spec(days as int).2 as nat),
{
    let (y, m, d) = civil_from_days(days);
    let yy: u32 = if y >= 0 { (y % 100) as u32 } else {
        let q: i64 = (-y) % 100;
        if q == 0 { 0 } else { (100 - q) as u32 }
    };
    assert(yy == (y as int) % 100) by (nonlinear_arith)
        requires
            y >= 0 ==> yy == y % 100,
            y < 0 ==> (((-y) % 100 == 0 ==> yy == 0) && ((-y) % 100 != 0 ==> yy == 100 - (-y) % 100)),
    ;
    let mut out: Vec<char> = Vec::new();
    push_two(&mut out, yy);
    push_two(&mut out, m);
    push_two(&mut out, d);
    assert(out@ =~= two_digits((civil_spec(days as int).0 % 100) as nat) + two_digits(
        civil_spec(days as int).1 as nat,
    ) + two_digits(civil_spec(days as int).2 as nat));
    string_of(&out)
}

fn push_two(out: &mut Vec<char>, n: u32)
    requires
        n < 100,
    ensures
        final(out)@ == old(out)@ + two_digits(n as nat),
{
    let hi = ((n / 10) % 10) as u8;
    let lo = (n % 10) as u8;
    out.push(('0' as u8 + hi) as char);
    out.push(('0' as u8 + lo) as char);
    assert(final(out)@ =~= old(out)@ + two_digits(n as nat));
}

/// The `yymmdd` stamp of the day `days` after 1970-01-01, as a spec.
pub open spec fn days_stamp(days: int) -> Seq<char> {
    two_digits((civil_spec(days).0 % 100) as nat) + two_digits(civil_spec(days).1 as nat) + two_digits(
        civil_spec(days).2 as nat,
    )
}

/// The lowercase ASCII letters among `bytes`, in order: the bytes a draw of
/// random bytes keeps.
pub open spec fn lowercase_bytes(bytes: Seq<u8>) -> Seq<char>
    decreases bytes.len(),
{
    if bytes.len() == 0 {
        Seq::empty()
    } else {
        let rest = lowercase_bytes(bytes.drop_last());
        let b = bytes.last();
        if 97 <= b <= 122 { rest.push(b as char) } else { rest }
    }
}

/// `have` topped up with the lowercase letters of `block`, stopping at `n`
/// letters: one round of drawing the letters half from random bytes. The
/// caller draws blocks until the result is `n` long.
pub fn letters_from(have: &str, block: &[u8], n: usize) -> (r: String)
    requires
        have@.len() <= n,
    ensures
        r@ == (have@ + lowercase_bytes(block@)).take(
            if have@.len() + lowercase_bytes(block@).len() < n { (have@.len() + lowercase_bytes(block@).len()) as int } else { n as int },
        ),
{
    let mut out = chars_of(have);
    let mut k: usize = 0;
    while k < block.len() && out.len() < n
        invariant
            k <= block@.len(),
            out@.len() <= n,
            out@.len() <= have@.len() + lowercase_bytes(block@.take(k as int)).len(),
            out@ == (have@ + lowercase_bytes(block@.take(k as int))).take(out@.len() as int),
            out@.len() == have@.len() + lowercase_bytes(block@.take(k as int)).len() || out@.len() == n,
            have@.len() <= n,
        decreases block.len() - k,
    {
        let b = block[k];
        proof {
            assert(block@.take(k + 1).drop_last() == block@.take(k as int));
            assert(block@.take(k + 1).last() == b);
        }
        if b >= 97 && b <= 122 {
            out.push(b as char);
        }
        k = k + 1;
        assert(out@ =~= (have@ + lowercase_bytes(block@.take(k as int))).take(out@.len() as int));
    }
    proof {
        lemma_lowercase_prefix(block@, k as int);
        let all = have@ + lowercase_bytes(block@);
        let part = have@ + lowercase_bytes(block@.take(k as int));
        assert forall|i: int| 0 <= i < part.len() implies #[trigger] part[i] == all[i] by {
            if i >= have@.len() {
                assert(part[i] == lowercase_bytes(block@.take(k as int))[i - have@.len()]);
            }
        }
        if k == block@.len() {
            assert(block@.take(k as int) == block@);
        }
        assert forall|i: int| 0 <= i < out@.len() implies #[trigger] out@[i] == all[i] by {
            assert(out@[i] == part[i]);
        }
        assert(out@ =~= all.take(out@.len() as int));
    }
    string_of(&out)
}

/// The letters of a prefix of `bytes` begin the letters of `bytes`.
proof fn lemma_lowercase_prefix(bytes: Seq<u8>, k: int)
    requires
        0 <= k <= bytes.len(),
    ensures
        lowercase_bytes(bytes.take(k)).len() <= lowercase_bytes(bytes).len(),
        forall|i: int| 0 <= i < lowercase_bytes(bytes.take(k)).len() ==>
            #[trigger] lowercase_bytes(bytes.take(k))[i] == lowercase_bytes(bytes)[i],
    decreases bytes.len() - k,
{
    if k < bytes.len() {
        lemma_lowercase_prefix(bytes, k + 1);
        assert(bytes.take(k + 1).drop_last() == bytes.take(k));
        let a = lowercase_bytes(bytes.take(k));
        let b = lowercase_bytes(bytes.take(k + 1));
        assert(b.len() >= a.len());
        assert forall|i: int| 0 <= i < a.len() implies #[trigger] a[i] == lowercase_bytes(bytes)[i] by {
            assert(a[i] == b[i]);
        }
    } else {
        assert(bytes.take(k) == bytes);
    }
}

/// Mints an id from `date` (an ISO `YYYY-MM-DD`) or, without one, the day
/// `today_days` after 1970-01-01, and the drawn `letters`.
pub fn mint(date: Option<&str>, today_days: i64, letters: &str) -> (r: Result<String, String>)
    requires
        -1_000_000_000_000 <= today_days <= 1_000_000_000_000,
    ensures
        match date {
            Some(iso) => if is_iso_date(iso@) {
                r is Ok && r->Ok_0@ == stamp_spec(iso@) + "-"@ + letters@
            } else {
                r is Err && r->Err_0@ == bad_date_message(iso@)
            },
            None => r is Ok && r->Ok_0@ == days_stamp(today_days as int) + "-"@ + letters@,
        },
{
    let stamp = match date {
        Some(iso) => match stamp_from_iso(iso) {
            Ok(s) => s,
            Err(e) => return Err(e),
        },
        None => stamp_from_days(today_days),
    };
    let mut out = chars_of(stamp.as_str());
    push_str(&mut out, "-");
    push_str(&mut out, letters);
    Ok(string_of(&out))
}

} // verus!
