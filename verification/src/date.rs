//! Date arithmetic on git's `%ci` timestamps.
use vstd::prelude::*;
use crate::text::{lemma_idx_of, lemma_parse_dec, chars_of, splitn, views, splitn_char, parse_signed, parse_unsigned, parse_i32, parse_u8, pad_signed, zero_pad, dec, push_i32_padded, push_u64_padded, push_range};

verus! {

/// The clock time one second before `h:m:s`, without going back past midnight.
pub open spec fn earlier_time(h: nat, m: nat, s: nat) -> (nat, nat, nat) {
    if s > 0 {
        (h, m, (s - 1) as nat)
    } else if m > 0 {
        (h, (m - 1) as nat, 59)
    } else if h > 0 {
        ((h - 1) as nat, 59, 59)
    } else {
        (0, 0, 0)
    }
}

/// The text of a timestamp `YYYY-MM-DD HH:MM:SS <zone>`.
pub open spec fn timestamp_text(y: int, mo: nat, d: nat, h: nat, mi: nat, s: nat, tz: Seq<char>) -> Seq<char> {
    pad_signed(y, 4) + seq!['-'] + zero_pad(dec(mo), 2) + seq!['-'] + zero_pad(dec(d), 2)
        + seq![' '] + zero_pad(dec(h), 2) + seq![':'] + zero_pad(dec(mi), 2) + seq![':']
        + zero_pad(dec(s), 2) + seq![' '] + tz
}

/// What `subtract_one_second` gives for `date`.
pub open spec fn spec_subtract_one_second(date: Seq<char>) -> Option<Seq<char>> {
    let parts = splitn_char(date, 3, ' ');
    if parts.len() != 3 {
        None
    } else {
        let ymd = splitn_char(parts[0], 3, '-');
        let hms = splitn_char(parts[1], 3, ':');
        if ymd.len() != 3 || hms.len() != 3 {
            None
        } else {
            match (parse_signed(ymd[0], 2147483647), parse_unsigned(ymd[1], 255), parse_unsigned(ymd[2], 255),
                   parse_unsigned(hms[0], 255), parse_unsigned(hms[1], 255), parse_unsigned(hms[2], 255)) {
                (Some(y), Some(mo), Some(d), Some(h), Some(mi), Some(s)) => {
                    let t = earlier_time(h, mi, s);
                    Some(timestamp_text(y, mo, d, t.0, t.1, t.2, parts[2]))
                },
                _ => None,
            }
        }
    }
}

/// Subtract one second from a git `--format=%ci` date string (`YYYY-MM-DD HH:MM:SS +ZZZZ`).
/// Returns None if the string cannot be parsed.
pub fn subtract_one_second(date: &str) -> (r: Option<String>)
    ensures
        match spec_subtract_one_second(date@) {
            Some(t) => r is Some && r->0@ == t,
            None => r is None,
        },
{
    let dv = chars_of(date);
    let parts = splitn(&dv, 3, ' ');
    if parts.len() != 3 {
        return None;
    }
    let ymd = splitn(&parts[0], 3, '-');
    let hms = splitn(&parts[1], 3, ':');
    if ymd.len() != 3 || hms.len() != 3 {
        return None;
    }
    assert(ymd@[0]@ == views(ymd@)[0] && ymd@[1]@ == views(ymd@)[1] && ymd@[2]@ == views(ymd@)[2]);
    assert(hms@[0]@ == views(hms@)[0] && hms@[1]@ == views(hms@)[1] && hms@[2]@ == views(hms@)[2]);
    assert(parts@[0]@ == views(parts@)[0] && parts@[1]@ == views(parts@)[1] && parts@[2]@ == views(parts@)[2]);
    let year = match parse_i32(&ymd[0]) { Some(x) => x, None => return None };
    let month = match parse_u8(&ymd[1]) { Some(x) => x, None => return None };
    let day = match parse_u8(&ymd[2]) { Some(x) => x, None => return None };
    let hour = match parse_u8(&hms[0]) { Some(x) => x, None => return None };
    let min = match parse_u8(&hms[1]) { Some(x) => x, None => return None };
    let sec = match parse_u8(&hms[2]) { Some(x) => x, None => return None };
    let (nh, nm, ns): (u8, u8, u8) = if sec > 0 {
        (hour, min, sec - 1)
    } else if min > 0 {
        (hour, min - 1, 59)
    } else if hour > 0 {
        (hour - 1, 59, 59)
    } else {
        (0, 0, 0)
    };
    let mut out = String::new();
    push_i32_padded(&mut out, year, 4);
    out.push('-');
    push_u64_padded(&mut out, month as u64, 2);
    out.push('-');
    push_u64_padded(&mut out, day as u64, 2);
    out.push(' ');
    push_u64_padded(&mut out, nh as u64, 2);
    out.push(':');
    push_u64_padded(&mut out, nm as u64, 2);
    out.push(':');
    push_u64_padded(&mut out, ns as u64, 2);
    out.push(' ');
    let tz_len = parts[2].len();
    push_range(&mut out, &parts[2], 0, tz_len);
    assert(parts@[2]@.subrange(0, tz_len as int) =~= parts@[2]@);
    assert(out@ =~= timestamp_text(year as int, month as nat, day as nat, nh as nat, nm as nat, ns as nat, parts@[2]@));
    Some(out)
}

/// Seconds since midnight of the clock time `t`.
pub open spec fn clock_seconds(t: (nat, nat, nat)) -> int {
    (t.0 * 3600 + t.1 * 60 + t.2) as int
}

/// The time written back is one second before the time read, and again a valid
/// clock time, for every valid time after midnight.
pub proof fn law_earlier_time_is_one_second_before(h: nat, m: nat, s: nat)
    requires
        h < 24,
        m < 60,
        s < 60,
        h + m + s > 0,
    ensures
        clock_seconds(earlier_time(h, m, s)) == clock_seconds((h, m, s)) - 1,
        earlier_time(h, m, s).0 < 24 && earlier_time(h, m, s).1 < 60 && earlier_time(h, m, s).2 < 60,
{
}

/// Splitting `a c b c rest` on `c` into three pieces gives `a`, `b` and `rest`
/// when neither `a` nor `b` holds `c`.
proof fn lemma_split_three(a: Seq<char>, b: Seq<char>, rest: Seq<char>, c: char)
    requires
        !a.contains(c),
        !b.contains(c),
    ensures
        splitn_char(a + seq![c] + b + seq![c] + rest, 3, c) == seq![a, b, rest],
{
    let t = b + seq![c] + rest;
    let s = a + seq![c] + t;
    assert(a + seq![c] + b + seq![c] + rest =~= s);
    assert forall|j: int| 0 <= j < a.len() implies s[j] != c by {
        assert(s[j] == a[j]);
        if s[j] == c { assert(a.contains(c)); }
    }
    assert(s[a.len() as int] == c);
    lemma_idx_of(s, c, a.len() as int);
    assert(s.take(a.len() as int) =~= a);
    assert(s.skip(a.len() as int + 1) =~= t);
    assert forall|j: int| 0 <= j < b.len() implies t[j] != c by {
        assert(t[j] == b[j]);
        if t[j] == c { assert(b.contains(c)); }
    }
    assert(t[b.len() as int] == c);
    lemma_idx_of(t, c, b.len() as int);
    assert(t.take(b.len() as int) =~= b);
    assert(t.skip(b.len() as int + 1) =~= rest);
    assert(splitn_char(rest, 1, c) == seq![rest]);
    assert(splitn_char(t, 2, c) == seq![b] + seq![rest]);
    assert(splitn_char(s, 3, c) == seq![a] + splitn_char(t, 2, c));
    assert(seq![a] + (seq![b] + seq![rest]) =~= seq![a, b, rest]);
}

/// A timestamp written field by field (`y-mo-d h:mi:s tz`, each field as text
/// that parses to its value) comes back with the clock time one second earlier,
/// fields zero-padded, the zone as it was. The year is written without a sign,
/// since a leading `-` would split it.
pub proof fn law_timestamp_one_second_earlier(ys: Seq<char>, mos: Seq<char>, ds: Seq<char>, hs: Seq<char>,
    mis: Seq<char>, ss: Seq<char>, tz: Seq<char>, y: int, mo: nat, d: nat, h: nat, mi: nat, s: nat)
    requires
        !ys.contains('-') && !mos.contains('-') && !ds.contains('-'),
        !hs.contains(':') && !mis.contains(':') && !ss.contains(':'),
        !ys.contains(' ') && !mos.contains(' ') && !ds.contains(' '),
        !hs.contains(' ') && !mis.contains(' ') && !ss.contains(' '),
        parse_signed(ys, 2147483647) == Some(y),
        parse_unsigned(mos, 255) == Some(mo),
        parse_unsigned(ds, 255) == Some(d),
        parse_unsigned(hs, 255) == Some(h),
        parse_unsigned(mis, 255) == Some(mi),
        parse_unsigned(ss, 255) == Some(s),
    ensures
        spec_subtract_one_second(ys + seq!['-'] + mos + seq!['-'] + ds + seq![' ']
            + hs + seq![':'] + mis + seq![':'] + ss + seq![' '] + tz)
            == Some(timestamp_text(y, mo, d, earlier_time(h, mi, s).0, earlier_time(h, mi, s).1,
                earlier_time(h, mi, s).2, tz)),
{
    let ymd = ys + seq!['-'] + mos + seq!['-'] + ds;
    let hms = hs + seq![':'] + mis + seq![':'] + ss;
    let date = ys + seq!['-'] + mos + seq!['-'] + ds + seq![' '] + hs + seq![':'] + mis + seq![':'] + ss + seq![' '] + tz;
    assert(date =~= ymd + seq![' '] + hms + seq![' '] + tz);
    if ymd.contains(' ') {
        let k = choose|k: int| 0 <= k < ymd.len() && ymd[k] == ' ';
        if k < ys.len() { assert(ys[k] == ' '); }
        else if k == ys.len() { assert(ymd[k] == '-'); }
        else if k < ys.len() + 1 + mos.len() { assert(mos[k - ys.len() - 1] == ' '); }
        else if k == ys.len() + 1 + mos.len() { assert(ymd[k] == '-'); }
        else { assert(ds[k - ys.len() - 2 - mos.len()] == ' '); }
    }
    if hms.contains(' ') {
        let k = choose|k: int| 0 <= k < hms.len() && hms[k] == ' ';
        if k < hs.len() { assert(hs[k] == ' '); }
        else if k == hs.len() { assert(hms[k] == ':'); }
        else if k < hs.len() + 1 + mis.len() { assert(mis[k - hs.len() - 1] == ' '); }
        else if k == hs.len() + 1 + mis.len() { assert(hms[k] == ':'); }
        else { assert(ss[k - hs.len() - 2 - mis.len()] == ' '); }
    }
    lemma_split_three(ymd, hms, tz, ' ');
    lemma_split_three(ys, mos, ds, '-');
    lemma_split_three(hs, mis, ss, ':');
}

/// A date written as `format!("{}-{}-{} {}:{}:{} {}", y, mo, d, h, mi, s, tz)`
/// comes back one second earlier and zero-padded, for every valid clock time
/// after midnight; the year is unsigned (a leading `-` would split it).
pub proof fn law_formatted_date_one_second_earlier(y: nat, mo: nat, d: nat, h: nat, mi: nat, s: nat, tz: Seq<char>)
    requires
        y <= 2147483647,
        mo <= 255 && d <= 255,
        h < 24 && mi < 60 && s < 60,
        h + mi + s > 0,
    ensures
        spec_subtract_one_second(dec(y) + seq!['-'] + dec(mo) + seq!['-'] + dec(d) + seq![' ']
            + dec(h) + seq![':'] + dec(mi) + seq![':'] + dec(s) + seq![' '] + tz)
            == Some(timestamp_text(y as int, mo, d, earlier_time(h, mi, s).0, earlier_time(h, mi, s).1,
                earlier_time(h, mi, s).2, tz)),
        clock_seconds(earlier_time(h, mi, s)) == clock_seconds((h, mi, s)) - 1,
{
    lemma_parse_dec(y, 2147483647);
    lemma_parse_dec(mo, 255);
    lemma_parse_dec(d, 255);
    lemma_parse_dec(h, 255);
    lemma_parse_dec(mi, 255);
    lemma_parse_dec(s, 255);
    law_timestamp_one_second_earlier(dec(y), dec(mo), dec(d), dec(h), dec(mi), dec(s), tz, y as int, mo, d, h, mi, s);
    law_earlier_time_is_one_second_before(h, mi, s);
}

} // verus!
