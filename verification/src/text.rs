//! Text primitives shared by the rest of the library: character-level views of
//! strings, searching, splitting, and decimal conversion, each with a
//! mathematical model over `Seq<char>`.
use vstd::prelude::*;

verus! {

pub assume_specification[ String::push ](s: &mut String, ch: char)
    ensures
        final(s)@ == old(s)@.push(ch),
;

/// The characters of `s`, in order.
pub fn chars_of(s: &str) -> (v: Vec<char>)
    ensures
        v@ == s@,
{
    let mut v: Vec<char> = Vec::new();
    for c in it: s.chars()
        invariant
            v@ == it.seq().take(it.index() as int),
            it.seq() == s@,
    {
        v.push(c);
    }
    v
}

/// Appends `v[lo..hi]` to `s`.
pub fn push_range(s: &mut String, v: &Vec<char>, lo: usize, hi: usize)
    requires
        lo <= hi <= v@.len(),
    ensures
        final(s)@ == old(s)@ + v@.subrange(lo as int, hi as int),
{
    let mut i = lo;
    while i < hi
        invariant
            lo <= i <= hi <= v@.len(),
            s@ == old(s)@ + v@.subrange(lo as int, i as int),
        decreases hi - i,
    {
        s.push(v[i]);
        assert(v@.subrange(lo as int, i + 1) =~= v@.subrange(lo as int, i as int).push(v@[i as int]));
        i += 1;
    }
}

/// A new string holding `v[lo..hi]`.
pub fn string_of_range(v: &Vec<char>, lo: usize, hi: usize) -> (s: String)
    requires
        lo <= hi <= v@.len(),
    ensures
        s@ == v@.subrange(lo as int, hi as int),
{
    let mut s = String::new();
    push_range(&mut s, v, lo, hi);
    s
}

/// Appends all of `t` to `s`.
pub fn push_str(s: &mut String, t: &str)
    ensures
        final(s)@ == old(s)@ + t@,
{
    s.append(t);
}

/// A copy of `t`.
pub fn copy_str(t: &str) -> (s: String)
    ensures
        s@ == t@,
{
    String::from_str(t)
}

// ---------------------------------------------------------------------------
// Decimal numerals

pub open spec fn digit_char(d: nat) -> char {
    ((d + 48) as u32) as char
}

/// The decimal numeral of `n`, as `format!("{}", n)` writes it.
pub open spec fn dec(n: nat) -> Seq<char>
    decreases n,
{
    if n < 10 {
        seq![digit_char(n)]
    } else {
        dec(n / 10).push(digit_char(n % 10))
    }
}

fn digit(d: u64) -> (c: char)
    requires
        d < 10,
    ensures
        c == digit_char(d as nat),
{
    let b: u8 = 48u8 + (d as u8);
    b as char
}

/// Appends the decimal numeral of `n`.
pub fn push_u64(s: &mut String, n: u64)
    ensures
        final(s)@ == old(s)@ + dec(n as nat),
    decreases n,
{
    if n < 10 {
        s.push(digit(n));
    } else {
        push_u64(s, n / 10);
        s.push(digit(n % 10));
        assert(dec(n as nat) == dec((n / 10) as nat).push(digit_char((n % 10) as nat)));
    }
}

/// A decimal numeral holds digits only.
pub proof fn lemma_dec_digits(n: nat)
    ensures
        forall|j: int| 0 <= j < dec(n).len() ==> is_digit(#[trigger] dec(n)[j]),
    decreases n,
{
    if n >= 10 {
        lemma_dec_digits(n / 10);
        assert(is_digit(digit_char(n % 10)));
        let p = dec(n / 10);
        assert(dec(n) == p.push(digit_char(n % 10)));
        assert forall|j: int| 0 <= j < dec(n).len() implies is_digit(#[trigger] dec(n)[j]) by {
            if j < p.len() {
                assert(dec(n)[j] == p[j]);
            }
        }
    } else {
        assert(is_digit(digit_char(n)));
    }
}

/// A decimal numeral reads back as its number.
pub proof fn lemma_dec_value(n: nat)
    ensures
        digits_val(dec(n)) == n,
    decreases n,
{
    if n >= 10 {
        lemma_dec_value(n / 10);
        let d = (n % 10) as nat;
        assert(digit_char(d) as int == d + 48);
        assert(digit_val(digit_char(d)) == d);
        assert(dec(n).drop_last() == dec(n / 10));
        assert(dec(n).last() == digit_char(d));
        assert(digits_val(dec(n)) == digits_val(dec(n).drop_last()) * 10 + digit_val(dec(n).last()));
        vstd::arithmetic::div_mod::lemma_fundamental_div_mod(n as int, 10);
    } else {
        assert(digit_char(n) as int == n + 48);
        assert(digit_val(digit_char(n)) == n);
        assert(dec(n).drop_last() =~= Seq::<char>::empty());
        assert(digits_val(dec(n)) == digits_val(dec(n).drop_last()) * 10 + digit_val(dec(n).last()));
    }
}

/// Parsing the decimal numeral of `n` gives `n`, when it is in range; the
/// numeral holds no sign, separator or space.
pub proof fn lemma_parse_dec(n: nat, max: nat)
    requires
        n <= max,
    ensures
        parse_unsigned(dec(n), max) == Some(n),
        parse_signed(dec(n), max) == Some(n as int),
        !dec(n).contains('-') && !dec(n).contains(':') && !dec(n).contains(' ') && !dec(n).contains('+'),
{
    lemma_dec_value(n);
    lemma_dec_digits(n);
    lemma_dec_len(n);
    assert(!is_digit('+') && !is_digit('-') && !is_digit(':') && !is_digit(' '));
    assert(is_digit(dec(n)[0]));
    assert(strip_plus(dec(n)) == dec(n));
    if dec(n).contains('-') {
        let k = choose|k: int| 0 <= k < dec(n).len() && dec(n)[k] == '-';
        assert(is_digit(dec(n)[k]));
    }
    if dec(n).contains(':') {
        let k = choose|k: int| 0 <= k < dec(n).len() && dec(n)[k] == ':';
        assert(is_digit(dec(n)[k]));
    }
    if dec(n).contains(' ') {
        let k = choose|k: int| 0 <= k < dec(n).len() && dec(n)[k] == ' ';
        assert(is_digit(dec(n)[k]));
    }
    if dec(n).contains('+') {
        let k = choose|k: int| 0 <= k < dec(n).len() && dec(n)[k] == '+';
        assert(is_digit(dec(n)[k]));
    }
}

pub proof fn lemma_dec_len(n: nat)
    ensures
        dec(n).len() >= 1,
        n < 10 ==> dec(n).len() == 1,
        n >= 10 ==> dec(n).len() >= 2,
    decreases n,
{
    if n >= 10 {
        lemma_dec_len(n / 10);
    }
}

/// `d` padded on the left with '0' to at least `w` characters.
pub open spec fn zero_pad(d: Seq<char>, w: nat) -> Seq<char> {
    if d.len() >= w {
        d
    } else {
        Seq::new((w - d.len()) as nat, |i: int| '0') + d
    }
}

/// Appends `n` in decimal, zero-padded to width `w` (`{:0w}`).
pub fn push_u64_padded(s: &mut String, n: u64, w: usize)
    ensures
        final(s)@ == old(s)@ + zero_pad(dec(n as nat), w as nat),
{
    let mut digits = String::new();
    push_u64(&mut digits, n);
    let dv = chars_of(digits.as_str());
    let len = dv.len();
    let ghost s0 = s@;
    if len < w {
        let mut k: usize = 0;
        while k < w - len
            invariant
                len < w,
                k <= w - len,
                s@ == s0 + Seq::new(k as nat, |i: int| '0'),
            decreases w - len - k,
        {
            s.push('0');
            assert(Seq::new((k + 1) as nat, |i: int| '0') =~= Seq::new(k as nat, |i: int| '0').push('0'));
            k += 1;
        }
    }
    push_range(s, &dv, 0, len);
    assert(dv@.subrange(0, len as int) =~= dv@);
    assert(s@ =~= s0 + zero_pad(dec(n as nat), w as nat));
}


// ---------------------------------------------------------------------------
// Searching

/// Index of the first `c` in `s`, or `s.len()` when there is none.
pub open spec fn idx_of(s: Seq<char>, c: char) -> int
    decreases s.len(),
{
    if s.len() == 0 {
        0
    } else if s[0] == c {
        0
    } else {
        1 + idx_of(s.drop_first(), c)
    }
}

pub proof fn lemma_idx_of(s: Seq<char>, c: char, i: int)
    requires
        0 <= i <= s.len(),
        forall|j: int| 0 <= j < i ==> s[j] != c,
        i == s.len() || s[i] == c,
    ensures
        idx_of(s, c) == i,
    decreases s.len(),
{
    if s.len() > 0 && s[0] != c {
        assert forall|j: int| 0 <= j < i - 1 implies s.drop_first()[j] != c by {
            assert(s.drop_first()[j] == s[j + 1]);
        }
        lemma_idx_of(s.drop_first(), c, i - 1);
    }
}

pub proof fn lemma_idx_of_facts(s: Seq<char>, c: char)
    ensures
        0 <= idx_of(s, c) <= s.len(),
        forall|j: int| 0 <= j < idx_of(s, c) ==> s[j] != c,
        idx_of(s, c) < s.len() ==> s[idx_of(s, c)] == c,
        idx_of(s, c) == s.len() <==> !s.contains(c),
    decreases s.len(),
{
    if s.len() > 0 && s[0] != c {
        lemma_idx_of_facts(s.drop_first(), c);
        assert forall|j: int| 0 <= j < idx_of(s, c) implies s[j] != c by {
            if j > 0 {
                assert(s[j] == s.drop_first()[j - 1]);
            }
        }
        if s.contains(c) {
            let k = choose|k: int| 0 <= k < s.len() && s[k] == c;
            assert(s.drop_first()[k - 1] == c);
        }
        if s.drop_first().contains(c) {
            let k = choose|k: int| 0 <= k < s.drop_first().len() && s.drop_first()[k] == c;
            assert(s[k + 1] == c);
        }
    } else if s.len() > 0 {
        assert(s.contains(c));
    }
}

/// First index `>= lo` holding `c`, or `v.len()`.
pub fn find_char(v: &Vec<char>, lo: usize, c: char) -> (r: usize)
    requires
        lo <= v@.len(),
    ensures
        r == lo + idx_of(v@.subrange(lo as int, v@.len() as int), c),
        lo <= r <= v@.len(),
{
    let mut i = lo;
    while i < v.len() && v[i] != c
        invariant
            lo <= i <= v@.len(),
            forall|j: int| lo <= j < i ==> v@[j] != c,
        decreases v@.len() - i,
    {
        i += 1;
    }
    proof {
        let t = v@.subrange(lo as int, v@.len() as int);
        assert forall|j: int| 0 <= j < i - lo implies t[j] != c by {
            assert(t[j] == v@[lo + j]);
        }
        lemma_idx_of(t, c, i - lo);
    }
    i
}

/// `p` occurs in `s` at position `i`.
pub open spec fn match_at(s: Seq<char>, i: int, p: Seq<char>) -> bool {
    0 <= i && i + p.len() <= s.len() && s.subrange(i, i + p.len()) == p
}

/// The first position `>= i` at which `p` occurs in `s`, or -1.
pub open spec fn find_from(s: Seq<char>, p: Seq<char>, i: int) -> int
    decreases s.len() + 1 - i,
{
    if i < 0 || i + p.len() > s.len() {
        -1
    } else if match_at(s, i, p) {
        i
    } else {
        find_from(s, p, i + 1)
    }
}

/// The first position at which `p` occurs in `s`, or -1 (`str::find`).
pub open spec fn find(s: Seq<char>, p: Seq<char>) -> int {
    find_from(s, p, 0)
}

pub open spec fn contains_sub(s: Seq<char>, p: Seq<char>) -> bool {
    exists|i: int| match_at(s, i, p)
}

pub proof fn lemma_find_from(s: Seq<char>, p: Seq<char>, lo: int, i: int)
    requires
        0 <= lo <= i,
        forall|j: int| lo <= j < i ==> !match_at(s, j, p),
        match_at(s, i, p) || i + p.len() > s.len(),
    ensures
        find_from(s, p, lo) == if match_at(s, i, p) { i } else { -1 },
    decreases i - lo,
{
    if lo < i {
        if lo + p.len() > s.len() {
        } else {
            lemma_find_from(s, p, lo + 1, i);
        }
    }
}

pub proof fn lemma_find_facts(s: Seq<char>, p: Seq<char>, lo: int)
    requires
        0 <= lo,
    ensures
        find_from(s, p, lo) == -1 || (lo <= find_from(s, p, lo) && match_at(s, find_from(s, p, lo), p)),
        find_from(s, p, lo) == -1 ==> forall|j: int| lo <= j ==> !match_at(s, j, p),
        find_from(s, p, lo) != -1 ==> forall|j: int| lo <= j < find_from(s, p, lo) ==> !match_at(s, j, p),
    decreases s.len() + 1 - lo,
{
    if lo + p.len() > s.len() {
    } else if match_at(s, lo, p) {
    } else {
        lemma_find_facts(s, p, lo + 1);
    }
}

pub proof fn lemma_contains_find(s: Seq<char>, p: Seq<char>)
    ensures
        contains_sub(s, p) <==> find(s, p) != -1,
{
    lemma_find_facts(s, p, 0);
    if contains_sub(s, p) {
        let k = choose|k: int| match_at(s, k, p);
        assert(k >= 0);
    }
}

/// Whether `p` occurs in `v` at position `i`.
pub fn matches_at(v: &Vec<char>, i: usize, p: &Vec<char>) -> (r: bool)
    ensures
        r == match_at(v@, i as int, p@),
{
    let n = v.len();
    if i > n || p.len() > n - i {
        return false;
    }
    let mut k: usize = 0;
    while k < p.len()
        invariant
            n == v@.len(),
            i + p@.len() <= n,
            k <= p@.len(),
            forall|j: int| 0 <= j < k ==> v@[i + j] == p@[j],
        decreases p@.len() - k,
    {
        if v[i + k] != p[k] {
            assert(v@.subrange(i as int, i + p@.len())[k as int] != p@[k as int]);
            return false;
        }
        k += 1;
    }
    assert(v@.subrange(i as int, i + p@.len()) =~= p@);
    true
}

/// The first position `>= lo` where `p` occurs in `v`.
pub fn find_sub(v: &Vec<char>, lo: usize, p: &Vec<char>) -> (r: Option<usize>)
    ensures
        match r {
            Some(i) => find_from(v@, p@, lo as int) == i as int,
            None => find_from(v@, p@, lo as int) == -1,
        },
{
    let n = v.len();
    if p.len() == 0 {
        if lo <= n {
            assert(v@.subrange(lo as int, lo as int) =~= p@);
            return Some(lo);
        }
        return None;
    }
    let mut i = lo;
    while i <= n && p.len() <= n - i
        invariant
            n == v@.len(),
            p@.len() >= 1,
            lo <= i,
            forall|j: int| lo <= j < i ==> !match_at(v@, j, p@),
        decreases v@.len() + 1 - i,
    {
        if matches_at(v, i, p) {
            proof { lemma_find_from(v@, p@, lo as int, i as int); }
            return Some(i);
        }
        i += 1;
    }
    proof { lemma_find_from(v@, p@, lo as int, i as int); }
    None
}

/// Whether `p` occurs anywhere in `v`.
pub fn contains(v: &Vec<char>, p: &Vec<char>) -> (r: bool)
    ensures
        r == contains_sub(v@, p@),
{
    proof { lemma_contains_find(v@, p@); }
    find_sub(v, 0, p).is_some()
}

/// Whether `a` and `b` hold the same characters.
pub fn chars_eq(a: &Vec<char>, b: &Vec<char>) -> (r: bool)
    ensures
        r == (a@ == b@),
{
    if a.len() != b.len() {
        return false;
    }
    let r = matches_at(a, 0, b);
    assert(a@.subrange(0, b@.len() as int) =~= a@);
    r
}

/// Whether `a` equals the text `t`.
pub fn eq_str(a: &Vec<char>, t: &str) -> (r: bool)
    ensures
        r == (a@ == t@),
{
    let tv = chars_of(t);
    chars_eq(a, &tv)
}


// ---------------------------------------------------------------------------
// Splitting

pub open spec fn views(ps: Seq<Vec<char>>) -> Seq<Seq<char>> {
    ps.map_values(|p: Vec<char>| p@)
}

/// `str::split` on a single character.
pub open spec fn split_char(s: Seq<char>, c: char) -> Seq<Seq<char>>
    decreases s.len(),
{
    let i = idx_of(s, c);
    proof {
        lemma_idx_of_facts(s, c);
    }
    if i >= s.len() {
        seq![s]
    } else {
        seq![s.take(i)] + split_char(s.skip(i + 1), c)
    }
}

/// `str::splitn` on a single character: at most `n` pieces, the last one
/// holding the rest of the text.
pub open spec fn splitn_char(s: Seq<char>, n: nat, c: char) -> Seq<Seq<char>>
    decreases n,
{
    if n == 0 {
        seq![]
    } else if n == 1 {
        seq![s]
    } else {
        let i = idx_of(s, c);
        if i >= s.len() {
            seq![s]
        } else {
            seq![s.take(i)] + splitn_char(s.skip(i + 1), (n - 1) as nat, c)
        }
    }
}

/// A new vector holding `v[lo..hi]`.
pub fn vec_of_range(v: &Vec<char>, lo: usize, hi: usize) -> (r: Vec<char>)
    requires
        lo <= hi <= v@.len(),
    ensures
        r@ == v@.subrange(lo as int, hi as int),
{
    let mut r: Vec<char> = Vec::new();
    let mut i = lo;
    while i < hi
        invariant
            lo <= i <= hi <= v@.len(),
            r@ == v@.subrange(lo as int, i as int),
        decreases hi - i,
    {
        r.push(v[i]);
        assert(v@.subrange(lo as int, i + 1) =~= v@.subrange(lo as int, i as int).push(v@[i as int]));
        i += 1;
    }
    r
}

/// The pieces of `v` between occurrences of `c`.
pub fn split(v: &Vec<char>, c: char) -> (r: Vec<Vec<char>>)
    ensures
        views(r@) == split_char(v@, c),
        r@.len() >= 1,
{
    let n = v.len();
    let mut parts: Vec<Vec<char>> = Vec::new();
    let mut start: usize = 0;
    assert(v@.subrange(0, n as int) =~= v@);
    assert(views(parts@) =~= Seq::<Seq<char>>::empty());
    assert(views(parts@) + split_char(v@, c) =~= split_char(v@, c));
    loop
        invariant
            n == v@.len(),
            start <= n,
            views(parts@) + split_char(v@.subrange(start as int, n as int), c) == split_char(v@, c),
        decreases n - start,
    {
        let i = find_char(v, start, c);
        let ghost t = v@.subrange(start as int, n as int);
        proof { lemma_idx_of_facts(t, c); }
        if i == n {
            let piece = vec_of_range(v, start, n);
            let ghost before = views(parts@);
            parts.push(piece);
            assert(views(parts@) =~= before.push(piece@));
            assert(split_char(t, c) == seq![t]);
            assert(views(parts@) =~= before + split_char(t, c));
            assert(views(parts@) == split_char(v@, c));
            assert(parts@.len() >= 1);
            return parts;
        }
        let piece = vec_of_range(v, start, i);
        let ghost before = views(parts@);
        parts.push(piece);
        proof {
            let k = i - start;
            assert(t.take(k) =~= v@.subrange(start as int, i as int));
            assert(t.skip(k + 1) =~= v@.subrange(i + 1, n as int));
            assert(split_char(t, c) == seq![t.take(k)] + split_char(t.skip(k + 1), c));
            assert(views(parts@) =~= before.push(piece@));
            assert(views(parts@) + split_char(v@.subrange(i + 1, n as int), c) =~= before + split_char(t, c));
        }
        start = i + 1;
    }
}

/// At most `limit` pieces of `v` between occurrences of `c`.
pub fn splitn(v: &Vec<char>, limit: usize, c: char) -> (r: Vec<Vec<char>>)
    ensures
        views(r@) == splitn_char(v@, limit as nat, c),
{
    let n = v.len();
    let mut parts: Vec<Vec<char>> = Vec::new();
    if limit == 0 {
        assert(views(parts@) =~= Seq::<Seq<char>>::empty());
        return parts;
    }
    let mut start: usize = 0;
    let mut left: usize = limit;
    assert(v@.subrange(0, n as int) =~= v@);
    assert(views(parts@) =~= Seq::<Seq<char>>::empty());
    assert(views(parts@) + splitn_char(v@, limit as nat, c) =~= splitn_char(v@, limit as nat, c));
    loop
        invariant
            n == v@.len(),
            start <= n,
            1 <= left <= limit,
            views(parts@) + splitn_char(v@.subrange(start as int, n as int), left as nat, c)
                == splitn_char(v@, limit as nat, c),
        decreases left,
    {
        let ghost t = v@.subrange(start as int, n as int);
        proof { lemma_idx_of_facts(t, c); }
        let i = if left == 1 { n } else { find_char(v, start, c) };
        if i == n {
            let piece = vec_of_range(v, start, n);
            let ghost before = views(parts@);
            parts.push(piece);
            assert(views(parts@) =~= before.push(piece@));
            assert(splitn_char(t, left as nat, c) == seq![t]);
            assert(views(parts@) =~= before + splitn_char(t, left as nat, c));
            return parts;
        }
        let piece = vec_of_range(v, start, i);
        let ghost before = views(parts@);
        parts.push(piece);
        proof {
            let k = i - start;
            assert(t.take(k) =~= v@.subrange(start as int, i as int));
            assert(t.skip(k + 1) =~= v@.subrange(i + 1, n as int));
            assert(splitn_char(t, left as nat, c) == seq![t.take(k)] + splitn_char(t.skip(k + 1), (left - 1) as nat, c));
            assert(views(parts@) =~= before.push(piece@));
            assert(views(parts@) + splitn_char(v@.subrange(i + 1, n as int), (left - 1) as nat, c) =~= before + splitn_char(t, left as nat, c));
        }
        start = i + 1;
        left = left - 1;
    }
}


// ---------------------------------------------------------------------------
// Parsing decimal integers (`str::parse`)

pub open spec fn is_digit(c: char) -> bool {
    '0' <= c <= '9'
}

pub open spec fn all_digits(s: Seq<char>) -> bool {
    forall|i: int| 0 <= i < s.len() ==> is_digit(#[trigger] s[i])
}

pub open spec fn digit_val(c: char) -> nat {
    ((c as int) - 48) as nat
}

/// The value of a string of decimal digits.
pub open spec fn digits_val(s: Seq<char>) -> nat
    decreases s.len(),
{
    if s.len() == 0 {
        0
    } else {
        digits_val(s.drop_last()) * 10 + digit_val(s.last())
    }
}

/// `s` without one leading '+'.
pub open spec fn strip_plus(s: Seq<char>) -> Seq<char> {
    if s.len() > 0 && s[0] == '+' {
        s.drop_first()
    } else {
        s
    }
}

/// What `str::parse` gives for an unsigned integer type whose largest value is `max`.
pub open spec fn parse_unsigned(s: Seq<char>, max: nat) -> Option<nat> {
    let d = strip_plus(s);
    if d.len() > 0 && all_digits(d) && digits_val(d) <= max {
        Some(digits_val(d))
    } else {
        None
    }
}

/// What `str::parse` gives for a signed integer type ranging over `[-(max + 1), max]`.
pub open spec fn parse_signed(s: Seq<char>, max: nat) -> Option<int> {
    if s.len() > 0 && s[0] == '-' {
        let d = s.drop_first();
        if d.len() > 0 && all_digits(d) && digits_val(d) <= max + 1 {
            Some(-(digits_val(d) as int))
        } else {
            None
        }
    } else {
        match parse_unsigned(s, max) {
            Some(n) => Some(n as int),
            None => None,
        }
    }
}

pub proof fn lemma_digits_val_prefix(s: Seq<char>, k: int)
    requires
        all_digits(s),
        0 <= k <= s.len(),
    ensures
        digits_val(s.take(k)) <= digits_val(s),
    decreases s.len(),
{
    if k < s.len() {
        let t = s.drop_last();
        assert(all_digits(t)) by {
            assert forall|i: int| 0 <= i < t.len() implies is_digit(#[trigger] t[i]) by {
                assert(t[i] == s[i]);
            }
        }
        assert(s.take(k) =~= t.take(k));
        lemma_digits_val_prefix(t, k);
    } else {
        assert(s.take(k) =~= s);
    }
}

/// Parses `v[lo..hi]` as a string of decimal digits whose value is at most `max`.
pub fn parse_digits(v: &Vec<char>, lo: usize, hi: usize, max: u64) -> (r: Option<u64>)
    requires
        lo <= hi <= v@.len(),
    ensures
        ({
            let d = v@.subrange(lo as int, hi as int);
            r == if d.len() > 0 && all_digits(d) && digits_val(d) <= max {
                Some(digits_val(d) as u64)
            } else {
                None::<u64>
            }
        }),
{
    let ghost d = v@.subrange(lo as int, hi as int);
    if lo == hi {
        return None;
    }
    let mut acc: u128 = 0;
    let mut i = lo;
    while i < hi
        invariant
            lo <= i <= hi <= v@.len(),
            d == v@.subrange(lo as int, hi as int),
            all_digits(d.take(i - lo)),
            digits_val(d.take(i - lo)) == acc,
            acc <= max,
        decreases hi - i,
    {
        let c = v[i];
        if !('0' <= c && c <= '9') {
            assert(d[i - lo] == c);
            return None;
        }
        let dv: u128 = (c as u32 - 48) as u128;
        let ghost k = i - lo;
        proof {
            assert(d.take(k + 1).drop_last() =~= d.take(k));
            assert(d.take(k + 1).last() == c);
            assert forall|j: int| 0 <= j < k + 1 implies is_digit(#[trigger] d.take(k + 1)[j]) by {
                if j < k {
                    assert(d.take(k + 1)[j] == d.take(k)[j]);
                }
            }
        }
        if acc * 10 + dv > max as u128 {
            proof {
                if all_digits(d) {
                    lemma_digits_val_prefix(d, k + 1);
                }
            }
            return None;
        }
        acc = acc * 10 + dv;
        i += 1;
    }
    assert(d.take(hi - lo) =~= d);
    Some(acc as u64)
}

/// `str::parse::<u64>`.
pub fn parse_u64(v: &Vec<char>) -> (r: Option<u64>)
    ensures
        match parse_unsigned(v@, 18446744073709551615) {
            Some(n) => r == Some(n as u64),
            None => r is None,
        },
{
    let n = v.len();
    let lo: usize = if n > 0 && v[0] == '+' { 1 } else { 0 };
    assert(v@.subrange(lo as int, n as int) =~= strip_plus(v@));
    parse_digits(v, lo, n, 18446744073709551615)
}

/// `str::parse::<u8>`.
pub fn parse_u8(v: &Vec<char>) -> (r: Option<u8>)
    ensures
        match parse_unsigned(v@, 255) {
            Some(n) => r == Some(n as u8),
            None => r is None,
        },
{
    let n = v.len();
    let lo: usize = if n > 0 && v[0] == '+' { 1 } else { 0 };
    assert(v@.subrange(lo as int, n as int) =~= strip_plus(v@));
    match parse_digits(v, lo, n, 255) {
        Some(x) => Some(x as u8),
        None => None,
    }
}

/// `str::parse::<i32>`.
pub fn parse_i32(v: &Vec<char>) -> (r: Option<i32>)
    ensures
        match parse_signed(v@, 2147483647) {
            Some(n) => r == Some(n as i32),
            None => r is None,
        },
{
    let n = v.len();
    if n > 0 && v[0] == '-' {
        assert(v@.subrange(1, n as int) =~= v@.drop_first());
        match parse_digits(v, 1, n, 2147483648) {
            Some(x) => {
                let y: i64 = 0i64 - (x as i64);
                Some(y as i32)
            },
            None => None,
        }
    } else {
        let lo: usize = if n > 0 && v[0] == '+' { 1 } else { 0 };
        assert(v@.subrange(lo as int, n as int) =~= strip_plus(v@));
        match parse_digits(v, lo, n, 2147483647) {
            Some(x) => Some(x as i32),
            None => None,
        }
    }
}

/// A signed integer as `{:0w}` writes it: the sign counts toward the width.
pub open spec fn pad_signed(n: int, w: nat) -> Seq<char> {
    if n < 0 {
        seq!['-'] + zero_pad(dec((-n) as nat), if w >= 1 { (w - 1) as nat } else { 0 })
    } else {
        zero_pad(dec(n as nat), w)
    }
}

/// Appends `n` as `{:0w}` writes it.
pub fn push_i32_padded(s: &mut String, n: i32, w: usize)
    ensures
        final(s)@ == old(s)@ + pad_signed(n as int, w as nat),
{
    if n < 0 {
        s.push('-');
        let m: u64 = (0i64 - (n as i64)) as u64;
        let w1: usize = if w >= 1 { w - 1 } else { 0 };
        push_u64_padded(s, m, w1);
    } else {
        push_u64_padded(s, n as u64, w);
    }
}


// ---------------------------------------------------------------------------
// Lines

/// `l` without one trailing carriage return.
pub open spec fn strip_cr(l: Seq<char>) -> Seq<char> {
    if l.len() > 0 && l.last() == '\r' {
        l.drop_last()
    } else {
        l
    }
}

/// `str::lines`: pieces ended by '\n' (a "\r\n" ending counts as one), with no
/// empty piece after a final '\n'.
pub open spec fn lines(s: Seq<char>) -> Seq<Seq<char>>
    decreases s.len(),
{
    if s.len() == 0 {
        seq![]
    } else {
        let i = idx_of(s, '\n');
        proof {
            lemma_idx_of_facts(s, '\n');
        }
        if i >= s.len() {
            seq![s]
        } else {
            seq![strip_cr(s.take(i))] + lines(s.skip(i + 1))
        }
    }
}

/// The pieces of `ls` with `sep` between each two (`[..].join(sep)`).
pub open spec fn join(ls: Seq<Seq<char>>, sep: Seq<char>) -> Seq<char>
    decreases ls.len(),
{
    if ls.len() == 0 {
        seq![]
    } else if ls.len() == 1 {
        ls[0]
    } else {
        join(ls.drop_last(), sep) + sep + ls.last()
    }
}

/// Joining from the front: the first piece, the separator, then the rest joined.
pub proof fn lemma_join_front(ls: Seq<Seq<char>>, sep: Seq<char>)
    requires
        ls.len() >= 2,
    ensures
        join(ls, sep) == ls[0] + sep + join(ls.drop_first(), sep),
    decreases ls.len(),
{
    if ls.len() == 2 {
        assert(ls.drop_last().len() == 1);
        assert(ls.drop_first().len() == 1);
        assert(join(ls.drop_first(), sep) == ls.drop_first()[0]);
        assert(join(ls.drop_last(), sep) == ls.drop_last()[0]);
        assert(ls[0] + sep + ls[1] =~= ls[0] + sep + ls.drop_first()[0]);
    } else {
        lemma_join_front(ls.drop_last(), sep);
        assert(ls.drop_last().drop_first() =~= ls.drop_first().drop_last());
        assert(ls.drop_first().last() == ls.last());
        assert(ls.drop_last()[0] == ls[0]);
        assert(join(ls.drop_first(), sep) == join(ls.drop_first().drop_last(), sep) + sep + ls.drop_first().last());
        assert(ls[0] + sep + join(ls.drop_last().drop_first(), sep) + sep + ls.last()
            =~= ls[0] + sep + (join(ls.drop_first().drop_last(), sep) + sep + ls.drop_first().last()));
    }
}

/// No line of `s` holds a line feed.
pub proof fn lemma_lines_no_newline(s: Seq<char>)
    ensures
        forall|i: int| 0 <= i < lines(s).len() ==> !(#[trigger] lines(s)[i]).contains('\n'),
    decreases s.len(),
{
    if s.len() > 0 {
        let k = idx_of(s, '\n');
        lemma_idx_of_facts(s, '\n');
        if k < s.len() {
            lemma_lines_no_newline(s.skip(k + 1));
            let first = strip_cr(s.take(k));
            if first.contains('\n') {
                let j = choose|j: int| 0 <= j < first.len() && first[j] == '\n';
                assert(s.take(k)[j] == s[j]);
            }
            assert forall|i: int| 0 <= i < lines(s).len() implies !(#[trigger] lines(s)[i]).contains('\n') by {
                if i > 0 {
                    assert(lines(s)[i] == lines(s.skip(k + 1))[i - 1]);
                }
            }
        }
    }
}

/// Whether `l` ends with a carriage return.
pub open spec fn ends_with_cr(l: Seq<char>) -> bool {
    l.len() > 0 && l.last() == '\r'
}

/// Joining lines with line feeds and splitting the text into lines again gives
/// them back, when none holds a line feed, the last is not empty and no other
/// ends with a carriage return.
pub proof fn lemma_lines_of_join(ls: Seq<Seq<char>>)
    requires
        ls.len() > 0,
        forall|i: int| 0 <= i < ls.len() ==> !(#[trigger] ls[i]).contains('\n'),
        ls.last().len() > 0,
        forall|i: int| 0 <= i < ls.len() - 1 ==> !ends_with_cr(#[trigger] ls[i]),
    ensures
        lines(join(ls, "\n"@)) == ls,
    decreases ls.len(),
{
    reveal_strlit("\n");
    if ls.len() == 1 {
        lemma_idx_of_facts(ls[0], '\n');
        assert(lines(ls[0]) == seq![ls[0]]);
        assert(seq![ls[0]] =~= ls);
    } else {
        let rest = ls.drop_first();
        assert forall|i: int| 0 <= i < rest.len() implies !(#[trigger] rest[i]).contains('\n') by {
            assert(rest[i] == ls[i + 1]);
        }
        assert forall|i: int| 0 <= i < rest.len() - 1 implies !ends_with_cr(#[trigger] rest[i]) by {
            assert(rest[i] == ls[i + 1]);
        }
        lemma_lines_of_join(rest);
        lemma_join_front(ls, "\n"@);
        let l0 = ls[0];
        let s = join(ls, "\n"@);
        let tail = join(rest, "\n"@);
        assert(s == l0 + "\n"@ + tail);
        assert forall|j: int| 0 <= j < l0.len() implies s[j] != '\n' by {
            assert(s[j] == l0[j]);
            if s[j] == '\n' { assert(l0.contains('\n')); }
        }
        assert(s[l0.len() as int] == '\n');
        lemma_idx_of(s, '\n', l0.len() as int);
        assert(s.take(l0.len() as int) =~= l0);
        assert(s.skip(l0.len() as int + 1) =~= tail);
        assert(!ends_with_cr(ls[0]));
        assert(strip_cr(l0) == l0);
        assert(lines(s) == seq![l0] + lines(tail));
        assert(seq![l0] + rest =~= ls);
    }
}

/// The last `n` items of `ls` (all of them when there are fewer).
pub open spec fn last_n<A>(ls: Seq<A>, n: nat) -> Seq<A> {
    if ls.len() <= n {
        ls
    } else {
        ls.skip(ls.len() - n)
    }
}

/// The lines of `v`.
pub fn split_lines(v: &Vec<char>) -> (r: Vec<Vec<char>>)
    ensures
        views(r@) == lines(v@),
{
    let n = v.len();
    let mut parts: Vec<Vec<char>> = Vec::new();
    let mut start: usize = 0;
    assert(v@.subrange(0, n as int) =~= v@);
    assert(views(parts@) + lines(v@) =~= lines(v@));
    loop
        invariant
            n == v@.len(),
            start <= n,
            views(parts@) + lines(v@.subrange(start as int, n as int)) == lines(v@),
        decreases n - start,
    {
        let ghost t = v@.subrange(start as int, n as int);
        if start == n {
            assert(lines(t) =~= Seq::<Seq<char>>::empty());
            assert(views(parts@) + lines(t) =~= views(parts@));
            return parts;
        }
        let i = find_char(v, start, '\n');
        proof { lemma_idx_of_facts(t, '\n'); }
        let ghost before = views(parts@);
        if i == n {
            let piece = vec_of_range(v, start, n);
            parts.push(piece);
            assert(views(parts@) =~= before.push(piece@));
            assert(lines(t) == seq![t]);
            assert(views(parts@) =~= before + lines(t));
            return parts;
        }
        let end = if i > start && v[i - 1] == '\r' { i - 1 } else { i };
        let piece = vec_of_range(v, start, end);
        parts.push(piece);
        proof {
            let k = i - start;
            assert(t.take(k) =~= v@.subrange(start as int, i as int));
            assert(strip_cr(t.take(k)) =~= v@.subrange(start as int, end as int));
            assert(t.skip(k + 1) =~= v@.subrange(i + 1, n as int));
            assert(lines(t) == seq![strip_cr(t.take(k))] + lines(t.skip(k + 1)));
            assert(views(parts@) =~= before.push(piece@));
            assert(views(parts@) + lines(v@.subrange(i + 1, n as int)) =~= before + lines(t));
        }
        start = i + 1;
    }
}

/// Appends `ls[lo..hi]` joined by `sep`.
pub fn push_joined(s: &mut String, ls: &Vec<Vec<char>>, lo: usize, hi: usize, sep: &str)
    requires
        lo <= hi <= ls@.len(),
    ensures
        final(s)@ == old(s)@ + join(views(ls@).subrange(lo as int, hi as int), sep@),
{
    let ghost s0 = s@;
    let mut i = lo;
    assert(views(ls@).subrange(lo as int, lo as int) =~= Seq::<Seq<char>>::empty());
    assert(s@ =~= s0 + join(views(ls@).subrange(lo as int, lo as int), sep@));
    while i < hi
        invariant
            lo <= i <= hi <= ls@.len(),
            s@ == s0 + join(views(ls@).subrange(lo as int, i as int), sep@),
        decreases hi - i,
    {
        let ghost prev = views(ls@).subrange(lo as int, i as int);
        let ghost next = views(ls@).subrange(lo as int, i + 1);
        assert(next.drop_last() =~= prev);
        assert(next.last() == ls@[i as int]@);
        if i > lo {
            push_str(s, sep);
        } else {
            assert(next =~= seq![ls@[i as int]@]);
        }
        let len = ls[i].len();
        push_range(s, &ls[i], 0, len);
        assert(ls@[i as int]@.subrange(0, len as int) =~= ls@[i as int]@);
        assert(s@ =~= s0 + join(next, sep@));
        i += 1;
    }
}


pub open spec fn sviews(ss: Seq<String>) -> Seq<Seq<char>> {
    ss.map_values(|x: String| x@)
}

/// Each piece as a `String`.
pub fn strings_of(ps: &Vec<Vec<char>>) -> (r: Vec<String>)
    ensures
        sviews(r@) == views(ps@),
{
    let mut r: Vec<String> = Vec::new();
    let mut i: usize = 0;
    while i < ps.len()
        invariant
            i <= ps@.len(),
            sviews(r@) == views(ps@).take(i as int),
        decreases ps@.len() - i,
    {
        let len = ps[i].len();
        let x = string_of_range(&ps[i], 0, len);
        assert(ps@[i as int]@.subrange(0, len as int) =~= ps@[i as int]@);
        let ghost before = sviews(r@);
        r.push(x);
        assert(sviews(r@) =~= before.push(x@));
        assert(views(ps@).take(i + 1) =~= views(ps@).take(i as int).push(ps@[i as int]@));
        i += 1;
    }
    assert(views(ps@).take(ps@.len() as int) =~= views(ps@));
    r
}

/// Each of `ls` on a line of its own after `prefix`.
pub open spec fn block(ls: Seq<Seq<char>>, prefix: Seq<char>) -> Seq<char>
    decreases ls.len(),
{
    if ls.len() == 0 {
        seq![]
    } else {
        block(ls.drop_last(), prefix) + prefix + ls.last() + seq!['\n']
    }
}

/// Appends each of `ls` on a line of its own after `prefix`.
pub fn push_block(s: &mut String, ls: &Vec<String>, prefix: &str)
    ensures
        final(s)@ == old(s)@ + block(sviews(ls@), prefix@),
{
    let ghost s0 = s@;
    let mut i: usize = 0;
    assert(sviews(ls@).take(0) =~= Seq::<Seq<char>>::empty());
    while i < ls.len()
        invariant
            i <= ls@.len(),
            s@ == s0 + block(sviews(ls@).take(i as int), prefix@),
        decreases ls@.len() - i,
    {
        push_str(s, prefix);
        push_str(s, ls[i].as_str());
        s.push('\n');
        let ghost next = sviews(ls@).take(i + 1);
        assert(next.drop_last() =~= sviews(ls@).take(i as int));
        assert(next.last() == ls@[i as int]@);
        assert(s@ =~= s0 + block(next, prefix@));
        i += 1;
    }
    assert(sviews(ls@).take(ls@.len() as int) =~= sviews(ls@));
}


// ---------------------------------------------------------------------------
// Comparing

/// `a < b` in the order of `str`: lexicographic by character code.
pub open spec fn seq_lt(a: Seq<char>, b: Seq<char>) -> bool
    decreases a.len(),
{
    if b.len() == 0 {
        false
    } else if a.len() == 0 {
        true
    } else if a[0] != b[0] {
        (a[0] as u32) < (b[0] as u32)
    } else {
        seq_lt(a.drop_first(), b.drop_first())
    }
}

/// `a < b` for strings.
pub fn str_lt(a: &str, b: &str) -> (r: bool)
    ensures
        r == seq_lt(a@, b@),
{
    let av = chars_of(a);
    let bv = chars_of(b);
    let mut i: usize = 0;
    while i < av.len() && i < bv.len() && av[i] == bv[i]
        invariant
            i <= av@.len(),
            i <= bv@.len(),
            forall|j: int| 0 <= j < i ==> av@[j] == bv@[j],
        decreases av@.len() - i,
    {
        i += 1;
    }
    let r = if i == bv.len() {
        false
    } else if i == av.len() {
        true
    } else {
        (av[i] as u32) < (bv[i] as u32)
    };
    proof { lemma_seq_lt_at(av@, bv@, i as int); }
    r
}

proof fn lemma_seq_lt_at(a: Seq<char>, b: Seq<char>, i: int)
    requires
        0 <= i <= a.len(),
        i <= b.len(),
        forall|j: int| 0 <= j < i ==> a[j] == b[j],
        i < a.len() && i < b.len() ==> a[i] != b[i],
    ensures
        seq_lt(a, b) == if i == b.len() {
            false
        } else if i == a.len() {
            true
        } else {
            (a[i] as u32) < (b[i] as u32)
        },
    decreases i,
{
    if i > 0 {
        assert forall|j: int| 0 <= j < i - 1 implies a.drop_first()[j] == b.drop_first()[j] by {
            assert(a.drop_first()[j] == a[j + 1]);
            assert(b.drop_first()[j] == b[j + 1]);
        }
        assert(a[0] == b[0]);
        lemma_seq_lt_at(a.drop_first(), b.drop_first(), i - 1);
    }
}

/// `a == b` for strings.
pub fn str_eq(a: &str, b: &str) -> (r: bool)
    ensures
        r == (a@ == b@),
{
    let av = chars_of(a);
    let bv = chars_of(b);
    chars_eq(&av, &bv)
}

/// Whether `a` contains `p`.
pub fn str_contains(a: &str, p: &str) -> (r: bool)
    ensures
        r == contains_sub(a@, p@),
{
    let av = chars_of(a);
    let pv = chars_of(p);
    contains(&av, &pv)
}


// ---------------------------------------------------------------------------
// Trimming

/// `char::is_whitespace`: the Unicode White_Space characters.
pub open spec fn is_ws(c: char) -> bool {
    ||| ('\t' <= c && c <= '\r')
    ||| c == ' '
    ||| c == '\u{85}'
    ||| c == '\u{A0}'
    ||| c == '\u{1680}'
    ||| ('\u{2000}' <= c && c <= '\u{200A}')
    ||| c == '\u{2028}'
    ||| c == '\u{2029}'
    ||| c == '\u{202F}'
    ||| c == '\u{205F}'
    ||| c == '\u{3000}'
}

pub fn is_whitespace(c: char) -> (r: bool)
    ensures
        r == is_ws(c),
{
    ('\t' <= c && c <= '\r') || c == ' ' || c == '\u{85}' || c == '\u{A0}' || c == '\u{1680}'
        || ('\u{2000}' <= c && c <= '\u{200A}') || c == '\u{2028}' || c == '\u{2029}' || c == '\u{202F}'
        || c == '\u{205F}' || c == '\u{3000}'
}

/// `s` without trailing whitespace (`str::trim_end`).
pub open spec fn trim_end(s: Seq<char>) -> Seq<char>
    decreases s.len(),
{
    if s.len() > 0 && is_ws(s.last()) {
        trim_end(s.drop_last())
    } else {
        s
    }
}

/// `trim_end(s)` is a prefix of `s` that ends in a non-blank (or is empty),
/// and trimming it again changes nothing.
pub proof fn lemma_trim_end(s: Seq<char>)
    ensures
        trim_end(s).len() <= s.len(),
        trim_end(s) == s.take(trim_end(s).len() as int),
        trim_end(s).len() == 0 || !is_ws(trim_end(s).last()),
        trim_end(trim_end(s)) == trim_end(s),
    decreases s.len(),
{
    if s.len() > 0 && is_ws(s.last()) {
        lemma_trim_end(s.drop_last());
        assert(s.drop_last().take(trim_end(s).len() as int) =~= s.take(trim_end(s).len() as int));
    } else {
        assert(s.take(s.len() as int) =~= s);
    }
}

/// A line break at the end is trimmed away.
pub proof fn lemma_trim_end_newline(t: Seq<char>)
    ensures
        trim_end(t.push('\n')) == trim_end(t),
{
    assert(t.push('\n').drop_last() =~= t);
    assert(is_ws('\n'));
}

/// `s` without leading whitespace (`str::trim_start`).
pub open spec fn trim_start(s: Seq<char>) -> Seq<char>
    decreases s.len(),
{
    if s.len() > 0 && is_ws(s[0]) {
        trim_start(s.drop_first())
    } else {
        s
    }
}

/// `s` without leading or trailing whitespace (`str::trim`).
pub open spec fn trim(s: Seq<char>) -> Seq<char> {
    trim_end(trim_start(s))
}

/// The end of `v[lo..hi]` once trailing whitespace is dropped.
pub fn trim_end_pos(v: &Vec<char>, lo: usize, hi: usize) -> (r: usize)
    requires
        lo <= hi <= v@.len(),
    ensures
        lo <= r <= hi,
        v@.subrange(lo as int, r as int) == trim_end(v@.subrange(lo as int, hi as int)),
{
    let mut e = hi;
    while e > lo && is_whitespace(v[e - 1])
        invariant
            lo <= e <= hi <= v@.len(),
            trim_end(v@.subrange(lo as int, e as int)) == trim_end(v@.subrange(lo as int, hi as int)),
        decreases e,
    {
        assert(v@.subrange(lo as int, e as int).drop_last() =~= v@.subrange(lo as int, e - 1));
        e -= 1;
    }
    e
}

/// The start of `v[lo..hi]` once leading whitespace is dropped.
pub fn trim_start_pos(v: &Vec<char>, lo: usize, hi: usize) -> (r: usize)
    requires
        lo <= hi <= v@.len(),
    ensures
        lo <= r <= hi,
        v@.subrange(r as int, hi as int) == trim_start(v@.subrange(lo as int, hi as int)),
{
    let mut b = lo;
    while b < hi && is_whitespace(v[b])
        invariant
            lo <= b <= hi <= v@.len(),
            trim_start(v@.subrange(b as int, hi as int)) == trim_start(v@.subrange(lo as int, hi as int)),
        decreases hi - b,
    {
        assert(v@.subrange(b as int, hi as int).drop_first() =~= v@.subrange(b + 1, hi as int));
        b += 1;
    }
    b
}

/// `s` with every trailing repetition of `p` removed (`str::trim_end_matches`).
pub open spec fn trim_end_matches(s: Seq<char>, p: Seq<char>) -> Seq<char>
    decreases s.len(),
{
    if p.len() > 0 && s.len() >= p.len() && s.subrange(s.len() - p.len(), s.len() as int) == p {
        trim_end_matches(s.subrange(0, s.len() - p.len()), p)
    } else {
        s
    }
}


// ---------------------------------------------------------------------------
// Replacing

/// `s` with every occurrence of `p` replaced by `r`, left to right (`str::replace`).
pub open spec fn replace_all(s: Seq<char>, p: Seq<char>, r: Seq<char>) -> Seq<char>
    decreases s.len(),
{
    let i = find(s, p);
    proof {
        lemma_find_facts(s, p, 0);
    }
    if p.len() == 0 || i == -1 {
        s
    } else {
        s.take(i) + r + replace_all(s.skip(i + p.len()), p, r)
    }
}

/// Appends `s` with every occurrence of the non-empty `p` replaced by `r`.
pub fn push_replaced(out: &mut String, s: &str, p: &str, r: &str)
    requires
        p@.len() > 0,
    ensures
        final(out)@ == old(out)@ + replace_all(s@, p@, r@),
{
    let sv = chars_of(s);
    let pv = chars_of(p);
    let n = sv.len();
    let ghost o0 = out@;
    let mut start: usize = 0;
    assert(sv@.subrange(0, n as int) =~= sv@);
    assert(out@ =~= o0 + seq![]);
    loop
        invariant
            n == sv@.len(),
            start <= n,
            pv@ == p@,
            p@.len() > 0,
            o0 == old(out)@,
            out@ + replace_all(sv@.subrange(start as int, n as int), p@, r@) == o0 + replace_all(s@, p@, r@),
        decreases n - start,
    {
        let ghost t = sv@.subrange(start as int, n as int);
        let found = find_sub(&sv, start, &pv);
        proof {
            lemma_find_facts(sv@, pv@, start as int);
            lemma_find_facts(t, p@, 0);
            lemma_find_shift(sv@, p@, start as int);
        }
        match found {
            None => {
                push_range(out, &sv, start, n);
                assert(replace_all(t, p@, r@) == t);
                return;
            },
            Some(i) => {
                let ghost before = out@;
                push_range(out, &sv, start, i);
                push_str(out, r);
                proof {
                    let k = i - start;
                    assert(t.take(k) =~= sv@.subrange(start as int, i as int));
                    assert(t.skip(k + p@.len()) =~= sv@.subrange(i + p@.len(), n as int));
                    assert(replace_all(t, p@, r@) == t.take(k) + r@ + replace_all(t.skip(k + p@.len()), p@, r@));
                }
                start = i + pv.len();
            },
        }
    }
}

/// Searching from `lo` in `s` is searching from 0 in `s[lo..]`, shifted.
pub proof fn lemma_find_shift(s: Seq<char>, p: Seq<char>, lo: int)
    requires
        0 <= lo <= s.len(),
    ensures
        find_from(s, p, lo) == if find(s.subrange(lo, s.len() as int), p) == -1 { -1 } else { lo + find(s.subrange(lo, s.len() as int), p) },
{
    let t = s.subrange(lo, s.len() as int);
    lemma_find_facts(s, p, lo);
    lemma_find_facts(t, p, 0);
    assert forall|j: int| 0 <= j implies (match_at(t, j, p) == match_at(s, lo + j, p)) by {
        if j + p.len() <= t.len() {
            assert(t.subrange(j, j + p.len()) =~= s.subrange(lo + j, lo + j + p.len()));
        }
    }
    if find(t, p) != -1 {
        let k = find(t, p);
        assert(match_at(s, lo + k, p));
        assert forall|j: int| lo <= j < lo + k implies !match_at(s, j, p) by {
            assert(!match_at(t, j - lo, p));
        }
        lemma_find_from(s, p, lo, lo + k);
    } else {
        if find_from(s, p, lo) != -1 {
            let k = find_from(s, p, lo);
            assert(match_at(t, k - lo, p));
        }
    }
}

/// The second piece of `s` split at `p`: the text after the first `p` up to
/// the next `p` (`s.split(p).nth(1)`).
pub open spec fn second_piece(s: Seq<char>, p: Seq<char>) -> Option<Seq<char>> {
    let i = find(s, p);
    let rest = s.skip(i + p.len());
    let j = find(rest, p);
    if i == -1 {
        None
    } else if j == -1 {
        Some(rest)
    } else {
        Some(rest.take(j))
    }
}


pub proof fn lemma_seq_lt_irrefl(a: Seq<char>)
    ensures
        !seq_lt(a, a),
    decreases a.len(),
{
    if a.len() > 0 {
        lemma_seq_lt_irrefl(a.drop_first());
    }
}

pub proof fn lemma_seq_lt_total(a: Seq<char>, b: Seq<char>)
    ensures
        a != b ==> seq_lt(a, b) || seq_lt(b, a),
        seq_lt(a, b) ==> !seq_lt(b, a),
        seq_lt(a, b) ==> a != b,
    decreases a.len(),
{
    if a.len() > 0 && b.len() > 0 && a[0] == b[0] {
        lemma_seq_lt_total(a.drop_first(), b.drop_first());
        if a.drop_first() =~= b.drop_first() {
            assert forall|i: int| 0 <= i < a.len() implies a[i] == b[i] by {
                if i > 0 {
                    assert(a[i] == a.drop_first()[i - 1]);
                    assert(b[i] == b.drop_first()[i - 1]);
                }
            }
            assert(a =~= b);
        }
    }
    if a.len() == 0 && b.len() == 0 {
        assert(a =~= b);
    }
    if a.len() > 0 && b.len() > 0 && a[0] != b[0] {
        let x = a[0];
        let y = b[0];
        if (x as u32) == (y as u32) {
            vstd::utf8::char_u32_cast(x, x as u32);
            vstd::utf8::char_u32_cast(y, y as u32);
        }
    }
    if seq_lt(a, b) && a == b {
        lemma_seq_lt_irrefl(a);
    }
}

pub proof fn lemma_seq_lt_trans(a: Seq<char>, b: Seq<char>, c: Seq<char>)
    requires
        seq_lt(a, b),
        seq_lt(b, c),
    ensures
        seq_lt(a, c),
    decreases a.len(),
{
    if a.len() > 0 && b.len() > 0 && c.len() > 0 && a[0] == b[0] && b[0] == c[0] {
        lemma_seq_lt_trans(a.drop_first(), b.drop_first(), c.drop_first());
    }
}

/// Strictly increasing in the order of `str`.
pub open spec fn sorted_strict(s: Seq<Seq<char>>) -> bool {
    forall|i: int, j: int| 0 <= i < j < s.len() ==> seq_lt(#[trigger] s[i], #[trigger] s[j])
}

/// Appends the strings of `v` joined by `sep`.
pub fn push_joined_strings(s: &mut String, v: &[String], sep: &str)
    ensures
        final(s)@ == old(s)@ + join(sviews(v@), sep@),
{
    let ghost s0 = s@;
    let mut i: usize = 0;
    assert(sviews(v@).take(0) =~= Seq::<Seq<char>>::empty());
    while i < v.len()
        invariant
            i <= v@.len(),
            s@ == s0 + join(sviews(v@).take(i as int), sep@),
        decreases v@.len() - i,
    {
        let ghost next = sviews(v@).take(i + 1);
        assert(next.drop_last() =~= sviews(v@).take(i as int));
        assert(next.last() == v@[i as int]@);
        if i > 0 {
            push_str(s, sep);
        } else {
            assert(next =~= seq![v@[i as int]@]);
        }
        push_str(s, v[i].as_str());
        assert(s@ =~= s0 + join(next, sep@));
        i += 1;
    }
    assert(sviews(v@).take(v@.len() as int) =~= sviews(v@));
}

/// `s` without trailing whitespace.
pub fn trimmed_end(s: &str) -> (r: String)
    ensures
        r@ == trim_end(s@),
{
    let v = chars_of(s);
    let n = v.len();
    let e = trim_end_pos(&v, 0, n);
    assert(v@.subrange(0, n as int) =~= v@);
    string_of_range(&v, 0, e)
}


// ---------------------------------------------------------------------------
// Case

/// What `str::to_lowercase` gives for `s`.
pub uninterp spec fn lowercase(s: Seq<char>) -> Seq<char>;

/// `str::to_lowercase`: the Unicode lower case of `s`. Its result is named by
/// `lowercase`; nothing more is claimed of it.
#[verifier::external_body]
pub(crate) fn to_lowercase(s: &str) -> (r: String)
    ensures
        r@ == lowercase(s@),
{
    s.to_lowercase()
}

} // verus!
