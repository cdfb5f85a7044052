//! Character-level text operations: comparing, trimming, splitting and joining
//! strings, and reading and writing decimal numbers.
use vstd::prelude::*;

verus! {

/// The characters with the Unicode `White_Space` property, which is what
/// `char::is_whitespace` documents that it tests.
pub open spec fn is_ws(c: char) -> bool {
    let n = c as u32;
    ||| 0x09 <= n <= 0x0D
    ||| n == 0x20
    ||| n == 0x85
    ||| n == 0xA0
    ||| n == 0x1680
    ||| 0x2000 <= n <= 0x200A
    ||| n == 0x2028
    ||| n == 0x2029
    ||| n == 0x202F
    ||| n == 0x205F
    ||| n == 0x3000
}

pub open spec fn has_prefix(s: Seq<char>, p: Seq<char>) -> bool {
    p.len() <= s.len() && s.take(p.len() as int) == p
}

pub open spec fn has_suffix(s: Seq<char>, p: Seq<char>) -> bool {
    p.len() <= s.len() && s.skip(s.len() - p.len()) == p
}

/// `s` with every leading repetition of a non-empty `p` removed.
pub open spec fn strip_prefixes(s: Seq<char>, p: Seq<char>) -> Seq<char>
    decreases s.len(),
{
    if p.len() > 0 && has_prefix(s, p) {
        strip_prefixes(s.skip(p.len() as int), p)
    } else {
        s
    }
}

/// `s` with every trailing repetition of a non-empty `p` removed.
pub open spec fn strip_suffixes(s: Seq<char>, p: Seq<char>) -> Seq<char>
    decreases s.len(),
{
    if p.len() > 0 && has_suffix(s, p) {
        strip_suffixes(s.take(s.len() - p.len()), p)
    } else {
        s
    }
}

pub open spec fn trim_ws_start(s: Seq<char>) -> Seq<char>
    decreases s.len(),
{
    if s.len() > 0 && is_ws(s[0]) {
        trim_ws_start(s.drop_first())
    } else {
        s
    }
}

pub open spec fn trim_ws_end(s: Seq<char>) -> Seq<char>
    decreases s.len(),
{
    if s.len() > 0 && is_ws(s.last()) {
        trim_ws_end(s.drop_last())
    } else {
        s
    }
}

/// `s` without leading and trailing whitespace.
pub open spec fn trim_ws(s: Seq<char>) -> Seq<char> {
    trim_ws_end(trim_ws_start(s))
}

/// The words of `s` after `cur`, the word read so far: the maximal runs of
/// characters that are not whitespace, in order.
pub open spec fn split_from(s: Seq<char>, cur: Seq<char>) -> Seq<Seq<char>>
    decreases s.len(),
{
    let done = if cur.len() > 0 { seq![cur] } else { Seq::<Seq<char>>::empty() };
    if s.len() == 0 {
        done
    } else if is_ws(s[0]) {
        done + split_from(s.drop_first(), Seq::empty())
    } else {
        split_from(s.drop_first(), cur.push(s[0]))
    }
}

/// The whitespace-separated words of `s`.
pub open spec fn split_ws(s: Seq<char>) -> Seq<Seq<char>> {
    split_from(s, Seq::empty())
}

/// The words joined by `sep`, with `sep` only between two words.
pub open spec fn join(words: Seq<Seq<char>>, sep: Seq<char>) -> Seq<char>
    decreases words.len(),
{
    if words.len() == 0 {
        Seq::empty()
    } else if words.len() == 1 {
        words[0]
    } else {
        join(words.drop_last(), sep) + sep + words.last()
    }
}

pub open spec fn digit_char(d: nat) -> char {
    if d == 0 { '0' }
    else if d == 1 { '1' }
    else if d == 2 { '2' }
    else if d == 3 { '3' }
    else if d == 4 { '4' }
    else if d == 5 { '5' }
    else if d == 6 { '6' }
    else if d == 7 { '7' }
    else if d == 8 { '8' }
    else { '9' }
}

/// The decimal digits of `n`, without leading zeros.
pub open spec fn decimal(n: nat) -> Seq<char>
    decreases n,
{
    if n < 10 {
        seq![digit_char(n)]
    } else {
        decimal(n / 10).push(digit_char(n % 10))
    }
}

pub open spec fn is_digit(c: char) -> bool {
    0x30 <= (c as u32) <= 0x39
}

pub open spec fn all_digits(s: Seq<char>) -> bool {
    forall|i: int| 0 <= i < s.len() ==> is_digit(#[trigger] s[i])
}

/// The number that the digits of `s` write in decimal.
pub open spec fn digits_value(s: Seq<char>) -> nat
    decreases s.len(),
{
    if s.len() == 0 {
        0
    } else {
        digits_value(s.drop_last()) * 10 + ((s.last() as u32) - 0x30) as nat
    }
}

/// Whether `s` reads as an `isize`: an optional sign, at least one ASCII digit
/// and nothing else, of a value in the range of `isize`.
pub open spec fn is_isize_literal(s: Seq<char>) -> bool {
    if s.len() > 0 && s[0] == '-' {
        let d = s.drop_first();
        d.len() > 0 && all_digits(d) && digits_value(d) <= (isize::MAX as int) + 1
    } else if s.len() > 0 && s[0] == '+' {
        let d = s.drop_first();
        d.len() > 0 && all_digits(d) && digits_value(d) <= isize::MAX as int
    } else {
        s.len() > 0 && all_digits(s) && digits_value(s) <= isize::MAX as int
    }
}

/// Whether `c` is whitespace.
pub fn is_whitespace(c: char) -> (r: bool)
    ensures
        r == is_ws(c),
{
    let n = c as u32;
    (0x09 <= n && n <= 0x0D) || n == 0x20 || n == 0x85 || n == 0xA0 || n == 0x1680 || (0x2000
        <= n && n <= 0x200A) || n == 0x2028 || n == 0x2029 || n == 0x202F || n == 0x205F || n
        == 0x3000
}

/// The characters of `s`.
pub fn chars_of(s: &str) -> (v: Vec<char>)
    ensures
        v@ == s@,
{
    let n = s.unicode_len();
    let mut v: Vec<char> = Vec::new();
    let mut i: usize = 0;
    while i < n
        invariant
            n == s@.len(),
            i <= n,
            v@ == s@.take(i as int),
        decreases n - i,
    {
        v.push(s.get_char(i));
        i = i + 1;
        assert(v@ == s@.take(i as int));
    }
    assert(s@.take(n as int) == s@);
    v
}

/// Whether `p` occurs in `v` at `start`.
fn matches_at(v: &Vec<char>, start: usize, p: &Vec<char>) -> (r: bool)
    requires
        start + p.len() <= v.len(),
    ensures
        r == (v@.subrange(start as int, start + p.len()) == p@),
{
    let mut i: usize = 0;
    while i < p.len()
        invariant
            start + p.len() <= v.len(),
            i <= p.len(),
            forall|j: int| 0 <= j < i ==> v@[start + j] == p@[j],
        decreases p.len() - i,
    {
        if v[start + i] != p[i] {
            assert(v@.subrange(start as int, start + p.len())[i as int] != p@[i as int]);
            return false;
        }
        i = i + 1;
    }
    assert(v@.subrange(start as int, start + p.len()) =~= p@);
    true
}

/// Whether the two strings hold the same characters.
pub fn str_eq(a: &str, b: &str) -> (r: bool)
    ensures
        r == (a@ == b@),
{
    let av = chars_of(a);
    let bv = chars_of(b);
    if av.len() != bv.len() {
        return false;
    }
    let r = matches_at(&av, 0, &bv);
    assert(av@.subrange(0, av@.len() as int) =~= av@);
    r
}

/// Whether `s` begins with `p`.
pub fn starts_with(s: &str, p: &str) -> (r: bool)
    ensures
        r == has_prefix(s@, p@),
{
    let sv = chars_of(s);
    let pv = chars_of(p);
    if pv.len() > sv.len() {
        return false;
    }
    let r = matches_at(&sv, 0, &pv);
    assert(sv@.subrange(0, pv@.len() as int) =~= sv@.take(pv@.len() as int));
    r
}

/// `s` with every leading repetition of `pat` removed (`str::trim_start_matches`).
pub fn trim_start_matches<'a>(s: &'a str, pat: &str) -> (r: &'a str)
    ensures
        r@ == strip_prefixes(s@, pat@),
{
    let sv = chars_of(s);
    let pv = chars_of(pat);
    if pv.len() == 0 {
        return s;
    }
    let mut start: usize = 0;
    assert(s@.skip(0) =~= s@);
    while pv.len() <= sv.len() - start && matches_at(&sv, start, &pv)
        invariant
            sv@ == s@,
            pv@ == pat@,
            pv@.len() > 0,
            start <= sv@.len(),
            strip_prefixes(s@, pat@) == strip_prefixes(s@.skip(start as int), pat@),
        decreases sv.len() - start,
    {
        let ghost t = s@.skip(start as int);
        assert(t.take(pat@.len() as int) =~= s@.subrange(start as int, start + pat@.len()));
        assert(t.skip(pat@.len() as int) =~= s@.skip(start + pat@.len()));
        start = start + pv.len();
    }
    let ghost t = s@.skip(start as int);
    if pv.len() <= sv.len() - start {
        assert(t.take(pat@.len() as int) =~= s@.subrange(start as int, start + pat@.len()));
    }
    let r = s.substring_char(start, sv.len());
    assert(r@ =~= t);
    r
}

/// `s` with every trailing repetition of `pat` removed (`str::trim_end_matches`).
pub fn trim_end_matches<'a>(s: &'a str, pat: &str) -> (r: &'a str)
    ensures
        r@ == strip_suffixes(s@, pat@),
{
    let sv = chars_of(s);
    let pv = chars_of(pat);
    if pv.len() == 0 {
        return s;
    }
    let mut end: usize = sv.len();
    assert(s@.take(end as int) =~= s@);
    while end >= pv.len() && matches_at(&sv, end - pv.len(), &pv)
        invariant
            sv@ == s@,
            pv@ == pat@,
            pv@.len() > 0,
            end <= sv@.len(),
            strip_suffixes(s@, pat@) == strip_suffixes(s@.take(end as int), pat@),
        decreases end,
    {
        let ghost t = s@.take(end as int);
        assert(t.skip(t.len() - pat@.len()) =~= s@.subrange(end - pat@.len(), end as int));
        assert(t.take(t.len() - pat@.len()) =~= s@.take(end - pat@.len()));
        end = end - pv.len();
    }
    let ghost t = s@.take(end as int);
    if end >= pv.len() {
        assert(t.skip(t.len() - pat@.len()) =~= s@.subrange(end - pat@.len(), end as int));
    }
    let r = s.substring_char(0, end);
    assert(r@ =~= t);
    r
}

/// The views of a sequence of string slices.
pub open spec fn str_views(ws: Seq<&str>) -> Seq<Seq<char>> {
    ws.map_values(|w: &str| w@)
}

/// `s` without leading and trailing whitespace (`str::trim`).
pub fn trim<'a>(s: &'a str) -> (r: &'a str)
    ensures
        r@ == trim_ws(s@),
{
    let v = chars_of(s);
    let mut start: usize = 0;
    assert(s@.skip(0) =~= s@);
    while start < v.len() && is_whitespace(v[start])
        invariant
            v@ == s@,
            start <= v@.len(),
            trim_ws_start(s@) == trim_ws_start(s@.skip(start as int)),
        decreases v.len() - start,
    {
        assert(s@.skip(start as int).drop_first() =~= s@.skip(start + 1));
        start = start + 1;
    }
    assert(trim_ws_start(s@) == s@.skip(start as int));
    let mut end: usize = v.len();
    assert(s@.skip(start as int) =~= s@.subrange(start as int, end as int));
    while end > start && is_whitespace(v[end - 1])
        invariant
            v@ == s@,
            start <= end <= v@.len(),
            trim_ws(s@) == trim_ws_end(s@.subrange(start as int, end as int)),
        decreases end,
    {
        assert(s@.subrange(start as int, end as int).drop_last() =~= s@.subrange(
            start as int,
            end - 1,
        ));
        end = end - 1;
    }
    s.substring_char(start, end)
}

/// The whitespace-separated words of `s` (`str::split_whitespace`).
pub fn split_whitespace<'a>(s: &'a str) -> (r: Vec<&'a str>)
    ensures
        str_views(r@) == split_ws(s@),
{
    let v = chars_of(s);
    let mut words: Vec<&'a str> = Vec::new();
    let mut start: usize = 0;
    let mut i: usize = 0;
    assert(s@.skip(0) =~= s@);
    assert(s@.subrange(0, 0) =~= Seq::<char>::empty());
    assert(str_views(words@) =~= Seq::<Seq<char>>::empty());
    while i < v.len()
        invariant
            v@ == s@,
            start <= i <= v@.len(),
            split_ws(s@) == str_views(words@) + split_from(
                s@.skip(i as int),
                s@.subrange(start as int, i as int),
            ),
        decreases v.len() - i,
    {
        let ghost rest = s@.skip(i as int);
        let ghost cur = s@.subrange(start as int, i as int);
        let ghost before = str_views(words@);
        assert(rest.drop_first() =~= s@.skip(i + 1));
        assert(rest[0] == v@[i as int]);
        if is_whitespace(v[i]) {
            if start < i {
                let w = s.substring_char(start, i);
                words.push(w);
                assert(str_views(words@) =~= before.push(cur));
                assert(before + split_from(rest, cur) =~= str_views(words@) + split_from(
                    s@.skip(i + 1),
                    Seq::empty(),
                ));
            } else {
                assert(cur =~= Seq::<char>::empty());
                assert(split_from(rest, cur) =~= split_from(s@.skip(i + 1), Seq::empty()));
            }
            i = i + 1;
            start = i;
            assert(s@.subrange(start as int, i as int) =~= Seq::<char>::empty());
        } else {
            assert(cur.push(v@[i as int]) =~= s@.subrange(start as int, i + 1));
            i = i + 1;
        }
    }
    let ghost cur = s@.subrange(start as int, i as int);
    let ghost before = str_views(words@);
    assert(s@.skip(i as int) =~= Seq::<char>::empty());
    if start < i {
        let w = s.substring_char(start, i);
        words.push(w);
        assert(str_views(words@) =~= before.push(cur));
        assert(before + seq![cur] =~= str_views(words@));
    } else {
        assert(before + Seq::<Seq<char>>::empty() =~= before);
    }
    words
}

fn digit_str(d: u64) -> (r: &'static str)
    requires
        d < 10,
    ensures
        r@ == seq![digit_char(d as nat)],
{
    if d == 0 {
        proof { reveal_strlit("0"); }
        "0"
    } else if d == 1 {
        proof { reveal_strlit("1"); }
        "1"
    } else if d == 2 {
        proof { reveal_strlit("2"); }
        "2"
    } else if d == 3 {
        proof { reveal_strlit("3"); }
        "3"
    } else if d == 4 {
        proof { reveal_strlit("4"); }
        "4"
    } else if d == 5 {
        proof { reveal_strlit("5"); }
        "5"
    } else if d == 6 {
        proof { reveal_strlit("6"); }
        "6"
    } else if d == 7 {
        proof { reveal_strlit("7"); }
        "7"
    } else if d == 8 {
        proof { reveal_strlit("8"); }
        "8"
    } else {
        proof { reveal_strlit("9"); }
        "9"
    }
}

/// Appends the decimal digits of `n` to `out`.
pub fn push_decimal(out: &mut String, n: u64)
    ensures
        final(out)@ == old(out)@ + decimal(n as nat),
    decreases n,
{
    if n >= 10 {
        push_decimal(out, n / 10);
    }
    out.append(digit_str(n % 10));
    assert(out@ =~= old(out)@ + decimal(n as nat));
}

/// A prefix of a string of digits never writes a larger number than the whole.
pub proof fn lemma_digits_value_prefix(t: Seq<char>, k: int)
    requires
        all_digits(t),
        0 <= k <= t.len(),
    ensures
        digits_value(t.take(k)) <= digits_value(t),
    decreases t.len(),
{
    if k < t.len() {
        let u = t.drop_last();
        assert(all_digits(u)) by {
            assert forall|i: int| 0 <= i < u.len() implies is_digit(#[trigger] u[i]) by {
                assert(u[i] == t[i]);
            }
        }
        lemma_digits_value_prefix(u, k);
        assert(u.take(k) =~= t.take(k));
        assert(is_digit(t[t.len() - 1]));
    } else {
        assert(t.take(k) =~= t);
    }
}

/// Whether `s` reads as an `isize` (`s.parse::<isize>().is_ok()`).
pub fn parses_as_isize(s: &str) -> (r: bool)
    ensures
        r == is_isize_literal(s@),
{
    let v = chars_of(s);
    if v.len() == 0 {
        return false;
    }
    let bound: u64 = isize::MAX as u64;
    let start: usize;
    let limit: u64;
    if v[0] == '-' {
        start = 1;
        limit = bound + 1;
    } else if v[0] == '+' {
        start = 1;
        limit = bound;
    } else {
        start = 0;
        limit = bound;
    }
    let ghost d = s@.skip(start as int);
    assert(start == 1 ==> d =~= s@.drop_first());
    assert(start == 0 ==> d =~= s@);
    assert(is_isize_literal(s@) <==> (d.len() > 0 && all_digits(d) && digits_value(d) <= limit));
    if start >= v.len() {
        return false;
    }
    let mut val: u64 = 0;
    let mut i: usize = start;
    assert(d.take(0) =~= Seq::<char>::empty());
    while i < v.len()
        invariant
            v@ == s@,
            start <= i <= v@.len(),
            d == s@.skip(start as int),
            all_digits(d.take(i - start)),
            val == digits_value(d.take(i - start)),
            val <= limit,
            limit <= bound + 1,
            bound == isize::MAX,
            is_isize_literal(s@) <==> (d.len() > 0 && all_digits(d) && digits_value(d) <= limit),
        decreases v.len() - i,
    {
        let c = v[i];
        assert(d[i - start] == c);
        let n = c as u32;
        if n < 0x30 || n > 0x39 {
            assert(!all_digits(d));
            return false;
        }
        let next: u128 = (val as u128) * 10 + ((n - 0x30) as u128);
        let ghost p = d.take(i - start + 1);
        assert(p.drop_last() =~= d.take(i - start));
        assert(p.last() == c);
        assert(all_digits(p)) by {
            assert forall|j: int| 0 <= j < p.len() implies is_digit(#[trigger] p[j]) by {
                if j < p.len() - 1 {
                    assert(p[j] == d.take(i - start)[j]);
                }
            }
        }
        assert(next == digits_value(p));
        if next > limit as u128 {
            proof {
                if all_digits(d) {
                    lemma_digits_value_prefix(d, (i - start + 1) as int);
                }
            }
            return false;
        }
        val = next as u64;
        i = i + 1;
    }
    assert(d.take(i - start) =~= d);
    true
}

} // verus!
