//! Character-level text primitives: whitespace, trimming, prefixes, lines,
//! words and decimal integers, each with the meaning Rust's `str` gives it.

use vstd::prelude::*;

verus! {

/// Unicode `White_Space`, the property that `char::is_whitespace` tests.
pub open spec fn is_space(c: char) -> bool {
    ||| ('\u{9}' <= c && c <= '\u{d}')
    ||| c == ' '
    ||| c == '\u{85}'
    ||| c == '\u{a0}'
    ||| c == '\u{1680}'
    ||| ('\u{2000}' <= c && c <= '\u{200a}')
    ||| c == '\u{2028}'
    ||| c == '\u{2029}'
    ||| c == '\u{202f}'
    ||| c == '\u{205f}'
    ||| c == '\u{3000}'
}

/// Whether `c` is whitespace in the sense of `char::is_whitespace`.
pub fn is_space_char(c: char) -> (r: bool)
    ensures
        r == is_space(c),
{
    ('\u{9}' <= c && c <= '\u{d}') || c == ' ' || c == '\u{85}' || c == '\u{a0}' || c == '\u{1680}'
        || ('\u{2000}' <= c && c <= '\u{200a}') || c == '\u{2028}' || c == '\u{2029}'
        || c == '\u{202f}' || c == '\u{205f}' || c == '\u{3000}'
}


/// The characters of `s`, in order.
pub fn chars_of(s: &str) -> (v: Vec<char>)
    ensures
        v@ == s@,
{
    let mut v: Vec<char> = Vec::new();
    push_str(&mut v, s);
    v
}

/// `s` without its leading whitespace, as `str::trim_start` gives it.
pub open spec fn trim_start(s: Seq<char>) -> Seq<char>
    decreases s.len(),
{
    if s.len() > 0 && is_space(s[0]) {
        trim_start(s.drop_first())
    } else {
        s
    }
}

/// `s` without its trailing whitespace, as `str::trim_end` gives it.
pub open spec fn trim_end(s: Seq<char>) -> Seq<char>
    decreases s.len(),
{
    if s.len() > 0 && is_space(s.last()) {
        trim_end(s.drop_last())
    } else {
        s
    }
}

/// `s` without leading and trailing whitespace, as `str::trim` gives it.
pub open spec fn trim(s: Seq<char>) -> Seq<char> {
    trim_end(trim_start(s))
}

/// Whether `s` begins with `p`.
pub open spec fn has_prefix(s: Seq<char>, p: Seq<char>) -> bool {
    p.len() <= s.len() && s.take(p.len() as int) == p
}

/// `s` with the prefix `p` taken off, as `str::strip_prefix` gives it.
pub open spec fn strip_prefix(s: Seq<char>, p: Seq<char>) -> Option<Seq<char>> {
    if has_prefix(s, p) {
        Some(s.skip(p.len() as int))
    } else {
        None
    }
}

/// The characters of `t` up to its first whitespace.
pub open spec fn leading_word(t: Seq<char>) -> Seq<char>
    decreases t.len(),
{
    if t.len() == 0 || is_space(t[0]) {
        seq![]
    } else {
        seq![t[0]] + leading_word(t.drop_first())
    }
}

/// The first whitespace-separated word of `s`, as `s.split_whitespace().next()` gives it.
pub open spec fn first_word(s: Seq<char>) -> Option<Seq<char>> {
    let t = trim_start(s);
    if t.len() == 0 {
        None
    } else {
        Some(leading_word(t))
    }
}


/// The start of `trim_start` within `v[lo..hi]`.
pub fn trim_start_at(v: &Vec<char>, lo: usize, hi: usize) -> (r: usize)
    requires
        lo <= hi <= v.len(),
    ensures
        lo <= r <= hi,
        v@.subrange(r as int, hi as int) == trim_start(v@.subrange(lo as int, hi as int)),
{
    let mut i = lo;
    while i < hi && is_space_char(v[i])
        invariant
            lo <= i <= hi <= v.len(),
            trim_start(v@.subrange(i as int, hi as int)) == trim_start(
                v@.subrange(lo as int, hi as int),
            ),
        decreases hi - i,
    {
        assert(v@.subrange(i as int, hi as int).drop_first() =~= v@.subrange(i + 1, hi as int));
        i = i + 1;
    }
    i
}

/// The end of `trim_end` within `v[lo..hi]`.
pub fn trim_end_at(v: &Vec<char>, lo: usize, hi: usize) -> (r: usize)
    requires
        lo <= hi <= v.len(),
    ensures
        lo <= r <= hi,
        v@.subrange(lo as int, r as int) == trim_end(v@.subrange(lo as int, hi as int)),
{
    let mut j = hi;
    while j > lo && is_space_char(v[j - 1])
        invariant
            lo <= j <= hi <= v.len(),
            trim_end(v@.subrange(lo as int, j as int)) == trim_end(
                v@.subrange(lo as int, hi as int),
            ),
        decreases j - lo,
    {
        assert(v@.subrange(lo as int, j as int).drop_last() =~= v@.subrange(lo as int, j - 1));
        j = j - 1;
    }
    j
}

/// The bounds of `trim` within `v[lo..hi]`.
pub fn trim_at(v: &Vec<char>, lo: usize, hi: usize) -> (r: (usize, usize))
    requires
        lo <= hi <= v.len(),
    ensures
        lo <= r.0 <= r.1 <= hi,
        v@.subrange(r.0 as int, r.1 as int) == trim(v@.subrange(lo as int, hi as int)),
{
    let a = trim_start_at(v, lo, hi);
    let b = trim_end_at(v, a, hi);
    (a, b)
}

/// Whether `v[lo..hi]` equals `p`.
pub fn equals_at(v: &Vec<char>, lo: usize, hi: usize, p: &Vec<char>) -> (r: bool)
    requires
        lo <= hi <= v.len(),
    ensures
        r == (v@.subrange(lo as int, hi as int) == p@),
{
    if hi - lo != p.len() {
        return false;
    }
    let mut k: usize = 0;
    while k < p.len()
        invariant
            lo <= hi <= v.len(),
            hi - lo == p.len(),
            0 <= k <= p.len(),
            forall|m: int| 0 <= m < k ==> v@[lo + m] == p@[m],
        decreases p.len() - k,
    {
        if v[lo + k] != p[k] {
            assert(v@.subrange(lo as int, hi as int)[k as int] != p@[k as int]);
            return false;
        }
        k = k + 1;
    }
    assert(v@.subrange(lo as int, hi as int) =~= p@);
    true
}

/// Whether `v[lo..hi]` begins with `p`.
pub fn has_prefix_at(v: &Vec<char>, lo: usize, hi: usize, p: &Vec<char>) -> (r: bool)
    requires
        lo <= hi <= v.len(),
    ensures
        r == has_prefix(v@.subrange(lo as int, hi as int), p@),
{
    if p.len() > hi - lo {
        return false;
    }
    let r = equals_at(v, lo, lo + p.len(), p);
    assert(v@.subrange(lo as int, hi as int).take(p.len() as int) =~= v@.subrange(
        lo as int,
        lo + p.len(),
    ));
    r
}


/// The bounds of `first_word` within `v[lo..hi]`, when there is a word.
pub fn first_word_at(v: &Vec<char>, lo: usize, hi: usize) -> (r: Option<(usize, usize)>)
    requires
        lo <= hi <= v.len(),
    ensures
        match r {
            Some((a, b)) => lo <= a <= b <= hi && first_word(v@.subrange(lo as int, hi as int))
                == Some(v@.subrange(a as int, b as int)),
            None => first_word(v@.subrange(lo as int, hi as int)) is None,
        },
{
    let a = trim_start_at(v, lo, hi);
    if a == hi {
        return None;
    }
    let mut b = a;
    while b < hi && !is_space_char(v[b])
        invariant
            lo <= a <= b <= hi <= v.len(),
            v@.subrange(a as int, b as int) + leading_word(v@.subrange(b as int, hi as int))
                == leading_word(v@.subrange(a as int, hi as int)),
        decreases hi - b,
    {
        assert(v@.subrange(b as int, hi as int).drop_first() =~= v@.subrange(b + 1, hi as int));
        assert(v@.subrange(a as int, b + 1) =~= v@.subrange(a as int, b as int) + seq![v@[b as int]]);
        b = b + 1;
    }
    assert(leading_word(v@.subrange(b as int, hi as int)) =~= Seq::<char>::empty());
    assert(v@.subrange(a as int, b as int) + Seq::<char>::empty() =~= v@.subrange(a as int, b as int));
    Some((a, b))
}

/// Whether `c` is an ASCII decimal digit.
pub open spec fn is_digit(c: char) -> bool {
    '0' <= c && c <= '9'
}

/// The value of the decimal numeral `d`, most significant digit first.
pub open spec fn digits_value(d: Seq<char>) -> int
    decreases d.len(),
{
    if d.len() == 0 {
        0
    } else {
        digits_value(d.drop_last()) * 10 + (d.last() as int - '0' as int)
    }
}

/// Whether every character of `d` is a decimal digit.
pub open spec fn all_digits(d: Seq<char>) -> bool {
    forall|i: int| 0 <= i < d.len() ==> is_digit(#[trigger] d[i])
}

/// What `str::parse::<i32>` gives for `s`: an optional sign, then at least one
/// decimal digit and nothing else, with the value in `i32`'s range.
pub open spec fn parse_i32(s: Seq<char>) -> Option<i32> {
    let negative = s.len() > 0 && s[0] == '-';
    let digits = if s.len() > 0 && (s[0] == '-' || s[0] == '+') {
        s.drop_first()
    } else {
        s
    };
    let value = if negative {
        -digits_value(digits)
    } else {
        digits_value(digits)
    };
    if digits.len() > 0 && all_digits(digits) && i32::MIN <= value <= i32::MAX {
        Some(value as i32)
    } else {
        None
    }
}

proof fn lemma_digits_value_grows(d: Seq<char>, k: int)
    requires
        all_digits(d),
        0 <= k <= d.len(),
    ensures
        0 <= digits_value(d.take(k)) <= digits_value(d),
    decreases d.len(),
{
    if d.len() > 0 {
        assert(all_digits(d.drop_last()));
        if k == d.len() {
            assert(d.take(k) =~= d);
            lemma_digits_value_grows(d.drop_last(), k - 1);
            assert(d.drop_last().take(k - 1) =~= d.drop_last());
        } else {
            lemma_digits_value_grows(d.drop_last(), k);
            assert(d.drop_last().take(k) =~= d.take(k));
            lemma_digits_value_grows(d.drop_last(), d.len() - 1);
            assert(d.drop_last().take(d.len() - 1) =~= d.drop_last());
            assert(is_digit(d[d.len() - 1]));
        }
    } else {
        assert(d.take(k) =~= d);
    }
}

/// `str::parse::<i32>` on `v[lo..hi]`.
pub fn parse_i32_at(v: &Vec<char>, lo: usize, hi: usize) -> (r: Option<i32>)
    requires
        lo <= hi <= v.len(),
    ensures
        r == parse_i32(v@.subrange(lo as int, hi as int)),
{
    let ghost s = v@.subrange(lo as int, hi as int);
    let mut start = lo;
    let mut negative = false;
    if lo < hi && (v[lo] == '-' || v[lo] == '+') {
        negative = v[lo] == '-';
        start = lo + 1;
    }
    let ghost digits = v@.subrange(start as int, hi as int);
    assert(lo < hi && (v@[lo as int] == '-' || v@[lo as int] == '+') ==> digits =~= s.drop_first());
    assert(!(lo < hi && (v@[lo as int] == '-' || v@[lo as int] == '+')) ==> digits =~= s);
    if start == hi {
        return None;
    }
    // The magnitude is accumulated while it stays within 2^31; past that no
    // `i32` has it.
    let mut acc: u64 = 0;
    let mut i = start;
    while i < hi
        invariant
            lo <= start <= i <= hi <= v.len(),
            digits == v@.subrange(start as int, hi as int),
            s == v@.subrange(lo as int, hi as int),
            lo < hi && (v@[lo as int] == '-' || v@[lo as int] == '+') ==> digits == s.drop_first(),
            !(lo < hi && (v@[lo as int] == '-' || v@[lo as int] == '+')) ==> digits == s,
            forall|m: int| start <= m < i ==> is_digit(#[trigger] v@[m]),
            acc <= 2147483648,
            acc == digits_value(v@.subrange(start as int, i as int)),
        decreases hi - i,
    {
        let c = v[i];
        if !('0' <= c && c <= '9') {
            assert(digits[i - start] == c);
            return None;
        }
        let d: u64 = (c as u32 - '0' as u32) as u64;
        assert(v@.subrange(start as int, i + 1).drop_last() =~= v@.subrange(start as int, i as int));
        if acc * 10 + d > 2147483648 {
            proof {
                if all_digits(digits) {
                    lemma_digits_value_grows(digits, i + 1 - start);
                    assert(digits.take(i + 1 - start) =~= v@.subrange(start as int, i + 1));
                }
            }
            return None;
        }
        acc = acc * 10 + d;
        i = i + 1;
    }
    assert(v@.subrange(start as int, hi as int) =~= digits);
    assert(all_digits(digits));
    if negative {
        Some((0 - (acc as i64)) as i32)
    } else if acc <= 2147483647 {
        Some(acc as i32)
    } else {
        None
    }
}


/// `s` cut at each `'\n'`: the pieces that a newline ends, without it, and what
/// follows the last newline.
pub open spec fn newline_split(s: Seq<char>) -> (Seq<Seq<char>>, Seq<char>)
    decreases s.len(),
{
    if s.len() == 0 {
        (seq![], seq![])
    } else {
        let (done, cur) = newline_split(s.drop_last());
        if s.last() == '\n' {
            (done.push(cur), seq![])
        } else {
            (done, cur.push(s.last()))
        }
    }
}

/// A line without the `'\r'` of a `"\r\n"` ending.
pub open spec fn strip_cr(l: Seq<char>) -> Seq<char> {
    if l.len() > 0 && l.last() == '\r' {
        l.drop_last()
    } else {
        l
    }
}

/// The lines of `s`, as `str::lines` gives them: split at `"\n"` or `"\r\n"`,
/// with no empty line after a final line ending.
pub open spec fn lines(s: Seq<char>) -> Seq<Seq<char>> {
    let (done, rest) = newline_split(s);
    let complete = done.map_values(|l: Seq<char>| strip_cr(l));
    if rest.len() == 0 {
        complete
    } else {
        complete.push(rest)
    }
}

/// The bounds, within `v`, of each of its lines.
pub fn lines_of(v: &Vec<char>) -> (r: Vec<(usize, usize)>)
    ensures
        r.len() == lines(v@).len(),
        forall|k: int|
            0 <= k < r.len() ==> {
                &&& (#[trigger] r@[k]).0 <= r@[k].1 <= v.len()
                &&& v@.subrange(r@[k].0 as int, r@[k].1 as int) == lines(v@)[k]
            },
{
    let mut out: Vec<(usize, usize)> = Vec::new();
    let mut start: usize = 0;
    let mut i: usize = 0;
    while i < v.len()
        invariant
            0 <= start <= i <= v.len(),
            newline_split(v@.take(i as int)).1 == v@.subrange(start as int, i as int),
            out.len() == newline_split(v@.take(i as int)).0.len(),
            forall|k: int|
                0 <= k < out.len() ==> {
                    &&& (#[trigger] out@[k]).0 <= out@[k].1 <= v.len()
                    &&& v@.subrange(out@[k].0 as int, out@[k].1 as int) == strip_cr(
                        newline_split(v@.take(i as int)).0[k],
                    )
                },
        decreases v.len() - i,
    {
        let ghost before = newline_split(v@.take(i as int));
        assert(v@.take(i + 1).drop_last() =~= v@.take(i as int));
        if v[i] == '\n' {
            let mut end = i;
            if start < i && v[i - 1] == '\r' {
                end = i - 1;
            }
            assert(v@.subrange(start as int, end as int) == strip_cr(before.1)) by {
                if start < i && v@[i - 1] == '\r' {
                    assert(before.1.drop_last() =~= v@.subrange(start as int, end as int));
                }
            }
            out.push((start, end));
            start = i + 1;
        } else {
            assert(v@.subrange(start as int, i + 1) =~= before.1.push(v@[i as int]));
        }
        i = i + 1;
    }
    assert(v@.take(v.len() as int) =~= v@);
    if start < v.len() {
        out.push((start, v.len()));
    }
    out
}


/// The decimal digit for `d`, which is below ten.
pub open spec fn digit_char(d: nat) -> char {
    ((d + 48) as u8) as char
}

/// The decimal numeral of `n`, without leading zeros.
pub open spec fn decimal_digits(n: nat) -> Seq<char>
    decreases n,
{
    if n < 10 {
        seq![digit_char(n)]
    } else {
        decimal_digits(n / 10).push(digit_char(n % 10))
    }
}

/// How `{}` writes the integer `i`: its decimal numeral, after a `'-'` when
/// it is negative.
pub open spec fn decimal(i: int) -> Seq<char> {
    if i < 0 {
        seq!['-'] + decimal_digits((-i) as nat)
    } else {
        decimal_digits(i as nat)
    }
}

fn push_decimal_digits(out: &mut Vec<char>, n: u64)
    ensures
        final(out)@ == old(out)@ + decimal_digits(n as nat),
    decreases n,
{
    if n >= 10 {
        push_decimal_digits(out, n / 10);
    }
    let d: u8 = (n % 10) as u8;
    out.push((d + 48) as char);
}

/// Appends the decimal numeral of `i` to `out`, as `{}` writes it.
pub fn push_decimal(out: &mut Vec<char>, i: i32)
    ensures
        final(out)@ == old(out)@ + decimal(i as int),
{
    if i < 0 {
        out.push('-');
        let m: u64 = (0 - (i as i64)) as u64;
        push_decimal_digits(out, m);
    } else {
        push_decimal_digits(out, i as u64);
    }
}


/// Collects characters into a `String` (std's `FromIterator<char>` for
/// `String`). Trusted: the string it returns holds exactly `cs`, in order,
/// which is what that impl documents.
#[verifier::external_body]
fn string_from_chars(cs: &Vec<char>) -> (s: String)
    ensures
        s@ == cs@,
{
    cs.iter().collect()
}

/// `v[lo..hi]` as an owned `String`.
pub fn string_of_range(v: &Vec<char>, lo: usize, hi: usize) -> (s: String)
    requires
        lo <= hi <= v.len(),
    ensures
        s@ == v@.subrange(lo as int, hi as int),
{
    let mut cs: Vec<char> = Vec::new();
    let mut i = lo;
    while i < hi
        invariant
            lo <= i <= hi <= v.len(),
            cs@ == v@.subrange(lo as int, i as int),
        decreases hi - i,
    {
        cs.push(v[i]);
        assert(cs@ =~= v@.subrange(lo as int, i + 1));
        i = i + 1;
    }
    string_from_chars(&cs)
}

/// All of `v` as an owned `String`.
pub fn string_of(v: &Vec<char>) -> (s: String)
    ensures
        s@ == v@,
{
    string_from_chars(v)
}


/// Appends the characters of `s` to `out`.
pub fn push_str(out: &mut Vec<char>, s: &str)
    ensures
        final(out)@ == old(out)@ + s@,
{
    let ghost start = out@;
    for c in it: s.chars()
        invariant
            out@ == start + it.seq().take(it.index()),
    {
        out.push(c);
        assert(start + it.seq().take(it.index() + 1) =~= (start + it.seq().take(it.index())).push(c));
    }
}


/// Whether `s` holds no `'\n'`.
pub open spec fn newline_free(s: Seq<char>) -> bool {
    forall|i: int| 0 <= i < s.len() ==> #[trigger] s[i] != '\n'
}

/// `ls` written out with a `'\n'` after each piece.
pub open spec fn join_lines(ls: Seq<Seq<char>>) -> Seq<char>
    decreases ls.len(),
{
    if ls.len() == 0 {
        seq![]
    } else {
        join_lines(ls.drop_last()) + ls.last().push('\n')
    }
}

/// The pieces of a newline split, and what follows the last newline, hold no
/// newline.
pub proof fn lemma_newline_split_pieces(s: Seq<char>)
    ensures
        newline_free(newline_split(s).1),
        forall|k: int|
            0 <= k < newline_split(s).0.len() ==> newline_free(#[trigger] newline_split(s).0[k]),
    decreases s.len(),
{
    if s.len() > 0 {
        lemma_newline_split_pieces(s.drop_last());
    }
}

/// A newline-free text is all remainder.
pub proof fn lemma_newline_split_of_free(s: Seq<char>)
    requires
        newline_free(s),
    ensures
        newline_split(s) == (Seq::<Seq<char>>::empty(), s),
    decreases s.len(),
{
    if s.len() > 0 {
        assert(newline_free(s.drop_last()));
        lemma_newline_split_of_free(s.drop_last());
        assert(s.drop_last().push(s.last()) =~= s);
    }
}

/// Splitting at newlines loses nothing: the pieces, each followed by its
/// newline, and then the remainder, give back the text.
pub proof fn law_newline_split_rebuilds(s: Seq<char>)
    ensures
        join_lines(newline_split(s).0) + newline_split(s).1 == s,
    decreases s.len(),
{
    if s.len() > 0 {
        let (done, cur) = newline_split(s.drop_last());
        law_newline_split_rebuilds(s.drop_last());
        assert(s =~= s.drop_last().push(s.last()));
        assert(join_lines(done) + cur == s.drop_last());
        if s.last() == '\n' {
            assert(done.push(cur).drop_last() =~= done);
            assert(done.push(cur).last() == cur);
            assert(join_lines(done.push(cur)) == join_lines(done) + cur.push('\n'));
            assert(join_lines(done) + cur.push('\n') =~= (join_lines(done) + cur).push('\n'));
            assert(join_lines(done.push(cur)) + Seq::<char>::empty() =~= s);
        } else {
            assert(join_lines(done) + cur.push(s.last()) =~= (join_lines(done) + cur).push(s.last()));
        }
    } else {
        assert(join_lines(Seq::<Seq<char>>::empty()) + Seq::<char>::empty() =~= s);
    }
}

/// Splitting a text at newlines in two goes is splitting it in one: the
/// pieces of `x + y` are those of `x`, then those of what `x` left over
/// followed by `y`; and the remainder is the same.
pub proof fn law_newline_split_concat(x: Seq<char>, y: Seq<char>)
    ensures
        newline_split(x + y).0 == newline_split(x).0 + newline_split(newline_split(x).1 + y).0,
        newline_split(x + y).1 == newline_split(newline_split(x).1 + y).1,
    decreases y.len(),
{
    let r = newline_split(x).1;
    if y.len() == 0 {
        assert(x + y =~= x);
        assert(r + y =~= r);
        lemma_newline_split_pieces(x);
        lemma_newline_split_of_free(r);
        assert(newline_split(x).0 + Seq::<Seq<char>>::empty() =~= newline_split(x).0);
    } else {
        let y0 = y.drop_last();
        law_newline_split_concat(x, y0);
        assert((x + y).drop_last() =~= x + y0);
        assert((r + y).drop_last() =~= r + y0);
        assert((x + y).last() == y.last());
        assert((r + y).last() == y.last());
        let (d0, c0) = newline_split(r + y0);
        if y.last() == '\n' {
            assert(newline_split(x).0 + d0.push(c0) =~= (newline_split(x).0 + d0).push(c0));
        }
    }
}


proof fn lemma_decimal_digits_value(n: nat)
    ensures
        decimal_digits(n).len() > 0,
        all_digits(decimal_digits(n)),
        digits_value(decimal_digits(n)) == n,
        decimal_digits(n)[0] != '-' && decimal_digits(n)[0] != '+',
    decreases n,
{
    assert(digit_char(n % 10) as int == n % 10 + 48);
    assert(n == (n / 10) * 10 + n % 10);
    if n < 10 {
        assert(seq![digit_char(n)].drop_last() =~= Seq::<char>::empty());
        assert(seq![digit_char(n)].last() == digit_char(n));
        assert(digits_value(Seq::<char>::empty()) == 0);
        assert(n % 10 == n);
    } else {
        lemma_decimal_digits_value(n / 10);
        let d = decimal_digits(n / 10);
        assert(d.push(digit_char(n % 10)).drop_last() =~= d);
        assert(is_digit(digit_char(n % 10)));
        assert forall|i: int| 0 <= i < d.len() + 1 implies is_digit(
            #[trigger] d.push(digit_char(n % 10))[i],
        ) by {
            if i < d.len() {
                assert(is_digit(d[i]));
            }
        }
        assert(digits_value(d.push(digit_char(n % 10))) == digits_value(d) * 10 + (digit_char(n % 10) as int - '0' as int));

    }
}

/// Reading back what `{}` writes of an `i32` gives the same number.
pub proof fn law_parse_reads_decimal(i: i32)
    ensures
        parse_i32(decimal(i as int)) == Some(i),
{
    if i < 0 {
        let m = (-(i as int)) as nat;
        lemma_decimal_digits_value(m);
        assert((seq!['-'] + decimal_digits(m)).drop_first() =~= decimal_digits(m));
    } else {
        lemma_decimal_digits_value(i as nat);
    }
}


/// `trim_end` takes off the trailing whitespace and nothing else: what it
/// gives is a prefix of `s`, everything after it is whitespace, and it does
/// not itself end in whitespace.
pub proof fn law_trim_end_cuts_only_trailing_space(s: Seq<char>)
    ensures
        trim_end(s).len() <= s.len(),
        s.take(trim_end(s).len() as int) == trim_end(s),
        forall|i: int| trim_end(s).len() <= i < s.len() ==> is_space(#[trigger] s[i]),
        trim_end(s).len() == 0 || !is_space(trim_end(s).last()),
    decreases s.len(),
{
    if s.len() > 0 && is_space(s.last()) {
        law_trim_end_cuts_only_trailing_space(s.drop_last());
        let t = trim_end(s.drop_last());
        assert(s.take(t.len() as int) =~= s.drop_last().take(t.len() as int));
        assert forall|i: int| t.len() <= i < s.len() implies is_space(#[trigger] s[i]) by {
            if i < s.len() - 1 {
                assert(s[i] == s.drop_last()[i]);
            }
        }
    } else {
        assert(s.take(s.len() as int) =~= s);
    }
}

/// `trim_start` takes off the leading whitespace and nothing else: what it
/// gives is a suffix of `s`, everything before it is whitespace, and it does
/// not itself begin with whitespace.
pub proof fn law_trim_start_cuts_only_leading_space(s: Seq<char>)
    ensures
        trim_start(s).len() <= s.len(),
        s.skip(s.len() - trim_start(s).len()) == trim_start(s),
        forall|i: int| 0 <= i < s.len() - trim_start(s).len() ==> is_space(#[trigger] s[i]),
        trim_start(s).len() == 0 || !is_space(trim_start(s)[0]),
    decreases s.len(),
{
    if s.len() > 0 && is_space(s[0]) {
        law_trim_start_cuts_only_leading_space(s.drop_first());
        let t = trim_start(s.drop_first());
        assert(s.skip(s.len() - t.len()) =~= s.drop_first().skip(s.drop_first().len() - t.len()));
        assert forall|i: int| 0 <= i < s.len() - t.len() implies is_space(#[trigger] s[i]) by {
            if i > 0 {
                assert(s[i] == s.drop_first()[i - 1]);
            }
        }
    } else {
        assert(s.skip(0) =~= s);
    }
}

/// The first line of a text is what comes before its first newline, less a
/// `'\r'` that ends it; the other lines are the lines of what follows.
pub proof fn law_lines_first(a: Seq<char>, b: Seq<char>)
    requires
        newline_free(a),
    ensures
        lines(a.push('\n') + b) == seq![strip_cr(a)] + lines(b),
{
    let x = a.push('\n');
    law_newline_split_concat(x, b);
    lemma_newline_split_of_free(a);
    assert(x.drop_last() =~= a);
    assert(newline_split(x) == (seq![a], Seq::<char>::empty())) by {
        assert(Seq::<Seq<char>>::empty().push(a) =~= seq![a]);
    }
    assert(Seq::<char>::empty() + b =~= b);
    let (d, r) = newline_split(b);
    assert((seq![a] + d).map_values(|l: Seq<char>| strip_cr(l)) =~= seq![strip_cr(a)] + d.map_values(
        |l: Seq<char>| strip_cr(l),
    ));
    if r.len() > 0 {
        assert((seq![strip_cr(a)] + d.map_values(|l: Seq<char>| strip_cr(l))).push(r) =~= seq![
            strip_cr(a),
        ] + d.map_values(|l: Seq<char>| strip_cr(l)).push(r));
    }
}

/// A non-empty text without a newline is one line.
pub proof fn law_lines_single(a: Seq<char>)
    requires
        newline_free(a),
        a.len() > 0,
    ensures
        lines(a) == seq![a],
{
    lemma_newline_split_of_free(a);
    assert(Seq::<Seq<char>>::empty().map_values(|l: Seq<char>| strip_cr(l)).push(a) =~= seq![a]);
}

/// A word is the text up to the first whitespace: a run without whitespace,
/// then the rest from a whitespace on, gives that run.
pub proof fn lemma_leading_word_of(a: Seq<char>, b: Seq<char>)
    requires
        forall|i: int| 0 <= i < a.len() ==> !is_space(#[trigger] a[i]),
        b.len() == 0 || is_space(b[0]),
    ensures
        leading_word(a + b) == a,
    decreases a.len(),
{
    if a.len() == 0 {
        assert(a + b =~= b);
    } else {
        assert((a + b).drop_first() =~= a.drop_first() + b);
        assert(!is_space(a[0]));
        assert forall|i: int| 0 <= i < a.drop_first().len() implies !is_space(
            #[trigger] a.drop_first()[i],
        ) by {
            assert(a.drop_first()[i] == a[i + 1]);
        }
        lemma_leading_word_of(a.drop_first(), b);
        assert(seq![a[0]] + a.drop_first() =~= a);
    }
}

/// The numeral `{}` writes for `i` holds no whitespace and starts with a
/// digit or `'-'`.
pub proof fn lemma_decimal_has_no_space(i: int)
    ensures
        decimal(i).len() > 0,
        forall|k: int| 0 <= k < decimal(i).len() ==> !is_space(#[trigger] decimal(i)[k]),
{
    if i < 0 {
        lemma_decimal_digits_value((-i) as nat);
        let d = decimal_digits((-i) as nat);
        assert forall|k: int| 0 <= k < decimal(i).len() implies !is_space(
            #[trigger] decimal(i)[k],
        ) by {
            if k > 0 {
                assert(decimal(i)[k] == d[k - 1]);
                assert(is_digit(d[k - 1]));
            }
        }
    } else {
        lemma_decimal_digits_value(i as nat);
        let d = decimal_digits(i as nat);
        assert forall|k: int| 0 <= k < d.len() implies !is_space(#[trigger] d[k]) by {
            assert(is_digit(d[k]));
        }
    }
}

} // verus!
