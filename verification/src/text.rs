//! Character-level string helpers shared by the parsers and encoders.

use vstd::prelude::*;
use vstd::string::StringExecFns;

verus! {

broadcast use vstd::string::group_string_axioms;

/// The characters of `s`, in order.
pub fn chars_of(s: &str) -> (out: Vec<char>)
    ensures
        out@ == s@,
{
    let mut out: Vec<char> = Vec::new();
    let mut it = s.chars();
    loop
        invariant
            out@ + vstd::std_specs::iter::IteratorSpec::remaining(&it) == s@,
            vstd::std_specs::iter::IteratorSpec::decrease(&it) is Some,
        decreases vstd::std_specs::iter::IteratorSpec::decrease(&it)->0,
    {
        match it.next() {
            Some(c) => {
                out.push(c);
            },
            None => {
                return out;
            },
        }
    }
}


/// Appends one character (`String::push`).
#[verifier::external_body]
pub(crate) fn push_char(s: &mut String, c: char)
    ensures
        final(s)@ == old(s)@.push(c),
{
    s.push(c);
}

/// Unicode `White_Space`, as `char::is_whitespace` tests it.
pub open spec fn is_ws(c: char) -> bool {
    ('\u{9}' <= c && c <= '\u{d}') || c == ' ' || c == '\u{85}' || c == '\u{a0}' || c
        == '\u{1680}' || ('\u{2000}' <= c && c <= '\u{200a}') || c == '\u{2028}' || c
        == '\u{2029}' || c == '\u{202f}' || c == '\u{205f}' || c == '\u{3000}'
}

/// `char::is_whitespace`.
pub fn is_whitespace(c: char) -> (r: bool)
    ensures
        r == is_ws(c),
{
    ('\u{9}' <= c && c <= '\u{d}') || c == ' ' || c == '\u{85}' || c == '\u{a0}' || c
        == '\u{1680}' || ('\u{2000}' <= c && c <= '\u{200a}') || c == '\u{2028}' || c
        == '\u{2029}' || c == '\u{202f}' || c == '\u{205f}' || c == '\u{3000}'
}

/// Number of leading whitespace characters.
pub open spec fn leading_ws(s: Seq<char>) -> nat
    decreases s.len(),
{
    if s.len() == 0 {
        0
    } else if is_ws(s[0]) {
        1 + leading_ws(s.drop_first())
    } else {
        0
    }
}

/// Number of trailing whitespace characters.
pub open spec fn trailing_ws(s: Seq<char>) -> nat
    decreases s.len(),
{
    if s.len() == 0 {
        0
    } else if is_ws(s.last()) {
        1 + trailing_ws(s.drop_last())
    } else {
        0
    }
}

/// `s` without leading and trailing whitespace (`str::trim`).
pub open spec fn trimmed(s: Seq<char>) -> Seq<char> {
    let t = s.skip(leading_ws(s) as int);
    t.take(t.len() - trailing_ws(t))
}

/// The characters of `s` with surrounding whitespace removed.
pub fn trim_chars(s: &[char]) -> (out: Vec<char>)
    ensures
        out@ == trimmed(s@),
{
    let mut a: usize = 0;
    assert(s@.skip(0) =~= s@);
    while a < s.len() && is_whitespace(s[a])
        invariant
            a <= s@.len(),
            leading_ws(s@) == a + leading_ws(s@.skip(a as int)),
        decreases s@.len() - a,
    {
        assert(s@.skip(a as int).drop_first() =~= s@.skip(a + 1));
        a = a + 1;
    }
    proof {
        if a < s@.len() {
            assert(s@.skip(a as int)[0] == s@[a as int]);
        }
    }
    let ghost t = s@.skip(a as int);
    let mut b: usize = s.len();
    assert(t.take(b - a) =~= t);
    while b > a && is_whitespace(s[b - 1])
        invariant
            a <= b <= s@.len(),
            t == s@.skip(a as int),
            trailing_ws(t) == (s@.len() - b) + trailing_ws(t.take(b - a)),
        decreases b,
    {
        assert(t.take(b - a).drop_last() =~= t.take(b - 1 - a));
        assert(t.take(b - a).last() == s@[b - 1]);
        b = b - 1;
    }
    proof {
        assert(t.take((s@.len() - a) as int) =~= t);
        if b > a {
            assert(t.take(b - a).last() == s@[b - 1]);
        }
        assert(t.take(b - a) =~= t.take(t.len() - trailing_ws(t)));
    }
    let mut out: Vec<char> = Vec::new();
    let mut k = a;
    while k < b
        invariant
            a <= k <= b <= s@.len(),
            out@ == s@.subrange(a as int, k as int),
        decreases b - k,
    {
        out.push(s[k]);
        k = k + 1;
        assert(out@ =~= s@.subrange(a as int, k as int));
    }
    assert(out@ =~= t.take(b - a));
    out
}

/// Appends a string slice.
pub(crate) fn push_str(s: &mut String, other: &str)
    ensures
        final(s)@ == old(s)@ + other@,
{
    s.append(other);
}

/// The ASCII digit for `d < 10`.
pub open spec fn digit_char(d: nat) -> char {
    (('0' as u32) + d) as char
}

/// The decimal numeral of `n`, without sign or leading zeros.
pub open spec fn decimal_digits(n: nat) -> Seq<char>
    decreases n,
{
    if n < 10 {
        seq![digit_char(n)]
    } else {
        decimal_digits(n / 10).push(digit_char(n % 10))
    }
}

/// `decimal_digits(n)` left-padded with zeros to at least `width` characters.
pub open spec fn zero_padded(n: nat, width: nat) -> Seq<char> {
    let d = decimal_digits(n);
    if d.len() >= width {
        d
    } else {
        Seq::new((width - d.len()) as nat, |i: int| '0') + d
    }
}

/// The exec counterpart of `digit_char`.
pub fn digit(d: u64) -> (c: char)
    requires
        d < 10,
    ensures
        c == digit_char(d as nat),
{
    match d {
        0 => '0',
        1 => '1',
        2 => '2',
        3 => '3',
        4 => '4',
        5 => '5',
        6 => '6',
        7 => '7',
        8 => '8',
        _ => '9',
    }
}

/// Appends the decimal numeral of `n`.
pub fn push_decimal(s: &mut String, n: u64)
    ensures
        final(s)@ == old(s)@ + decimal_digits(n as nat),
    decreases n,
{
    if n < 10 {
        push_char(s, digit(n));
    } else {
        push_decimal(s, n / 10);
        push_char(s, digit(n % 10));
    }
}

/// The decimal numeral of a signed integer (`-` for negatives).
pub open spec fn signed_digits(n: int) -> Seq<char> {
    if n < 0 {
        seq!['-'] + decimal_digits((-n) as nat)
    } else {
        decimal_digits(n as nat)
    }
}

/// Appends the decimal numeral of a signed integer.
pub fn push_signed(s: &mut String, n: i64)
    ensures
        final(s)@ == old(s)@ + signed_digits(n as int),
{
    if n < 0 {
        push_char(s, '-');
        let m: u64 = if n == i64::MIN {
            9_223_372_036_854_775_808u64
        } else {
            (-n) as u64
        };
        push_decimal(s, m);
        assert(final(s)@ =~= old(s)@ + signed_digits(n as int)) by {
            assert(m as int == -(n as int));
        }
    } else {
        push_decimal(s, n as u64);
    }
}

/// The decimal numeral of `n`.
pub fn decimal(n: u64) -> (out: String)
    ensures
        out@ == decimal_digits(n as nat),
{
    let mut out = String::new();
    push_decimal(&mut out, n);
    out
}

/// Appends `decimal_digits(n)` left-padded with zeros to `width`.
pub fn push_zero_padded(s: &mut String, n: u64, width: usize)
    ensures
        final(s)@ == old(s)@ + zero_padded(n as nat, width as nat),
{
    let digits = decimal(n);
    let len = digits.as_str().unicode_len();
    if len < width {
        let ghost start = s@;
        let mut k: usize = 0;
        while k < width - len
            invariant
                k <= width - len,
                s@ == start + Seq::new(k as nat, |i: int| '0'),
            decreases width - len - k,
        {
            push_char(s, '0');
            k = k + 1;
            assert(s@ =~= start + Seq::new(k as nat, |i: int| '0'));
        }
        push_str(s, digits.as_str());
        assert(s@ =~= start + zero_padded(n as nat, width as nat));
    } else {
        push_str(s, digits.as_str());
    }
}

/// `num / den` rounded half-up to a multiple of `1 / scale`, in units of
/// `1 / scale`.
pub open spec fn scaled_rounded(num: nat, den: nat, scale: nat) -> nat {
    (2 * num * scale + den) / (2 * den)
}

/// `num / den` written with `places` decimals (rounded half-up), where
/// `scale == 10^places`.
pub open spec fn fixed_point(num: nat, den: nat, scale: nat, places: nat) -> Seq<char> {
    let v = scaled_rounded(num, den, scale);
    decimal_digits(v / scale) + seq!['.'] + zero_padded(v % scale, places)
}

/// Appends `num / den` with `places` decimals, `scale == 10^places`.
pub fn push_fixed(s: &mut String, num: u64, den: u64, scale: u64, places: usize)
    requires
        den > 0,
        1 <= scale <= 10000,
    ensures
        final(s)@ == old(s)@ + fixed_point(num as nat, den as nat, scale as nat, places as nat),
{
    let n = num as u128;
    let d = den as u128;
    let sc = scale as u128;
    assert(2 * n * sc + d <= 2 * 0xffff_ffff_ffff_ffffu128 * 10000 + 0xffff_ffff_ffff_ffffu128)
        by (nonlinear_arith)
        requires
            n <= 0xffff_ffff_ffff_ffffu128,
            d <= 0xffff_ffff_ffff_ffffu128,
            sc <= 10000,
    ;
    let v = (2 * n * sc + d) / (2 * d);
    assert(v / sc <= n) by (nonlinear_arith)
        requires
            v == (2 * n * sc + d) / (2 * d),
            d >= 1,
            sc >= 1,
    ;
    let whole = (v / sc) as u64;
    let frac = (v % sc) as u64;
    push_decimal(s, whole);
    push_char(s, '.');
    push_zero_padded(s, frac, places);
    let ghost expect = fixed_point(num as nat, den as nat, scale as nat, places as nat);
    assert(expect == decimal_digits(whole as nat) + seq!['.'] + zero_padded(frac as nat, places as nat));
}

/// A `String` holding exactly the characters of `cs`.
pub fn string_from_chars(cs: &[char]) -> (out: String)
    ensures
        out@ == cs@,
{
    let mut out = String::new();
    let mut i: usize = 0;
    while i < cs.len()
        invariant
            i <= cs@.len(),
            out@ == cs@.subrange(0, i as int),
        decreases cs@.len() - i,
    {
        push_char(&mut out, cs[i]);
        i = i + 1;
        assert(out@ =~= cs@.subrange(0, i as int));
    }
    assert(cs@.subrange(0, cs@.len() as int) =~= cs@);
    out
}

/// A `String` holding the characters `cs[from..to]`.
pub fn string_of_range(cs: &[char], from: usize, to: usize) -> (out: String)
    requires
        from <= to <= cs@.len(),
    ensures
        out@ == cs@.subrange(from as int, to as int),
{
    let mut out = String::new();
    let mut k = from;
    while k < to
        invariant
            from <= k <= to <= cs@.len(),
            out@ == cs@.subrange(from as int, k as int),
        decreases to - k,
    {
        push_char(&mut out, cs[k]);
        k = k + 1;
        assert(out@ =~= cs@.subrange(from as int, k as int));
    }
    out
}

/// `parts` joined with `sep` between consecutive parts.
pub open spec fn joined(parts: Seq<Seq<char>>, sep: Seq<char>) -> Seq<char>
    decreases parts.len(),
{
    if parts.len() == 0 {
        Seq::empty()
    } else if parts.len() == 1 {
        parts[0]
    } else {
        joined(parts.drop_last(), sep) + sep + parts.last()
    }
}

/// `parts` joined with `sep`.
pub fn join_strings(parts: &[String], sep: &str) -> (r: String)
    ensures
        r@ == joined(views(parts@), sep@),
{
    let mut r = String::new();
    let mut i: usize = 0;
    assert(views(parts@).take(0) =~= Seq::<Seq<char>>::empty());
    while i < parts.len()
        invariant
            i <= parts@.len(),
            r@ == joined(views(parts@).take(i as int), sep@),
        decreases parts@.len() - i,
    {
        if i > 0 {
            push_str(&mut r, sep);
        }
        push_str(&mut r, parts[i].as_str());
        proof {
            let next = views(parts@).take(i + 1);
            assert(next.drop_last() =~= views(parts@).take(i as int));
            if i == 0 {
                assert(r@ =~= next[0]);
            } else {
                assert(r@ =~= joined(views(parts@).take(i as int), sep@) + sep@ + next.last());
            }
        }
        i = i + 1;
    }
    assert(views(parts@).take(parts@.len() as int) =~= views(parts@));
    r
}

/// A copy of `s`.
pub fn string_clone(s: &String) -> (out: String)
    ensures
        out@ == s@,
{
    s.clone()
}

/// An owned copy of `s`.
pub fn owned(s: &str) -> (out: String)
    ensures
        out@ == s@,
{
    s.to_owned()
}

/// Character-wise equality of two strings.
pub fn str_eq(a: &str, b: &str) -> (r: bool)
    ensures
        r == (a@ == b@),
{
    let x = chars_of(a);
    let y = chars_of(b);
    seq_eq(&x, &y)
}

/// Element-wise equality of two character slices.
pub fn seq_eq(x: &[char], y: &[char]) -> (r: bool)
    ensures
        r == (x@ == y@),
{
    if x.len() != y.len() {
        return false;
    }
    let mut i: usize = 0;
    while i < x.len()
        invariant
            x@.len() == y@.len(),
            i <= x@.len(),
            forall|k: int| 0 <= k < i ==> x@[k] == y@[k],
        decreases x@.len() - i,
    {
        if x[i] != y[i] {
            return false;
        }
        i = i + 1;
    }
    assert(x@ =~= y@);
    true
}

/// Does `s` start with `prefix`?
pub open spec fn has_prefix(s: Seq<char>, prefix: Seq<char>) -> bool {
    prefix.len() <= s.len() && s.subrange(0, prefix.len() as int) == prefix
}

/// Does `s` end with `suffix`?
pub open spec fn has_suffix(s: Seq<char>, suffix: Seq<char>) -> bool {
    suffix.len() <= s.len() && s.subrange(s.len() - suffix.len(), s.len() as int) == suffix
}

/// Does `needle` occur in `s` starting at index `at`?
pub open spec fn occurs_at(s: Seq<char>, needle: Seq<char>, at: int) -> bool {
    0 <= at && at + needle.len() <= s.len() && s.subrange(at, at + needle.len()) == needle
}

/// Does `pat[from..to]` occur in `s` at index `at`?
pub fn matches_range_at(s: &[char], pat: &[char], from: usize, to: usize, at: usize) -> (r: bool)
    requires
        from <= to <= pat@.len(),
    ensures
        r == occurs_at(s@, pat@.subrange(from as int, to as int), at as int),
{
    let ghost needle = pat@.subrange(from as int, to as int);
    let len = to - from;
    if at > s.len() || len > s.len() - at {
        return false;
    }
    let mut i: usize = 0;
    while i < len
        invariant
            from <= to <= pat@.len(),
            len == to - from,
            needle == pat@.subrange(from as int, to as int),
            at + len <= s@.len(),
            s@.len() == s.len(),
            i <= len,
            forall|k: int| 0 <= k < i ==> s@[at + k] == needle[k],
        decreases len - i,
    {
        if s[at + i] != pat[from + i] {
            assert(s@.subrange(at as int, at + len)[i as int] != needle[i as int]);
            return false;
        }
        i = i + 1;
    }
    assert(s@.subrange(at as int, at + len) =~= needle);
    true
}

/// The leftmost occurrence of `pat[from..to]` in `s` at or after `start`.
pub fn find_range(s: &[char], pat: &[char], from: usize, to: usize, start: usize) -> (r: Option<
    usize,
>)
    requires
        from <= to <= pat@.len(),
        start <= s@.len(),
    ensures
        match r {
            Some(k) => start <= k && occurs_at(s@, pat@.subrange(from as int, to as int), k as int)
                && forall|x: int|
                start <= x < k ==> !occurs_at(s@, pat@.subrange(from as int, to as int), x),
            None => forall|x: int|
                start <= x ==> !occurs_at(s@, pat@.subrange(from as int, to as int), x),
        },
{
    let len = to - from;
    if len > s.len() - start {
        return None;
    }
    let last = s.len() - len;
    let mut k = start;
    loop
        invariant
            start <= k <= last,
            last + len == s@.len(),
            len == to - from,
            from <= to <= pat@.len(),
            forall|x: int| start <= x < k ==> !occurs_at(s@, pat@.subrange(from as int, to as int), x),
        decreases last - k,
    {
        if matches_range_at(s, pat, from, to, k) {
            return Some(k);
        }
        if k == last {
            return None;
        }
        k = k + 1;
    }
}

/// The first index at or after `from` holding `c`, if any.
pub fn find_char(s: &[char], c: char, from: usize) -> (r: Option<usize>)
    requires
        from <= s@.len(),
    ensures
        match r {
            Some(i) => from <= i < s@.len() && s@[i as int] == c && forall|k: int|
                from <= k < i ==> s@[k] != c,
            None => forall|k: int| from <= k < s@.len() ==> s@[k] != c,
        },
{
    let mut i = from;
    while i < s.len()
        invariant
            from <= i <= s@.len(),
            forall|k: int| from <= k < i ==> s@[k] != c,
        decreases s@.len() - i,
    {
        if s[i] == c {
            return Some(i);
        }
        i = i + 1;
    }
    None
}


/// The text of `s` before the first `c` (all of `s` when `c` does not occur).
pub open spec fn before_char(s: Seq<char>, c: char) -> Seq<char>
    decreases s.len(),
{
    if s.len() == 0 {
        s
    } else if s[0] == c {
        Seq::empty()
    } else {
        seq![s[0]] + before_char(s.drop_first(), c)
    }
}

/// The text of `s` before the first `c`, as `s.split(c).next()` gives it.
pub fn take_before(s: &str, c: char) -> (out: String)
    ensures
        out@ == before_char(s@, c),
{
    let cs = chars_of(s);
    let mut end: usize = 0;
    let mut out = String::new();
    assert(cs@.skip(0) =~= cs@);
    assert(cs@.take(0) =~= Seq::<char>::empty());
    while end < cs.len() && cs[end] != c
        invariant
            end <= cs@.len(),
            out@ == cs@.take(end as int),
            before_char(cs@, c) == cs@.take(end as int) + before_char(cs@.skip(end as int), c),
        decreases cs@.len() - end,
    {
        proof {
            let rest = cs@.skip(end as int);
            assert(rest.drop_first() =~= cs@.skip(end + 1));
            assert(rest[0] == cs@[end as int]);
            assert(cs@.take(end + 1) =~= cs@.take(end as int) + seq![cs@[end as int]]);
        }
        push_char(&mut out, cs[end]);
        end = end + 1;
    }
    proof {
        if end < cs@.len() {
            assert(cs@.skip(end as int)[0] == c);
        } else {
            assert(cs@.skip(end as int) =~= Seq::<char>::empty());
        }
        assert(before_char(cs@, c) =~= cs@.take(end as int));
    }
    out
}

/// Does `needle` occur somewhere in `s`?
pub open spec fn contains_seq(s: Seq<char>, needle: Seq<char>) -> bool {
    exists|i: int| occurs_at(s, needle, i)
}

/// Does `needle` occur somewhere in `s` (exec form)?
pub fn contains_chars(s: &[char], needle: &[char]) -> (r: bool)
    ensures
        r == contains_seq(s@, needle@),
{
    let found = find_range(s, needle, 0, needle.len(), 0);
    assert(needle@.subrange(0, needle@.len() as int) =~= needle@);
    match found {
        Some(k) => {
            assert(occurs_at(s@, needle@, k as int));
            true
        },
        None => {
            assert forall|i: int| !occurs_at(s@, needle@, i) by {
                if i >= 0 {
                    assert(!occurs_at(s@, needle@.subrange(0, needle@.len() as int), i));
                }
            }
            false
        },
    }
}

/// Does the text `needle` occur in `s`?
pub fn str_contains(s: &str, needle: &str) -> (r: bool)
    ensures
        r == contains_seq(s@, needle@),
{
    let x = chars_of(s);
    let y = chars_of(needle);
    contains_chars(&x, &y)
}

/// The number of bytes `c` takes in UTF-8.
pub open spec fn utf8_width(c: char) -> nat {
    if (c as u32) < 0x80 {
        1
    } else if (c as u32) < 0x800 {
        2
    } else if (c as u32) < 0x10000 {
        3
    } else {
        4
    }
}

/// The characters of `s` that make up its first `n` UTF-8 bytes, when `n`
/// falls on a character boundary within `s` (what `s.get(..n)` gives).
pub open spec fn byte_prefix(s: Seq<char>, n: nat) -> Option<Seq<char>>
    decreases s.len(),
{
    if n == 0 {
        Some(Seq::empty())
    } else if s.len() == 0 || utf8_width(s[0]) > n {
        None
    } else {
        match byte_prefix(s.drop_first(), (n - utf8_width(s[0])) as nat) {
            Some(p) => Some(seq![s[0]] + p),
            None => None,
        }
    }
}

/// The exec form of `utf8_width`.
fn width_of(c: char) -> (w: usize)
    ensures
        w == utf8_width(c),
{
    if (c as u32) < 0x80 {
        1
    } else if (c as u32) < 0x800 {
        2
    } else if (c as u32) < 0x10000 {
        3
    } else {
        4
    }
}

/// The first `n` bytes of `s` as text, or `None` when `n` is past the end
/// or inside a character (`s.get(..n)`).
pub fn byte_prefix_of(s: &str, n: usize) -> (r: Option<String>)
    ensures
        match r {
            Some(p) => byte_prefix(s@, n as nat) == Some(p@),
            None => byte_prefix(s@, n as nat) is None,
        },
{
    let cs = chars_of(s);
    let mut i: usize = 0;
    let mut left: usize = n;
    let mut out = String::new();
    assert(cs@.skip(0) =~= cs@);
    while i < cs.len() && left > 0 && width_of(cs[i]) <= left
        invariant
            i <= cs@.len(),
            left <= n,
            out@ == cs@.take(i as int),
            byte_prefix(cs@, n as nat) == match byte_prefix(cs@.skip(i as int), left as nat) {
                Some(p) => Some(out@ + p),
                None => None::<Seq<char>>,
            },
        decreases cs@.len() - i,
    {
        proof {
            let rest = cs@.skip(i as int);
            assert(rest[0] == cs@[i as int]);
            assert(rest.drop_first() =~= cs@.skip(i + 1));
            assert(cs@.take(i + 1) =~= cs@.take(i as int) + seq![cs@[i as int]]);
            match byte_prefix(cs@.skip(i + 1), (left - utf8_width(cs@[i as int])) as nat) {
                Some(p) => {
                    assert(out@ + (seq![cs@[i as int]] + p) =~= cs@.take(i + 1) + p);
                },
                None => {},
            }
        }
        let w = width_of(cs[i]);
        push_char(&mut out, cs[i]);
        left = left - w;
        i = i + 1;
    }
    if left == 0 {
        assert(out@ + Seq::<char>::empty() =~= out@);
        Some(out)
    } else {
        proof {
            if i < cs@.len() {
                assert(cs@.skip(i as int)[0] == cs@[i as int]);
            } else {
                assert(cs@.skip(i as int).len() == 0);
            }
        }
        None
    }
}

/// `s` split at its first `c`: the text before and the text after.
pub open spec fn split_once_spec(s: Seq<char>, c: char) -> Option<(Seq<char>, Seq<char>)> {
    if exists|i: int| 0 <= i < s.len() && s[i] == c {
        let i = choose|i: int| 0 <= i < s.len() && s[i] == c && forall|k: int| 0 <= k < i ==> s[k] != c;
        Some((s.take(i), s.skip(i + 1)))
    } else {
        None
    }
}

/// `s.split_once(c)`, as owned strings.
pub fn split_once(s: &str, c: char) -> (r: Option<(String, String)>)
    ensures
        match r {
            Some(p) => split_once_spec(s@, c) == Some((p.0@, p.1@)),
            None => split_once_spec(s@, c) is None,
        },
{
    let cs = chars_of(s);
    match find_char(&cs, c, 0) {
        Some(i) => {
            proof {
                let j = choose|j: int| 0 <= j < cs@.len() && cs@[j] == c && forall|k: int| 0 <= k < j ==> cs@[k] != c;
                if j < i {
                } else if j > i {
                    assert(cs@[i as int] == c);
                }
                assert(j == i);
            }
            assert(i < cs.len());
            let before = string_of_range(&cs, 0, i);
            let after = string_of_range(&cs, i + 1, cs.len());
            assert(before@ =~= cs@.take(i as int));
            assert(after@ =~= cs@.skip(i + 1));
            Some((before, after))
        },
        None => None,
    }
}

/// The views of a list of strings.
pub open spec fn views(v: Seq<String>) -> Seq<Seq<char>> {
    v.map_values(|s: String| s@)
}

/// Some element of `v` equals `s`.
pub open spec fn contains_view(v: Seq<String>, s: Seq<char>) -> bool {
    exists|i: int| 0 <= i < v.len() && #[trigger] v[i]@ == s
}

/// Does some element of `v` equal `s`?
pub fn contains_str(v: &[String], s: &str) -> (r: bool)
    ensures
        r == contains_view(v@, s@),
{
    let mut i: usize = 0;
    while i < v.len()
        invariant
            i <= v@.len(),
            forall|k: int| 0 <= k < i ==> #[trigger] v@[k]@ != s@,
        decreases v@.len() - i,
    {
        if str_eq(v[i].as_str(), s) {
            return true;
        }
        i = i + 1;
    }
    false
}

/// Does `s` start with `prefix`?
pub fn starts_with(s: &str, prefix: &str) -> (r: bool)
    ensures
        r == has_prefix(s@, prefix@),
{
    let x = chars_of(s);
    let y = chars_of(prefix);
    let r = matches_range_at(&x, &y, 0, y.len(), 0);
    assert(y@.subrange(0, y@.len() as int) =~= y@);
    r
}

/// Does `s` end with `suffix`?
pub fn ends_with(s: &str, suffix: &str) -> (r: bool)
    ensures
        r == has_suffix(s@, suffix@),
{
    let x = chars_of(s);
    let y = chars_of(suffix);
    if y.len() > x.len() {
        return false;
    }
    let r = matches_range_at(&x, &y, 0, y.len(), x.len() - y.len());
    assert(y@.subrange(0, y@.len() as int) =~= y@);
    r
}

} // verus!
