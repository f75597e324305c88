//! Text: building report lines, and taking `key=value` lines apart.
//!
//! Text is a sequence of characters. Real values are turned into text, and text
//! into real values, by functions the caller supplies, for the same reason
//! arithmetic is: the digits depend on the platform's conversion routines and
//! nothing here does.

use vstd::prelude::*;

use crate::scalar::Scalar;

verus! {

/// `String::push`, from the standard library: appends one character.
pub assume_specification[ String::push ](s: &mut String, c: char)
    ensures
        final(s)@ == old(s)@.push(c),
;

/// A text between quotation marks, with the characters escaped that would not
/// show, as the standard library's debug formatting writes it.
pub uninterp spec fn quoted(text: Seq<char>) -> Seq<char>;

/// Debug formatting of a `str`, from the standard library: what it gives depends
/// on the text alone, and is called `quoted`. Which characters are escaped, and
/// how, is left to it.
#[verifier::external_body]
pub(crate) fn quote(text: &str) -> (marked: String)
    ensures
        marked@ == quoted(text@),
{
    format!("{:?}", text)
}

// --- real values as text --------------------------------------------------------

/// In place of a number of decimals: as many as it takes to tell the value from
/// every other.
pub const SHORTEST: usize = 0xffff_ffff;

/// The text `print` gives for `x` with `decimals` digits after the point.
pub open spec fn printed<P: Fn(Scalar, usize) -> String>(print: P, x: Scalar, decimals: usize) -> Seq<
    char,
> {
    (choose|r: String| call_ensures(print, (x, decimals), r))@
}

/// `print` accepts every value, and gives each one text.
pub open spec fn prints<P: Fn(Scalar, usize) -> String>(print: P) -> bool {
    &&& forall|x: Scalar, decimals: usize| #[trigger] call_requires(print, (x, decimals))
    &&& forall|x: Scalar, decimals: usize, r: String| #[trigger]
        call_ensures(print, (x, decimals), r) ==> r@ == printed(print, x, decimals)
}

/// What `read` makes of a numeral.
pub open spec fn numeral<R: Fn(&str) -> Option<Scalar>>(read: R, text: Seq<char>) -> Option<Scalar> {
    choose|r: Option<Scalar>| answers(read, text, r)
}

/// `read` may answer `r` for `text`.
pub open spec fn answers<R: Fn(&str) -> Option<Scalar>>(
    read: R,
    text: Seq<char>,
    r: Option<Scalar>,
) -> bool {
    exists|s: &str| #[trigger] call_ensures(read, (s,), r) && s@ == text
}

/// `read` accepts every text, and its answer depends on nothing but the text.
pub open spec fn reads<R: Fn(&str) -> Option<Scalar>>(read: R) -> bool {
    &&& forall|s: &str| #[trigger] call_requires(read, (s,))
    &&& forall|s: &str, r: Option<Scalar>| #[trigger]
        call_ensures(read, (s,), r) ==> r == numeral(read, s@)
}

// --- characters -------------------------------------------------------------------

/// The characters of `s`.
pub fn letters(s: &str) -> (chars: Vec<char>)
    ensures
        chars@ == s@,
{
    let mut chars: Vec<char> = Vec::new();
    for c in it: s.chars()
        invariant
            it.seq() == s@,
            chars@ == s@.take(it.index() as int),
    {
        chars.push(c);
        assert(chars@ =~= s@.take(it.index() as int + 1));
    }
    assert(s@.take(s@.len() as int) =~= s@);
    chars
}

/// The text spelled by `chars[from..to]`.
pub fn spell(chars: &Vec<char>, from: usize, to: usize) -> (s: String)
    requires
        from <= to <= chars@.len(),
    ensures
        s@ == chars@.subrange(from as int, to as int),
{
    let mut s: String = String::new();
    let mut i: usize = from;
    while i < to
        invariant
            from <= i <= to <= chars@.len(),
            s@ == chars@.subrange(from as int, i as int),
        decreases to - i,
    {
        s.push(chars[i]);
        i += 1;
        assert(s@ =~= chars@.subrange(from as int, i as int));
    }
    s
}

// --- numbers ------------------------------------------------------------------------

pub open spec fn digit(d: int) -> char {
    (d + 48) as char
}

/// `n` in decimal.
pub open spec fn decimal(n: nat) -> Seq<char>
    decreases n,
{
    if n < 10 {
        seq![digit(n as int)]
    } else {
        decimal(n / 10).push(digit((n % 10) as int))
    }
}

fn digit_char(d: u64) -> (c: char)
    requires
        d < 10,
    ensures
        c == digit(d as int),
{
    ((d + 48) as u8) as char
}

/// `n` in decimal.
pub fn count_text(n: u64) -> (s: String)
    ensures
        s@ == decimal(n as nat),
    decreases n,
{
    if n < 10 {
        let mut s: String = String::new();
        s.push(digit_char(n));
        assert(s@ =~= decimal(n as nat));
        s
    } else {
        let mut s: String = count_text(n / 10);
        s.push(digit_char(n % 10));
        s
    }
}

pub open spec fn hexadecimal_digit(d: int) -> char {
    if d < 10 {
        digit(d)
    } else {
        (d + 87) as char
    }
}

/// The last `width` digits of `n` in lower-case hexadecimal.
pub open spec fn hexadecimal(n: nat, width: nat) -> Seq<char>
    decreases width,
{
    if width == 0 {
        Seq::empty()
    } else {
        hexadecimal(n / 16, (width - 1) as nat).push(hexadecimal_digit((n % 16) as int))
    }
}

fn hexadecimal_text(n: u64, width: usize) -> (s: String)
    ensures
        s@ == hexadecimal(n as nat, width as nat),
    decreases width,
{
    if width == 0 {
        String::new()
    } else {
        let mut s: String = hexadecimal_text(n / 16, width - 1);
        let d: u64 = n % 16;
        s.push(
            if d < 10 {
                digit_char(d)
            } else {
                ((d + 87) as u8) as char
            },
        );
        s
    }
}

/// A whole word in hexadecimal, all sixteen digits of it.
pub open spec fn word(n: u64) -> Seq<char> {
    "0x"@ + hexadecimal(n as nat, 16)
}

/// A whole word in hexadecimal, all sixteen digits of it.
pub fn word_text(n: u64) -> (s: String)
    ensures
        s@ == word(n),
{
    let mut s: String = "0x".to_owned();
    s.append(hexadecimal_text(n, 16).as_str());
    s
}

/// `n` in decimal, with its sign.
pub open spec fn signed(n: int) -> Seq<char> {
    if n < 0 {
        seq!['-'] + decimal((-n) as nat)
    } else {
        decimal(n as nat)
    }
}

/// `n` in decimal, with its sign.
pub fn signed_text(n: i32) -> (s: String)
    ensures
        s@ == signed(n as int),
{
    if n < 0 {
        let mut s: String = String::new();
        s.push('-');
        assert(s@ =~= seq!['-']);
        let digits: String = count_text((-(n as i64)) as u64);
        s.append(digits.as_str());
        s
    } else {
        count_text(n as u64)
    }
}

/// The value of a run of decimal digits, or nothing if one is not a digit.
pub open spec fn digits_value(s: Seq<char>, base: int) -> Option<int>
    decreases s.len(),
{
    if s.len() == 0 {
        Some(0)
    } else {
        match (digits_value(s.drop_last(), base), digit_value(s.last(), base)) {
            (Some(high), Some(low)) => Some(high * base + low),
            _ => None,
        }
    }
}

/// The value of one digit in `base`, upper or lower case.
pub open spec fn digit_value(c: char, base: int) -> Option<int> {
    let v = if '0' <= c <= '9' {
        c as int - '0' as int
    } else if 'a' <= c <= 'z' {
        c as int - 'a' as int + 10
    } else if 'A' <= c <= 'Z' {
        c as int - 'A' as int + 10
    } else {
        99
    };
    if v < base {
        Some(v)
    } else {
        None
    }
}

/// An unsigned number no larger than `max`: an optional `+`, then digits.
pub open spec fn unsigned(s: Seq<char>, base: int, max: int) -> Option<int> {
    let digits = if s.len() > 0 && s[0] == '+' {
        s.skip(1)
    } else {
        s
    };
    match digits_value(digits, base) {
        Some(v) => if digits.len() > 0 && v <= max {
            Some(v)
        } else {
            None
        },
        None => None,
    }
}

fn read_digit(c: char, base: u64) -> (v: Option<u64>)
    requires
        base <= 36,
    ensures
        match v {
            Some(v) => digit_value(c, base as int) == Some(v as int) && v < base,
            None => digit_value(c, base as int) is None,
        },
{
    let v: u32 = if '0' <= c && c <= '9' {
        c as u32 - 48
    } else if 'a' <= c && c <= 'z' {
        c as u32 - 97 + 10
    } else if 'A' <= c && c <= 'Z' {
        c as u32 - 65 + 10
    } else {
        99
    };
    if (v as u64) < base {
        Some(v as u64)
    } else {
        None
    }
}

/// A prefix that is not a number, or is already past `max`, spoils the rest.
proof fn lemma_digits_grow(s: Seq<char>, k: int, base: int)
    requires
        0 <= k <= s.len(),
        base >= 2,
    ensures
        digits_value(s, base) is Some ==> digits_value(s.take(k), base) is Some && 0
            <= digits_value(s.take(k), base)->0 <= digits_value(s, base)->0,
    decreases s.len() - k, s.len(),
{
    if k == s.len() {
        assert(s.take(k) =~= s);
        if s.len() > 0 {
            lemma_digits_grow(s.drop_last(), s.len() - 1, base);
            assert(s.drop_last().take(s.len() - 1) =~= s.drop_last());
            if digits_value(s, base) is Some {
                let high = digits_value(s.drop_last(), base)->0;
                assert(high * base >= 0) by (nonlinear_arith)
                    requires
                        high >= 0,
                        base >= 2,
                ;
            }
        }
    } else {
        lemma_digits_grow(s.drop_last(), k, base);
        assert(s.drop_last().take(k) =~= s.take(k));
        if digits_value(s, base) is Some {
            let high = digits_value(s.drop_last(), base)->0;
            assert(high * base >= high) by (nonlinear_arith)
                requires
                    high >= 0,
                    base >= 2,
            ;
        }
    }
}

/// Read `chars[from..to]` as an unsigned number no larger than `max`.
pub fn read_unsigned(chars: &Vec<char>, from: usize, to: usize, base: u64, max: u64) -> (v: Option<u64>)
    requires
        from <= to <= chars@.len(),
        2 <= base <= 36,
    ensures
        match v {
            Some(v) => unsigned(chars@.subrange(from as int, to as int), base as int, max as int)
                == Some(v as int),
            None => unsigned(chars@.subrange(from as int, to as int), base as int, max as int)
                is None,
        },
{
    let ghost whole = chars@.subrange(from as int, to as int);
    let start: usize = if from < to && chars[from] == '+' {
        from + 1
    } else {
        from
    };
    let ghost digits = chars@.subrange(start as int, to as int);
    proof {
        if start > from {
            assert(whole.skip(1) =~= digits);
        } else {
            assert(whole =~= digits);
        }
    }
    if start >= to {
        return None;
    }
    let mut value: u64 = 0;
    let mut i: usize = start;
    while i < to
        invariant
            start <= i <= to <= chars@.len(),
            2 <= base <= 36,
            value <= max,
            digits == chars@.subrange(start as int, to as int),
            whole == chars@.subrange(from as int, to as int),
            digits == if whole.len() > 0 && whole[0] == '+' {
                whole.skip(1)
            } else {
                whole
            },
            digits_value(digits.take(i - start), base as int) == Some(value as int),
        decreases to - i,
    {
        let ghost k = i - start;
        proof {
            assert(digits.take(k + 1).drop_last() =~= digits.take(k));
            assert(digits.take(k + 1).last() == chars@[i as int]);
            lemma_digits_grow(digits, k + 1, base as int);
        }
        match read_digit(chars[i], base) {
            None => {
                return None;
            },
            Some(d) => {
                assert(value as u128 * base as u128 + d as u128 <= u128::MAX) by (nonlinear_arith)
                    requires
                        value <= u64::MAX,
                        base <= 36,
                        d < 36,
                ;
                assert(value as u128 * base as u128 == value * base);
                let next: u128 = value as u128 * base as u128 + d as u128;
                if next > max as u128 {
                    return None;
                }
                value = next as u64;
            },
        }
        i += 1;
    }
    assert(digits.take(to - start) =~= digits);
    Some(value)
}

// --- layout ---------------------------------------------------------------------------

/// `n` spaces.
pub open spec fn spaces(n: int) -> Seq<char> {
    Seq::new(
        if n > 0 {
            n as nat
        } else {
            0
        },
        |i: int| ' ',
    )
}

/// `s` against the right edge of a column.
pub open spec fn right(s: Seq<char>, width: int) -> Seq<char> {
    spaces(width - s.len()) + s
}

/// `s` against the left edge of a column.
pub open spec fn left(s: Seq<char>, width: int) -> Seq<char> {
    s + spaces(width - s.len())
}

fn space_text(n: usize) -> (s: String)
    ensures
        s@ == spaces(n as int),
{
    let mut s: String = String::new();
    let mut i: usize = 0;
    while i < n
        invariant
            i <= n,
            s@ == spaces(i as int),
        decreases n - i,
    {
        s.push(' ');
        i += 1;
        assert(s@ =~= spaces(i as int));
    }
    s
}

pub fn pad_left(s: &str, width: usize) -> (r: String)
    ensures
        r@ == right(s@, width as int),
{
    let len: usize = s.unicode_len();
    let mut r: String = if len < width {
        space_text(width - len)
    } else {
        String::new()
    };
    assert(r@ =~= spaces(width - s@.len()));
    r.append(s);
    r
}

pub fn pad_right(s: &str, width: usize) -> (r: String)
    ensures
        r@ == left(s@, width as int),
{
    let len: usize = s.unicode_len();
    let mut r: String = s.to_owned();
    let gap: String = if len < width {
        space_text(width - len)
    } else {
        String::new()
    };
    assert(gap@ =~= spaces(width - s@.len()));
    r.append(gap.as_str());
    r
}

/// The characters of each part.
pub open spec fn views(parts: Seq<String>) -> Seq<Seq<char>> {
    Seq::new(parts.len(), |i: int| parts[i]@)
}

pub proof fn lemma_views_push(parts: Seq<String>, part: String)
    ensures
        views(parts.push(part)) == views(parts).push(part@),
{
    assert(views(parts.push(part)) =~= views(parts).push(part@));
}

/// `parts` one after another, with `separator` between.
pub open spec fn joined(parts: Seq<Seq<char>>, separator: Seq<char>) -> Seq<char>
    decreases parts.len(),
{
    if parts.len() == 0 {
        Seq::empty()
    } else if parts.len() == 1 {
        parts[0]
    } else {
        joined(parts.drop_last(), separator) + separator + parts.last()
    }
}

pub fn join(parts: &Vec<String>, separator: &str) -> (line: String)
    ensures
        line@ == joined(views(parts@), separator@),
{
    let mut line: String = String::new();
    let mut i: usize = 0;
    while i < parts.len()
        invariant
            i <= parts@.len(),
            line@ == joined(views(parts@).take(i as int), separator@),
        decreases parts@.len() - i,
    {
        if i > 0 {
            line.append(separator);
        }
        line.append(parts[i].as_str());
        proof {
            let next = views(parts@).take(i + 1);
            assert(next.drop_last() =~= views(parts@).take(i as int));
            assert(line@ =~= joined(next, separator@));
        }
        i += 1;
    }
    assert(views(parts@).take(i as int) =~= views(parts@));
    line
}

// --- lines and fields --------------------------------------------------------------------

/// Append a line.
pub fn add_line(lines: &mut Vec<String>, line: String)
    ensures
        views(final(lines)@) == views(old(lines)@).push(line@),
{
    proof {
        lemma_views_push(lines@, line);
    }
    lines.push(line);
}

/// Each line with the end of a line behind it.
pub open spec fn page(lines: Seq<Seq<char>>) -> Seq<char>
    decreases lines.len(),
{
    if lines.len() == 0 {
        Seq::empty()
    } else {
        page(lines.drop_last()) + lines.last() + seq!['\n']
    }
}

/// Each line with the end of a line behind it.
pub fn page_text(lines: &Vec<String>) -> (text: String)
    ensures
        text@ == page(views(lines@)),
{
    let mut text: String = String::new();
    let mut i: usize = 0;
    assert(views(lines@).take(0).len() == 0);
    while i < lines.len()
        invariant
            i <= lines.len(),
            text@ == page(views(lines@).take(i as int)),
        decreases lines.len() - i,
    {
        text.append(lines[i].as_str());
        text.push('\n');
        i += 1;
        proof {
            let run = views(lines@).take(i as int);
            assert(run.drop_last() =~= views(lines@).take(i - 1));
            assert(text@ =~= page(run));
        }
    }
    assert(views(lines@).take(lines@.len() as int) =~= views(lines@));
    text
}

/// White space as Unicode defines it.
pub open spec fn white(c: char) -> bool {
    let n = c as int;
    ||| 0x9 <= n <= 0xd
    ||| n == 0x20 || n == 0x85 || n == 0xa0 || n == 0x1680
    ||| 0x2000 <= n <= 0x200a
    ||| n == 0x2028 || n == 0x2029 || n == 0x202f || n == 0x205f || n == 0x3000
}

pub fn is_white(c: char) -> (answer: bool)
    ensures
        answer == white(c),
{
    let n: u32 = c as u32;
    (0x9 <= n && n <= 0xd) || n == 0x20 || n == 0x85 || n == 0xa0 || n == 0x1680 || (0x2000 <= n
        && n <= 0x200a) || n == 0x2028 || n == 0x2029 || n == 0x202f || n == 0x205f || n
        == 0x3000
}

/// `s` without the white space it starts with.
pub open spec fn trimmed_start(s: Seq<char>) -> Seq<char>
    decreases s.len(),
{
    if s.len() > 0 && white(s[0]) {
        trimmed_start(s.skip(1))
    } else {
        s
    }
}

/// `s` without the white space it ends with.
pub open spec fn trimmed_end(s: Seq<char>) -> Seq<char>
    decreases s.len(),
{
    if s.len() > 0 && white(s.last()) {
        trimmed_end(s.drop_last())
    } else {
        s
    }
}

/// `s` without white space at either end.
pub open spec fn trimmed(s: Seq<char>) -> Seq<char> {
    trimmed_end(trimmed_start(s))
}

/// Bounds of `chars[from..to]` once trimmed.
pub fn trim(chars: &Vec<char>, from: usize, to: usize) -> (bounds: (usize, usize))
    requires
        from <= to <= chars@.len(),
    ensures
        from <= bounds.0 <= bounds.1 <= to,
        chars@.subrange(bounds.0 as int, bounds.1 as int) == trimmed(
            chars@.subrange(from as int, to as int),
        ),
{
    let mut a: usize = from;
    while a < to && is_white(chars[a])
        invariant
            from <= a <= to <= chars@.len(),
            trimmed_start(chars@.subrange(from as int, to as int)) == trimmed_start(
                chars@.subrange(a as int, to as int),
            ),
        decreases to - a,
    {
        assert(chars@.subrange(a as int, to as int).skip(1) =~= chars@.subrange(
            a + 1,
            to as int,
        ));
        a += 1;
    }
    let mut b: usize = to;
    while a < b && is_white(chars[b - 1])
        invariant
            from <= a <= b <= to <= chars@.len(),
            trimmed_end(chars@.subrange(a as int, to as int)) == trimmed_end(
                chars@.subrange(a as int, b as int),
            ),
        decreases b,
    {
        assert(chars@.subrange(a as int, b as int).drop_last() =~= chars@.subrange(
            a as int,
            b - 1,
        ));
        b -= 1;
    }
    (a, b)
}

/// Index of the first `c` in `s`, or the length if there is none.
pub open spec fn position(s: Seq<char>, c: char) -> int
    decreases s.len(),
{
    if s.len() == 0 || s[0] == c {
        0
    } else {
        1 + position(s.skip(1), c)
    }
}

/// Where the first `c` is.
pub proof fn lemma_position(s: Seq<char>, c: char, at: int)
    requires
        0 <= at <= s.len(),
        forall|i: int| 0 <= i < at ==> s[i] != c,
        at < s.len() ==> s[at] == c,
    ensures
        position(s, c) == at,
    decreases s.len(),
{
    if at > 0 {
        lemma_position(s.skip(1), c, at - 1);
    }
}

/// Index of the first `c` in `chars[from..to]`, or `to`.
pub fn find(chars: &Vec<char>, from: usize, to: usize, c: char) -> (at: usize)
    requires
        from <= to <= chars@.len(),
    ensures
        from <= at <= to,
        at - from == position(chars@.subrange(from as int, to as int), c),
        at < to ==> chars@[at as int] == c,
{
    let mut at: usize = from;
    while at < to && chars[at] != c
        invariant
            from <= at <= to <= chars@.len(),
            position(chars@.subrange(from as int, to as int), c) == at - from + position(
                chars@.subrange(at as int, to as int),
                c,
            ),
        decreases to - at,
    {
        assert(chars@.subrange(at as int, to as int).skip(1) =~= chars@.subrange(
            at + 1,
            to as int,
        ));
        at += 1;
    }
    at
}

/// `chars[from..to]` is exactly `word`.
pub fn spells(chars: &Vec<char>, from: usize, to: usize, word: &str) -> (answer: bool)
    requires
        from <= to <= chars@.len(),
    ensures
        answer == (chars@.subrange(from as int, to as int) == word@),
{
    let letters: Vec<char> = letters(word);
    if letters.len() != to - from {
        return false;
    }
    let mut i: usize = 0;
    while i < letters.len()
        invariant
            i <= letters@.len(),
            letters@ == word@,
            letters@.len() == to - from,
            from <= to <= chars@.len(),
            forall|j: int| 0 <= j < i ==> letters@[j] == chars@[from + j],
        decreases letters@.len() - i,
    {
        if letters[i] != chars[from + i] {
            assert(chars@.subrange(from as int, to as int)[i as int] != word@[i as int]);
            return false;
        }
        i += 1;
    }
    assert(chars@.subrange(from as int, to as int) =~= word@);
    true
}

/// The two texts are the same.
pub fn same_text(a: &str, b: &str) -> (answer: bool)
    ensures
        answer == (a@ == b@),
{
    let chars: Vec<char> = letters(a);
    assert(chars@.subrange(0, chars@.len() as int) =~= a@);
    spells(&chars, 0, chars.len(), b)
}

/// Read a whole text as an unsigned number no larger than `max`.
pub fn read_count(text: &str, max: u64) -> (v: Option<u64>)
    ensures
        match v {
            Some(v) => unsigned(text@, 10, max as int) == Some(v as int),
            None => unsigned(text@, 10, max as int) is None,
        },
{
    let chars: Vec<char> = letters(text);
    assert(chars@.subrange(0, chars@.len() as int) =~= text@);
    read_unsigned(&chars, 0, chars.len(), 10, max)
}

/// `s` begins with `prefix`.
pub open spec fn begins(s: Seq<char>, prefix: Seq<char>) -> bool {
    prefix.len() <= s.len() && s.take(prefix.len() as int) == prefix
}

/// `chars[from..to]` begins with `word`: the index just past it.
pub fn past_prefix(chars: &Vec<char>, from: usize, to: usize, word: &str) -> (at: Option<usize>)
    requires
        from <= to <= chars@.len(),
    ensures
        at is Some == begins(chars@.subrange(from as int, to as int), word@),
        at matches Some(p) ==> p == from + word@.len() && p <= to,
{
    let len: usize = word.unicode_len();
    if len > to - from {
        return None;
    }
    assert(chars@.subrange(from as int, to as int).take(len as int) =~= chars@.subrange(
        from as int,
        from + len,
    ));
    if spells(chars, from, from + len, word) {
        Some(from + len)
    } else {
        None
    }
}

} // verus!
