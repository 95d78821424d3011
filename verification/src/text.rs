//! Text as sequences of characters: lines, words, trimming, joining, padding
//! and decimal numbers.

use vstd::prelude::*;

verus! {

/// Appends one character to a string.
///
/// `String::push` is documented to append the character at the end of the
/// string; the contract says exactly that of the sequence of characters.
pub assume_specification[ String::push ](s: &mut String, c: char)
    ensures
        final(s)@ == old(s)@.push(c),
;

/// The sets of characters that scanning stops or continues on.
#[derive(Clone, Copy, PartialEq, Eq, Structural)]
pub enum Class {
    /// Unicode `White_Space`.
    White,
    /// Everything that is not `White_Space`.
    NotWhite,
    /// A space or a tab.
    Blank,
    /// Everything but a space and a tab.
    NotBlank,
    /// Everything but a line feed.
    NotNewline,
}

/// The characters with the Unicode property `White_Space`.
pub open spec fn is_white(c: char) -> bool {
    let n = c as u32;
    ||| 0x9 <= n <= 0xd
    ||| n == 0x20
    ||| n == 0x85
    ||| n == 0xa0
    ||| n == 0x1680
    ||| 0x2000 <= n <= 0x200a
    ||| n == 0x2028
    ||| n == 0x2029
    ||| n == 0x202f
    ||| n == 0x205f
    ||| n == 0x3000
}

/// Whether `c` belongs to the class `k`.
pub open spec fn in_class(k: Class, c: char) -> bool {
    match k {
        Class::White => is_white(c),
        Class::NotWhite => !is_white(c),
        Class::Blank => c == ' ' || c == '\t',
        Class::NotBlank => c != ' ' && c != '\t',
        Class::NotNewline => c != '\n',
    }
}

/// How many characters at the front of `s` belong to `k` before the first
/// one that does not.
pub open spec fn span(s: Seq<char>, k: Class) -> nat
    decreases s.len(),
{
    if s.len() > 0 && in_class(k, s[0]) {
        1 + span(s.drop_first(), k)
    } else {
        0
    }
}

/// A length is the span of `s` exactly when everything before it is in the
/// class and it stands at the end or before a character outside the class.
pub proof fn lemma_span_is(s: Seq<char>, k: Class, n: nat)
    requires
        n <= s.len(),
        forall|i: int| 0 <= i < n ==> in_class(k, #[trigger] s[i]),
        n == s.len() || !in_class(k, s[n as int]),
    ensures
        span(s, k) == n,
    decreases n,
{
    if n > 0 {
        let t = s.drop_first();
        assert forall|i: int| 0 <= i < n - 1 implies in_class(k, #[trigger] t[i]) by {
            assert(t[i] == s[i + 1]);
        }
        lemma_span_is(t, k, (n - 1) as nat);
    }
}

/// The defining properties of a span.
pub proof fn lemma_span_props(s: Seq<char>, k: Class)
    ensures
        span(s, k) <= s.len(),
        forall|i: int| 0 <= i < span(s, k) ==> in_class(k, #[trigger] s[i]),
        span(s, k) < s.len() ==> !in_class(k, s[span(s, k) as int]),
    decreases s.len(),
{
    if s.len() > 0 && in_class(k, s[0]) {
        let t = s.drop_first();
        lemma_span_props(t, k);
        assert forall|i: int| 0 <= i < span(s, k) implies in_class(k, #[trigger] s[i]) by {
            if i > 0 {
                assert(s[i] == t[i - 1]);
            }
        }
    }
}

/// Whether a character is Unicode white space.
pub fn white(c: char) -> (r: bool)
    ensures
        r == is_white(c),
{
    let n: u32 = c as u32;
    (0x9 <= n && n <= 0xd) || n == 0x20 || n == 0x85 || n == 0xa0 || n == 0x1680
        || (0x2000 <= n && n <= 0x200a) || n == 0x2028 || n == 0x2029 || n == 0x202f
        || n == 0x205f || n == 0x3000
}

fn class_has(k: Class, c: char) -> (r: bool)
    ensures
        r == in_class(k, c),
{
    match k {
        Class::White => white(c),
        Class::NotWhite => !white(c),
        Class::Blank => c == ' ' || c == '\t',
        Class::NotBlank => c != ' ' && c != '\t',
        Class::NotNewline => c != '\n',
    }
}

/// The characters of a string.
pub fn chars_of(s: &str) -> (r: Vec<char>)
    ensures
        r@ == s@,
{
    let mut out: Vec<char> = Vec::new();
    for c in it: s.chars()
        invariant
            it.seq() == s@,
            out@ == it.seq().take(it.index() as int),
    {
        out.push(c);
    }
    out
}

/// The string made of `chars[from..to]`.
pub fn string_of(chars: &Vec<char>, from: usize, to: usize) -> (r: String)
    requires
        from <= to <= chars.len(),
    ensures
        r@ == chars@.subrange(from as int, to as int),
{
    let mut out = String::new();
    let mut i: usize = from;
    while i < to
        invariant
            from <= i <= to <= chars.len(),
            out@ == chars@.subrange(from as int, i as int),
        decreases to - i,
    {
        out.push(chars[i]);
        i += 1;
    }
    out
}

/// The span of the class `k` in `chars` from position `from` on.
pub fn span_from(chars: &Vec<char>, from: usize, k: Class) -> (r: usize)
    requires
        from <= chars.len(),
    ensures
        r == span(chars@.skip(from as int), k),
        from + r <= chars.len(),
{
    let mut n: usize = 0;
    let ghost s = chars@.skip(from as int);
    while from + n < chars.len() && class_has(k, chars[from + n])
        invariant
            from <= chars.len(),
            from + n <= chars.len(),
            s == chars@.skip(from as int),
            forall|i: int| 0 <= i < n ==> in_class(k, #[trigger] s[i]),
        decreases chars.len() - n,
    {
        assert(s[n as int] == chars@[from + n]);
        n += 1;
    }
    proof {
        if from + n < chars.len() {
            assert(s[n as int] == chars@[from + n]);
        }
        lemma_span_is(s, k, n as nat);
    }
    n
}

/// The characters of each string.
pub open spec fn texts(v: Seq<String>) -> Seq<Seq<char>> {
    Seq::new(v.len(), |i: int| v[i]@)
}

/// Appending a string appends its characters.
pub proof fn lemma_texts_push(v: Seq<String>, s: String)
    ensures
        texts(v.push(s)) == texts(v).push(s@),
{
    assert(texts(v.push(s)) =~= texts(v).push(s@));
}

// ---------------------------------------------------------------------------
// Lines
// ---------------------------------------------------------------------------

/// A line without the carriage return that stood before its line feed.
pub open spec fn strip_cr(line: Seq<char>) -> Seq<char> {
    if line.len() > 0 && line.last() == '\r' {
        line.drop_last()
    } else {
        line
    }
}

/// The lines of a text: each ends at a line feed, which is dropped together
/// with one carriage return right before it; what follows the last line feed
/// is a line of its own when it is not empty, and keeps its carriage return.
pub open spec fn lines_of(s: Seq<char>) -> Seq<Seq<char>>
    decreases s.len(),
    via lines_of_decreases
{
    if s.len() == 0 {
        seq![]
    } else {
        let n = span(s, Class::NotNewline) as int;
        if n >= s.len() {
            seq![s]
        } else {
            seq![strip_cr(s.take(n))] + lines_of(s.skip(n + 1))
        }
    }
}

#[via_fn]
proof fn lines_of_decreases(s: Seq<char>) {
}

/// The lines of a text, as `str::lines` gives them.
pub fn lines(s: &str) -> (r: Vec<String>)
    ensures
        texts(r@) == lines_of(s@),
{
    let chars = chars_of(s);
    let mut out: Vec<String> = Vec::new();
    let mut at: usize = 0;
    proof {
        assert(s@.skip(0) =~= s@);
        assert(texts(out@) + lines_of(s@.skip(0)) =~= lines_of(s@));
    }
    while at < chars.len()
        invariant
            chars@ == s@,
            at <= chars.len(),
            texts(out@) + lines_of(s@.skip(at as int)) == lines_of(s@),
        decreases chars.len() - at,
    {
        let ghost rest = s@.skip(at as int);
        let ghost before = texts(out@);
        let n = span_from(&chars, at, Class::NotNewline);
        if at + n == chars.len() {
            let line = string_of(&chars, at, at + n);
            proof {
                lemma_texts_push(out@, line);
                assert(line@ =~= rest);
                assert(s@.skip(s@.len() as int).len() == 0);
                assert(before + seq![rest] =~= before.push(rest) + lines_of(
                    s@.skip(s@.len() as int),
                ));
            }
            out.push(line);
            at = chars.len();
        } else {
            let cr = n > 0 && chars[at + n - 1] == '\r';
            let end: usize = if cr { at + n - 1 } else { at + n };
            let line = string_of(&chars, at, end);
            proof {
                lemma_texts_push(out@, line);
                assert(rest.take(n as int) =~= s@.subrange(at as int, at + n));
                assert(line@ =~= strip_cr(rest.take(n as int)));
                assert(rest.skip(n + 1) =~= s@.skip(at + n + 1));
                assert(before + (seq![line@] + lines_of(s@.skip(at + n + 1))) =~= before.push(line@)
                    + lines_of(s@.skip(at + n + 1)));
            }
            out.push(line);
            at = at + n + 1;
        }
    }
    proof {
        assert(s@.skip(at as int).len() == 0);
        assert(texts(out@) + lines_of(s@.skip(at as int)) =~= texts(out@));
    }
    out
}

// ---------------------------------------------------------------------------
// Words
// ---------------------------------------------------------------------------

/// The maximal runs of characters that are not white space.
pub open spec fn words_of(s: Seq<char>) -> Seq<Seq<char>>
    decreases s.len(),
    via words_of_decreases
{
    let t = s.skip(span(s, Class::White) as int);
    if span(s, Class::White) >= s.len() {
        seq![]
    } else {
        seq![t.take(span(t, Class::NotWhite) as int)] + words_of(
            t.skip(span(t, Class::NotWhite) as int),
        )
    }
}

#[via_fn]
proof fn words_of_decreases(s: Seq<char>) {
    let w = span(s, Class::White) as int;
    let t = s.skip(w);
    lemma_span_props(s, Class::White);
    lemma_span_props(t, Class::NotWhite);
    if w < s.len() {
        assert(t[0] == s[w]);
        if span(t, Class::NotWhite) == 0 {
            assert(in_class(Class::NotWhite, t[0]));
        }
    }
}

/// The words of a text, as `str::split_whitespace` gives them.
pub fn words(s: &str) -> (r: Vec<String>)
    ensures
        texts(r@) == words_of(s@),
{
    let chars = chars_of(s);
    let mut out: Vec<String> = Vec::new();
    let mut at: usize = 0;
    proof {
        assert(s@.skip(0) =~= s@);
        assert(texts(out@) + words_of(s@.skip(0)) =~= words_of(s@));
    }
    loop
        invariant
            chars@ == s@,
            at <= chars.len(),
            texts(out@) + words_of(s@.skip(at as int)) == words_of(s@),
        ensures
            texts(out@) == words_of(s@),
        decreases chars.len() - at,
    {
        let ghost rest = s@.skip(at as int);
        let ghost before = texts(out@);
        let w = span_from(&chars, at, Class::White);
        if at + w == chars.len() {
            proof {
                assert(texts(out@) + words_of(rest) =~= texts(out@));
            }
            break;
        }
        let start: usize = at + w;
        let n = span_from(&chars, start, Class::NotWhite);
        let word = string_of(&chars, start, start + n);
        proof {
            let t = rest.skip(w as int);
            assert(t =~= s@.skip(start as int));
            lemma_span_props(rest, Class::White);
            lemma_span_props(t, Class::NotWhite);
            assert(t[0] == rest[w as int]);
            assert(n > 0) by {
                if n == 0 {
                    assert(in_class(Class::NotWhite, t[0]));
                }
            }
            assert(word@ =~= t.take(n as int));
            assert(t.skip(n as int) =~= s@.skip(start + n));
            lemma_texts_push(out@, word);
            assert(before + (seq![word@] + words_of(s@.skip(start + n))) =~= before.push(word@)
                + words_of(s@.skip(start + n)));
        }
        out.push(word);
        at = start + n;
    }
    out
}

// ---------------------------------------------------------------------------
// Trimming
// ---------------------------------------------------------------------------

/// A text without the white space at its end.
pub open spec fn trim_end_of(s: Seq<char>) -> Seq<char>
    decreases s.len(),
{
    if s.len() > 0 && is_white(s.last()) {
        trim_end_of(s.drop_last())
    } else {
        s
    }
}

/// A text without the white space at either end.
pub open spec fn trim_of(s: Seq<char>) -> Seq<char> {
    trim_end_of(s.skip(span(s, Class::White) as int))
}

/// A text without the white space at either end, as `str::trim` gives it.
pub fn trim(s: &str) -> (r: String)
    ensures
        r@ == trim_of(s@),
{
    let chars = chars_of(s);
    let w = span_from(&chars, 0, Class::White);
    proof {
        assert(s@.skip(0) =~= s@);
    }
    let mut end: usize = chars.len();
    let ghost t = s@.skip(w as int);
    proof {
        assert(s@.subrange(w as int, end as int) =~= t);
    }
    while end > w && white(chars[end - 1])
        invariant
            chars@ == s@,
            w <= end <= chars.len(),
            trim_end_of(s@.subrange(w as int, end as int)) == trim_end_of(t),
        decreases end,
    {
        proof {
            let cur = s@.subrange(w as int, end as int);
            assert(cur.last() == s@[end - 1]);
            assert(cur.drop_last() =~= s@.subrange(w as int, end - 1));
        }
        end -= 1;
    }
    proof {
        let cur = s@.subrange(w as int, end as int);
        if end > w {
            assert(cur.last() == s@[end - 1]);
        }
    }
    string_of(&chars, w, end)
}

// ---------------------------------------------------------------------------
// Putting texts together
// ---------------------------------------------------------------------------

/// Texts one after the other, with `sep` between each two.
pub open spec fn join_of(parts: Seq<Seq<char>>, sep: Seq<char>) -> Seq<char>
    decreases parts.len(),
{
    if parts.len() == 0 {
        seq![]
    } else if parts.len() == 1 {
        parts[0]
    } else {
        join_of(parts.drop_last(), sep) + sep + parts.last()
    }
}

/// Joins texts, as `[String]::join` does.
pub fn join(parts: &Vec<String>, sep: &str) -> (r: String)
    ensures
        r@ == join_of(texts(parts@), sep@),
{
    let mut out = String::new();
    let mut i: usize = 0;
    let ghost all = texts(parts@);
    while i < parts.len()
        invariant
            i <= parts.len(),
            all == texts(parts@),
            out@ == join_of(all.take(i as int), sep@),
        decreases parts.len() - i,
    {
        if i > 0 {
            out.append(sep);
        }
        out.append(parts[i].as_str());
        proof {
            let next = all.take(i + 1);
            assert(next.drop_last() =~= all.take(i as int));
            assert(next.last() == parts@[i as int]@);
            if i == 0 {
                assert(out@ =~= next[0]);
            }
        }
        i += 1;
    }
    proof {
        assert(all.take(i as int) =~= all);
    }
    out
}

/// Two texts one after the other.
pub fn cat(a: &str, b: &str) -> (r: String)
    ensures
        r@ == a@ + b@,
{
    let mut out = a.to_owned();
    out.append(b);
    out
}

/// Three texts one after the other.
pub fn cat3(a: &str, b: &str, c: &str) -> (r: String)
    ensures
        r@ == a@ + b@ + c@,
{
    let mut out = a.to_owned();
    out.append(b);
    out.append(c);
    out
}

/// Four texts one after the other.
pub fn cat4(a: &str, b: &str, c: &str, d: &str) -> (r: String)
    ensures
        r@ == a@ + b@ + c@ + d@,
{
    let mut out = a.to_owned();
    out.append(b);
    out.append(c);
    out.append(d);
    out
}

/// Five texts one after the other.
pub fn cat5(a: &str, b: &str, c: &str, d: &str, e: &str) -> (r: String)
    ensures
        r@ == a@ + b@ + c@ + d@ + e@,
{
    let mut out = a.to_owned();
    out.append(b);
    out.append(c);
    out.append(d);
    out.append(e);
    out
}

/// `n` spaces.
pub open spec fn spaces(n: nat) -> Seq<char> {
    Seq::new(n, |i: int| ' ')
}

/// A text filled up with spaces on the right to `width` characters; a text
/// of that many characters or more stays as it is.
pub open spec fn padded(s: Seq<char>, width: nat) -> Seq<char> {
    if s.len() >= width {
        s
    } else {
        s + spaces((width - s.len()) as nat)
    }
}

/// Fills a text up with spaces on the right to `width` characters.
pub fn pad(s: &str, width: usize) -> (r: String)
    ensures
        r@ == padded(s@, width as nat),
{
    let mut n: usize = s.unicode_len();
    let mut out = s.to_owned();
    let ghost len = s@.len();
    while n < width
        invariant
            len == s@.len(),
            n >= len,
            n <= width || n == len,
            out@ == s@ + spaces((n - len) as nat),
        decreases width - n,
    {
        out.push(' ');
        n += 1;
        proof {
            assert(out@ =~= s@ + spaces((n - len) as nat));
        }
    }
    proof {
        assert(spaces(0) =~= seq![]);
        assert(s@ + spaces(0) =~= s@);
    }
    out
}

/// Whether two texts are the same.
pub fn same(a: &str, b: &str) -> (r: bool)
    ensures
        r == (a@ == b@),
{
    let x = a.to_owned();
    let y = b.to_owned();
    x == y
}

/// Whether `s` begins with `prefix`.
pub open spec fn begins_with(s: Seq<char>, prefix: Seq<char>) -> bool {
    prefix.len() <= s.len() && s.take(prefix.len() as int) == prefix
}

/// Whether `s` begins with `prefix`, as `str::starts_with` tells it.
pub fn starts_with(s: &str, prefix: &str) -> (r: bool)
    ensures
        r == begins_with(s@, prefix@),
{
    let n = prefix.unicode_len();
    let total = s.unicode_len();
    if n > total {
        return false;
    }
    let head = s.substring_char(0, n);
    proof {
        assert(head@ =~= s@.take(n as int));
    }
    same(head, prefix)
}

/// Whether `word` is one of `list`.
pub fn has_word(list: &Vec<String>, word: &str) -> (r: bool)
    ensures
        r == texts(list@).contains(word@),
{
    let mut i: usize = 0;
    while i < list.len()
        invariant
            i <= list.len(),
            forall|j: int| 0 <= j < i ==> texts(list@)[j] != word@,
        decreases list.len() - i,
    {
        if same(list[i].as_str(), word) {
            proof {
                assert(texts(list@)[i as int] == word@);
            }
            return true;
        }
        i += 1;
    }
    false
}

// ---------------------------------------------------------------------------
// Decimal numbers
// ---------------------------------------------------------------------------

/// The digit for a number below ten.
pub open spec fn digit_char(d: nat) -> char {
    (('0' as u32) + d) as char
}

/// A number in decimal, without leading zeros.
pub open spec fn decimal(n: nat) -> Seq<char>
    decreases n,
{
    if n < 10 {
        seq![digit_char(n)]
    } else {
        decimal(n / 10).push(digit_char(n % 10))
    }
}

fn digit(d: u8) -> (r: char)
    requires
        d < 10,
    ensures
        r == digit_char(d as nat),
{
    (48u8 + d) as char
}

/// A number in decimal, as `u128`'s `Display` writes it.
pub fn number(n: u128) -> (r: String)
    ensures
        r@ == decimal(n as nat),
    decreases n,
{
    let mut out = if n < 10 { String::new() } else { number(n / 10) };
    out.push(digit((n % 10) as u8));
    proof {
        if n < 10 {
            assert(out@ =~= decimal(n as nat));
        }
    }
    out
}

/// A number of tenths, written with one digit after the point.
pub open spec fn tenths_text(t: nat) -> Seq<char> {
    decimal(t / 10) + "."@ + decimal(t % 10)
}

/// Writes a number of tenths with one digit after the point.
pub fn tenths(t: u128) -> (r: String)
    ensures
        r@ == tenths_text(t as nat),
{
    cat3(number(t / 10).as_str(), ".", number(t % 10).as_str())
}

/// Whether `c` is one of the ten ASCII digits.
pub open spec fn is_digit(c: char) -> bool {
    '0' <= c <= '9'
}

/// The value of a string of decimal digits.
pub open spec fn digits_value(s: Seq<char>) -> nat
    decreases s.len(),
{
    if s.len() == 0 {
        0
    } else {
        digits_value(s.drop_last()) * 10 + ((s.last() as u32) - ('0' as u32)) as nat
    }
}

/// A text without one leading plus sign.
pub open spec fn unsigned_part(s: Seq<char>) -> Seq<char> {
    if s.len() > 0 && s[0] == '+' {
        s.skip(1)
    } else {
        s
    }
}

/// The `u64` that a text denotes: decimal digits, one plus sign allowed in
/// front, and a value that fits.
pub open spec fn parsed_u64(s: Seq<char>) -> Option<u64> {
    let d = unsigned_part(s);
    if d.len() > 0 && (forall|i: int| 0 <= i < d.len() ==> is_digit(#[trigger] d[i]))
        && digits_value(d) <= u64::MAX {
        Some(digits_value(d) as u64)
    } else {
        None
    }
}

/// A longer string of digits denotes no smaller number.
proof fn lemma_value_grows(s: Seq<char>, n: int)
    requires
        0 <= n <= s.len(),
        forall|i: int| 0 <= i < s.len() ==> is_digit(#[trigger] s[i]),
    ensures
        digits_value(s.take(n)) <= digits_value(s),
    decreases s.len() - n,
{
    if n < s.len() {
        let t = s.take(n + 1);
        lemma_value_grows(s, n + 1);
        assert(t.drop_last() =~= s.take(n));
        assert(is_digit(s[n]));
    } else {
        assert(s.take(n) =~= s);
    }
}

/// Reads a `u64`, as `str::parse` does.
pub fn parse_u64(s: &str) -> (r: Option<u64>)
    ensures
        r == parsed_u64(s@),
{
    let chars = chars_of(s);
    let from: usize = if chars.len() > 0 && chars[0] == '+' { 1 } else { 0 };
    let ghost d = unsigned_part(s@);
    proof {
        assert(d =~= s@.skip(from as int));
    }
    if from == chars.len() {
        return None;
    }
    let mut value: u64 = 0;
    let mut i: usize = from;
    while i < chars.len()
        invariant
            chars@ == s@,
            from <= i <= chars.len(),
            d == s@.skip(from as int),
            d == unsigned_part(s@),
            d.len() > 0,
            forall|j: int| 0 <= j < i - from ==> is_digit(#[trigger] d[j]),
            value == digits_value(d.take(i - from)),
        decreases chars.len() - i,
    {
        let c = chars[i];
        let ghost k = i - from;
        proof {
            assert(d[k] == c);
            assert(d.take(k + 1).drop_last() =~= d.take(k));
        }
        if !('0' <= c && c <= '9') {
            return None;
        }
        let step: u128 = (value as u128) * 10 + ((c as u32) - 48) as u128;
        proof {
            assert(step == digits_value(d.take(k + 1)));
        }
        if step > 0xffff_ffff_ffff_ffff {
            proof {
                if forall|j: int| 0 <= j < d.len() ==> is_digit(#[trigger] d[j]) {
                    lemma_value_grows(d, k + 1);
                }
            }
            return None;
        }
        value = step as u64;
        i += 1;
    }
    proof {
        assert(d.take(i - from) =~= d);
    }
    Some(value)
}

// ---------------------------------------------------------------------------
// Laws
// ---------------------------------------------------------------------------

/// White space is the space, the ASCII control characters from tab to carriage
/// return, and the spaces and separators of Unicode.
pub proof fn law_white_space(c: char)
    ensures
        is_white(c) <==> {
            ||| c == ' ' || c == '\t' || c == '\n' || c == '\u{b}' || c == '\u{c}' || c == '\r'
            ||| c == '\u{85}' || c == '\u{a0}' || c == '\u{1680}'
            ||| '\u{2000}' <= c <= '\u{200a}'
            ||| c == '\u{2028}' || c == '\u{2029}' || c == '\u{202f}' || c == '\u{205f}'
            ||| c == '\u{3000}'
        },
{
}

/// Whether a text is white space throughout.
pub open spec fn all_white(s: Seq<char>) -> bool {
    forall|i: int| 0 <= i < s.len() ==> is_white(#[trigger] s[i])
}

/// Whether no character of a text is white space.
pub open spec fn none_white(s: Seq<char>) -> bool {
    forall|i: int| 0 <= i < s.len() ==> !is_white(#[trigger] s[i])
}

/// What stands before a line feed is a line, without a carriage return at its
/// end; the lines of what follows come after it.
pub proof fn law_lines_end_at_line_feeds(line: Seq<char>, rest: Seq<char>)
    requires
        !line.contains('\n'),
    ensures
        line.len() == 0 || line.last() != '\r' ==> lines_of(line.push('\n') + rest) == seq![line]
            + lines_of(rest),
        lines_of(line.push('\r').push('\n') + rest) == seq![line] + lines_of(rest),
{
    let s = line.push('\n') + rest;
    let n = line.len();
    assert forall|i: int| 0 <= i < n implies in_class(Class::NotNewline, #[trigger] s[i]) by {
        assert(s[i] == line[i]);
        assert(line.contains(line[i]));
    }
    lemma_span_is(s, Class::NotNewline, n);
    assert(s.take(n as int) =~= line);
    assert(s.skip(n + 1int) =~= rest);
    let t = line.push('\r').push('\n') + rest;
    assert forall|i: int| 0 <= i < n + 1 implies in_class(Class::NotNewline, #[trigger] t[i]) by {
        if i < n {
            assert(t[i] == line[i]);
            assert(line.contains(line[i]));
        }
    }
    lemma_span_is(t, Class::NotNewline, n + 1);
    assert(t.take(n + 1int) =~= line.push('\r'));
    assert(strip_cr(line.push('\r')) =~= line);
    assert(t.skip(n + 2int) =~= rest);
}

/// What follows the last line feed is a line as it stands, if it is not empty.
pub proof fn law_last_line_needs_no_line_feed(line: Seq<char>)
    requires
        !line.contains('\n'),
    ensures
        lines_of(line) == (if line.len() > 0 {
            seq![line]
        } else {
            seq![]
        }),
{
    assert forall|i: int| 0 <= i < line.len() implies in_class(
        Class::NotNewline,
        #[trigger] line[i],
    ) by {
        assert(line.contains(line[i]));
    }
    lemma_span_is(line, Class::NotNewline, line.len());
}

/// A text of white space has no words. In any other text the first word is
/// what stands between the white space in front and the next white space, and
/// the other words are those of the rest.
pub proof fn law_words_stand_between_white_space(
    lead: Seq<char>,
    word: Seq<char>,
    rest: Seq<char>,
)
    requires
        all_white(lead),
        none_white(word),
        rest.len() > 0 ==> is_white(rest[0]),
    ensures
        words_of(lead).len() == 0,
        word.len() > 0 ==> words_of(lead + word + rest) == seq![word] + words_of(rest),
{
    lemma_span_is(lead, Class::White, lead.len());
    if word.len() > 0 {
        let s = lead + word + rest;
        assert forall|i: int| 0 <= i < lead.len() implies in_class(
            Class::White,
            #[trigger] s[i],
        ) by {
            assert(s[i] == lead[i]);
        }
        assert(s[lead.len() as int] == word[0]);
        lemma_span_is(s, Class::White, lead.len());
        let t = s.skip(lead.len() as int);
        assert(t =~= word + rest);
        assert forall|i: int| 0 <= i < word.len() implies in_class(
            Class::NotWhite,
            #[trigger] t[i],
        ) by {
            assert(t[i] == word[i]);
        }
        if rest.len() > 0 {
            assert(t[word.len() as int] == rest[0]);
        }
        lemma_span_is(t, Class::NotWhite, word.len());
        assert(t.take(word.len() as int) =~= word);
        assert(t.skip(word.len() as int) =~= rest);
    }
}

/// Trimming takes away the white space at either end and nothing else.
pub proof fn law_trimming_takes_white_space_away(
    lead: Seq<char>,
    kept: Seq<char>,
    trail: Seq<char>,
)
    requires
        all_white(lead),
        all_white(trail),
        kept.len() > 0 ==> !is_white(kept[0]) && !is_white(kept.last()),
    ensures
        trim_of(lead + kept + trail) == kept,
{
    let s = lead + kept + trail;
    if kept.len() == 0 {
        assert forall|i: int| 0 <= i < s.len() implies in_class(Class::White, #[trigger] s[i]) by {
            if i < lead.len() {
                assert(s[i] == lead[i]);
            } else {
                assert(s[i] == trail[i - lead.len()]);
            }
        }
        lemma_span_is(s, Class::White, s.len());
        assert(s.skip(s.len() as int) =~= kept);
    } else {
        assert forall|i: int| 0 <= i < lead.len() implies in_class(
            Class::White,
            #[trigger] s[i],
        ) by {
            assert(s[i] == lead[i]);
        }
        assert(s[lead.len() as int] == kept[0]);
        lemma_span_is(s, Class::White, lead.len());
        assert(s.skip(lead.len() as int) =~= kept + trail);
        lemma_trim_end(kept, trail);
    }
}

proof fn lemma_trim_end(kept: Seq<char>, trail: Seq<char>)
    requires
        all_white(trail),
        kept.len() > 0,
        !is_white(kept.last()),
    ensures
        trim_end_of(kept + trail) == kept,
    decreases trail.len(),
{
    let s = kept + trail;
    if trail.len() > 0 {
        assert(s.last() == trail[trail.len() - 1]);
        assert(s.drop_last() =~= kept + trail.drop_last());
        lemma_trim_end(kept, trail.drop_last());
    } else {
        assert(s =~= kept);
    }
}

/// Joining nothing gives nothing, joining one text gives that text, and one
/// more text comes at the end behind a separator.
pub proof fn law_joining_keeps_every_text(parts: Seq<Seq<char>>, last: Seq<char>, sep: Seq<char>)
    ensures
        join_of(Seq::<Seq<char>>::empty(), sep) == Seq::<char>::empty(),
        join_of(seq![last], sep) == last,
        parts.len() > 0 ==> join_of(parts.push(last), sep) == join_of(parts, sep) + sep + last,
{
    assert(parts.push(last).drop_last() =~= parts);
}

/// Joined texts are the first one, a separator, and the others joined.
pub proof fn lemma_join_front(parts: Seq<Seq<char>>, sep: Seq<char>)
    requires
        parts.len() > 1,
    ensures
        join_of(parts, sep) == parts[0] + (sep + join_of(parts.skip(1), sep)),
    decreases parts.len(),
{
    let rest = parts.skip(1);
    if parts.len() == 2 {
        assert(parts.drop_last() =~= seq![parts[0]]);
        assert(rest =~= seq![parts[1]]);
        assert(join_of(parts.drop_last(), sep) == parts[0]);
        assert(join_of(rest, sep) == parts[1]);
        assert(parts[0] + sep + parts[1] =~= parts[0] + (sep + parts[1]));
    } else {
        let before = parts.drop_last();
        lemma_join_front(before, sep);
        assert(before.skip(1) =~= rest.drop_last());
        assert(rest.last() == parts.last());
        assert(before[0] == parts[0]);
        assert(join_of(parts, sep) == join_of(before, sep) + sep + parts.last());
        assert(join_of(rest, sep) == join_of(rest.drop_last(), sep) + sep + parts.last());
        assert(parts[0] + (sep + join_of(rest.drop_last(), sep)) + sep + parts.last() =~= parts[0]
            + (sep + (join_of(rest.drop_last(), sep) + sep + parts.last())));
    }
}

/// Words that are joined by single spaces are had back by splitting at white
/// space: none is lost, cut or run together with another.
pub proof fn law_joined_words_are_had_back(words: Seq<Seq<char>>)
    requires
        forall|i: int|
            0 <= i < words.len() ==> (#[trigger] words[i]).len() > 0 && none_white(words[i]),
    ensures
        words_of(join_of(words, " "@)) == words,
    decreases words.len(),
{
    reveal_strlit(" ");
    let none = Seq::<char>::empty();
    if words.len() == 0 {
        law_words_stand_between_white_space(none, none, none);
        assert(join_of(words, " "@) =~= none);
        assert(words_of(none) =~= words);
    } else if words.len() == 1 {
        law_words_stand_between_white_space(none, words[0], none);
        assert(none + words[0] + none =~= words[0]);
        assert(words_of(none).len() == 0);
        assert(seq![words[0]] + words_of(none) =~= words);
    } else {
        lemma_join_front(words, " "@);
        let rest = words.skip(1);
        let tail = " "@ + join_of(rest, " "@);
        assert(tail[0] == ' ');
        law_words_stand_between_white_space(none, words[0], tail);
        assert(none + words[0] + tail =~= words[0] + tail);
        assert forall|i: int| 0 <= i < rest.len() implies (#[trigger] rest[i]).len() > 0
            && none_white(rest[i]) by {
            assert(rest[i] == words[i + 1]);
        }
        law_joined_words_are_had_back(rest);
        // The space in front of the rest changes none of its words.
        let inner = join_of(rest, " "@);
        if rest.len() == 1 {
            law_words_stand_between_white_space(" "@, rest[0], none);
            law_words_stand_between_white_space(none, rest[0], none);
            assert(" "@ + rest[0] + none =~= tail);
            assert(none + rest[0] + none =~= inner);
        } else {
            lemma_join_front(rest, " "@);
            let more = " "@ + join_of(rest.skip(1), " "@);
            assert(more[0] == ' ');
            law_words_stand_between_white_space(" "@, rest[0], more);
            law_words_stand_between_white_space(none, rest[0], more);
            assert(" "@ + rest[0] + more =~= tail);
            assert(none + rest[0] + more =~= inner);
        }
        assert(seq![words[0]] + rest =~= words);
    }
}

/// Words that are joined by single spaces have no white space at either end.
pub proof fn lemma_joined_words_are_trim(words: Seq<Seq<char>>)
    requires
        forall|i: int|
            0 <= i < words.len() ==> (#[trigger] words[i]).len() > 0 && none_white(words[i]),
    ensures
        trim_of(join_of(words, " "@)) == join_of(words, " "@),
{
    let none = Seq::<char>::empty();
    let text = join_of(words, " "@);
    if words.len() > 0 {
        let (first, last) = (words[0], words[words.len() - 1]);
        assert(!is_white(first[0]) && !is_white(last[last.len() - 1]));
        if words.len() > 1 {
            lemma_join_front(words, " "@);
            assert(text == join_of(words.drop_last(), " "@) + " "@ + words.last());
        }
        assert(text[0] == first[0]);
        assert(text.last() == last[last.len() - 1]);
    }
    law_trimming_takes_white_space_away(none, text, none);
    assert(none + text + none =~= text);
}

/// Padding keeps a text and adds nothing but spaces, as many as are missing.
pub proof fn law_padding_only_adds_spaces(s: Seq<char>, width: nat)
    ensures
        padded(s, width).len() == (if s.len() > width {
            s.len()
        } else {
            width
        }),
        padded(s, width).take(s.len() as int) == s,
        forall|i: int|
            s.len() <= i < padded(s, width).len() ==> #[trigger] padded(s, width)[i] == ' ',
{
    assert(padded(s, width).take(s.len() as int) =~= s);
}

/// One more digit makes a string of digits ten times the number and that digit
/// more. No digits are zero.
pub proof fn law_digits_count_by_tens(s: Seq<char>, d: nat)
    requires
        d < 10,
    ensures
        digits_value(Seq::<char>::empty()) == 0,
        digits_value(s.push(((48 + d) as u32) as char)) == 10 * digits_value(s) + d,
{
    assert(s.push(((48 + d) as u32) as char).drop_last() =~= s);
}

/// A number in decimal is digits that denote it, with no zero in front unless
/// it is zero.
pub proof fn law_decimal_denotes_the_number(n: nat)
    ensures
        decimal(n).len() > 0,
        forall|i: int| 0 <= i < decimal(n).len() ==> '0' <= #[trigger] decimal(n)[i] <= '9',
        digits_value(decimal(n)) == n,
        n > 0 ==> decimal(n)[0] != '0',
    decreases n,
{
    if n < 10 {
        let s = seq![digit_char(n)];
        assert(s.drop_last() =~= Seq::<char>::empty());
        assert(digits_value(s.drop_last()) == 0);
    } else {
        law_decimal_denotes_the_number(n / 10);
        let head = decimal(n / 10);
        let s = decimal(n);
        assert(s.drop_last() =~= head);
        assert forall|i: int| 0 <= i < s.len() implies '0' <= #[trigger] s[i] <= '9' by {
            if i < head.len() {
                assert(s[i] == head[i]);
            }
        }
        assert(s[0] == head[0]);
    }
}

/// A number in decimal, with or without a plus sign in front, is read as that
/// number.
pub proof fn law_decimal_is_read_back(n: u64)
    ensures
        parsed_u64(decimal(n as nat)) == Some(n),
        parsed_u64(seq!['+'] + decimal(n as nat)) == Some(n),
{
    let d = decimal(n as nat);
    law_decimal_denotes_the_number(n as nat);
    assert(d[0] != '+');
    assert((seq!['+'] + d).skip(1) =~= d);
    assert forall|i: int| 0 <= i < d.len() implies is_digit(#[trigger] d[i]) by {}
}

/// Every string of digits that denotes a number that fits is read as it,
/// zeros in front or not; one that denotes a greater number is not read.
pub proof fn law_digits_are_read(d: Seq<char>)
    requires
        d.len() > 0,
        forall|i: int| 0 <= i < d.len() ==> '0' <= #[trigger] d[i] <= '9',
    ensures
        digits_value(d) <= u64::MAX ==> parsed_u64(d) == Some(digits_value(d) as u64),
        digits_value(d) > u64::MAX ==> parsed_u64(d) is None,
{
    assert(d[0] != '+');
    assert forall|i: int| 0 <= i < d.len() implies is_digit(#[trigger] d[i]) by {}
}

/// Nothing is read as a number but digits `d` behind at most one plus sign that
/// denote it.
pub proof fn law_only_digits_are_numbers(s: Seq<char>, d: Seq<char>)
    requires
        parsed_u64(s) is Some,
        s == d && d.len() > 0 && d[0] != '+' || s == seq!['+'] + d,
    ensures
        d.len() > 0,
        forall|i: int| 0 <= i < d.len() ==> '0' <= #[trigger] d[i] <= '9',
        digits_value(d) == parsed_u64(s).unwrap(),
{
    if s == seq!['+'] + d {
        assert(s.skip(1) =~= d);
    }
    assert(unsigned_part(s) == d);
    assert forall|i: int| 0 <= i < d.len() implies '0' <= #[trigger] d[i] <= '9' by {
        assert(is_digit(d[i]));
    }
}

/// A number of tenths is written as its whole part, a point and one digit, so
/// that the digits without the point denote the number of tenths.
pub proof fn law_tenths_have_one_digit_after_the_point(t: nat)
    ensures
        ({
            let s = tenths_text(t);
            let n = s.len() as int;
            &&& n >= 3
            &&& s[n - 2] == '.'
            &&& digits_value(s.take(n - 2).push(s[n - 1])) == t
        }),
{
    reveal_strlit(".");
    law_decimal_denotes_the_number(t / 10);
    law_decimal_denotes_the_number(t % 10);
    let a = decimal(t / 10);
    let b = decimal(t % 10);
    assert(b =~= seq![digit_char(t % 10)]);
    let s = tenths_text(t);
    assert(s.take(s.len() - 2) =~= a);
    assert(a.push(b[0]).drop_last() =~= a);
}

/// A text begins with a prefix exactly when it is the prefix and something
/// after it.
pub proof fn law_beginning(prefix: Seq<char>, rest: Seq<char>, s: Seq<char>)
    ensures
        begins_with(prefix + rest, prefix),
        begins_with(s, prefix) ==> s == prefix + s.skip(prefix.len() as int),
{
    assert((prefix + rest).take(prefix.len() as int) =~= prefix);
    if begins_with(s, prefix) {
        assert(s =~= prefix + s.skip(prefix.len() as int));
    }
}

/// White space in front of words that are joined by single spaces makes no word
/// more.
pub proof fn law_white_space_in_front_is_no_word(lead: Seq<char>, words: Seq<Seq<char>>)
    requires
        all_white(lead),
        forall|i: int|
            0 <= i < words.len() ==> (#[trigger] words[i]).len() > 0 && none_white(words[i]),
    ensures
        words_of(lead + join_of(words, " "@)) == words,
{
    reveal_strlit(" ");
    law_joined_words_are_had_back(words);
    let none = Seq::<char>::empty();
    let text = join_of(words, " "@);
    if words.len() == 0 {
        law_words_stand_between_white_space(lead, none, none);
        assert(lead + text =~= lead);
        assert(words_of(lead) =~= words);
    } else if words.len() == 1 {
        law_words_stand_between_white_space(lead, words[0], none);
        law_words_stand_between_white_space(none, words[0], none);
        assert(lead + words[0] + none =~= lead + text);
        assert(none + words[0] + none =~= text);
    } else {
        lemma_join_front(words, " "@);
        let more = " "@ + join_of(words.skip(1), " "@);
        assert(more[0] == ' ');
        law_words_stand_between_white_space(lead, words[0], more);
        law_words_stand_between_white_space(none, words[0], more);
        assert(lead + words[0] + more =~= lead + text);
        assert(none + words[0] + more =~= text);
    }
}

/// Every text counts, in order.
pub proof fn law_texts_are_told(v: Seq<String>, i: int)
    requires
        0 <= i < v.len(),
    ensures
        texts(v).len() == v.len(),
        texts(v)[i] == v[i]@,
{
}

} // verus!
