//! Redacting peer passwords in what is logged.

use vstd::prelude::*;
use crate::text::{
    begins_with, cat, chars_of, in_class, join, join_of, law_lines_end_at_line_feeds,
    lemma_join_front, lemma_span_is, lemma_span_props, lemma_texts_push, lines, lines_of, same,
    span, span_from, string_of, texts, Class,
};

verus! {

/// Where `word` ends if it stands at `at`, followed by at least one blank,
/// and the blanks after it end.
pub open spec fn word_then_blanks(line: Seq<char>, at: int, word: Seq<char>) -> Option<int> {
    let end = at + word.len();
    if begins_with(line.skip(at), word) && span(line.skip(end), Class::Blank) > 0 {
        Some(end + span(line.skip(end), Class::Blank))
    } else {
        None
    }
}

/// Where a run of characters other than blanks ends that starts at `at`,
/// followed by at least one blank, and the blanks after it end.
pub open spec fn field_then_blanks(line: Seq<char>, at: int) -> Option<int> {
    let n = span(line.skip(at), Class::NotBlank);
    let end = at + n;
    if n > 0 && span(line.skip(end), Class::Blank) > 0 {
        Some(end + span(line.skip(end), Class::Blank))
    } else {
        None
    }
}

/// Where the secret starts in a line of the shape
/// `neighbor <peer> password <secret>`, blanks being spaces and tabs in any
/// number, and allowed in front.
pub open spec fn secret_start(line: Seq<char>) -> Option<int> {
    match word_then_blanks(line, span(line, Class::Blank) as int, "neighbor"@) {
        None => None,
        Some(peer) => match field_then_blanks(line, peer) {
            None => None,
            Some(word) => word_then_blanks(line, word, "password"@),
        },
    }
}

/// A line with the secret in it, and everything after it, replaced.
pub open spec fn redacted_line(line: Seq<char>) -> Seq<char> {
    match secret_start(line) {
        Some(n) => line.take(n) + "<REDACTED>"@,
        None => line,
    }
}

/// Lines with their secrets replaced.
pub open spec fn redacted_lines(lines: Seq<Seq<char>>) -> Seq<Seq<char>> {
    Seq::new(lines.len(), |i: int| redacted_line(lines[i]))
}

/// A text with the secret of each of its lines replaced, the lines joined by
/// line feeds.
pub open spec fn redacted(text: Seq<char>) -> Seq<char> {
    join_of(redacted_lines(lines_of(text)), "\n"@)
}

/// How many blanks stand at `at`.
fn skip_ws(line: &Vec<char>, at: usize) -> (r: usize)
    requires
        at <= line.len(),
    ensures
        r == span(line@.skip(at as int), Class::Blank),
        at + r <= line.len(),
{
    span_from(line, at, Class::Blank)
}

/// How many blanks stand at `at`, if there is one at all.
fn require_ws(line: &Vec<char>, at: usize) -> (r: Option<usize>)
    requires
        at <= line.len(),
    ensures
        span(line@.skip(at as int), Class::Blank) == 0 <==> r is None,
        r matches Some(n) ==> n == span(line@.skip(at as int), Class::Blank) && at + n
            <= line.len(),
{
    let n = skip_ws(line, at);
    if n > 0 {
        Some(n)
    } else {
        None
    }
}

/// How many characters other than blanks stand at `at`.
fn skip_non_ws(line: &Vec<char>, at: usize) -> (r: usize)
    requires
        at <= line.len(),
    ensures
        r == span(line@.skip(at as int), Class::NotBlank),
        at + r <= line.len(),
{
    span_from(line, at, Class::NotBlank)
}

/// The length of `word` if it stands at `at`.
fn expect_word(line: &Vec<char>, at: usize, word: &str) -> (r: Option<usize>)
    requires
        at <= line.len(),
    ensures
        begins_with(line@.skip(at as int), word@) <==> r is Some,
        r matches Some(n) ==> n == word@.len() && at + n <= line.len(),
{
    let n = word.unicode_len();
    if n > line.len() - at {
        return None;
    }
    let head = string_of(line, at, at + n);
    proof {
        assert(head@ =~= line@.skip(at as int).take(n as int));
    }
    if same(head.as_str(), word) {
        Some(n)
    } else {
        None
    }
}

/// The number of characters before the secret, if `line` has the shape
/// `neighbor <peer> password <secret>`.
fn redact_prefix_end(line: &Vec<char>) -> (r: Option<usize>)
    ensures
        r matches Some(n) ==> secret_start(line@) == Some(n as int) && n <= line.len(),
        r is None ==> secret_start(line@) is None,
{
    proof {
        assert(line@.skip(0) =~= line@);
    }
    let mut at = skip_ws(line, 0);
    match expect_word(line, at, "neighbor") {
        Some(n) => at += n,
        None => return None,
    }
    match require_ws(line, at) {
        Some(n) => at += n,
        None => return None,
    }
    let peer_len = skip_non_ws(line, at);
    if peer_len == 0 {
        return None;
    }
    at += peer_len;
    match require_ws(line, at) {
        Some(n) => at += n,
        None => return None,
    }
    match expect_word(line, at, "password") {
        Some(n) => at += n,
        None => return None,
    }
    match require_ws(line, at) {
        Some(n) => at += n,
        None => return None,
    }
    Some(at)
}

/// One line with its secret replaced.
fn redact_line(line: &str) -> (r: String)
    ensures
        r@ == redacted_line(line@),
{
    let chars = chars_of(line);
    match redact_prefix_end(&chars) {
        Some(end) => {
            let kept = string_of(&chars, 0, end);
            proof {
                assert(kept@ =~= line@.take(end as int));
            }
            cat(kept.as_str(), "<REDACTED>")
        },
        None => line.to_owned(),
    }
}

/// Replaces the secret of every `neighbor <peer> password <secret>` line of
/// a text (BGP MD5 authentication) and everything after it on that line.
/// Validation output and reload output can echo configuration lines back, a
/// peer's password among them, so both go through this before they are
/// logged.
pub fn redact_passwords(text: &str) -> (r: String)
    ensures
        r@ == redacted(text@),
{
    let all = lines(text);
    let mut out: Vec<String> = Vec::new();
    let mut i: usize = 0;
    while i < all.len()
        invariant
            i <= all.len(),
            texts(all@) == lines_of(text@),
            texts(out@) == redacted_lines(texts(all@).take(i as int)),
        decreases all.len() - i,
    {
        let line = redact_line(all[i].as_str());
        proof {
            lemma_texts_push(out@, line);
            assert(redacted_lines(texts(all@).take(i + 1)) =~= redacted_lines(
                texts(all@).take(i as int),
            ).push(line@));
        }
        out.push(line);
        i += 1;
    }
    proof {
        assert(texts(all@).take(i as int) =~= texts(all@));
    }
    join(&out, "\n")
}

// ---------------------------------------------------------------------------
// Laws
// ---------------------------------------------------------------------------

/// A run of blanks.
pub open spec fn blanks(s: Seq<char>) -> bool {
    forall|i: int| 0 <= i < s.len() ==> in_class(Class::Blank, #[trigger] s[i])
}

/// A run of characters none of which is a blank.
pub open spec fn no_blanks(s: Seq<char>) -> bool {
    forall|i: int| 0 <= i < s.len() ==> in_class(Class::NotBlank, #[trigger] s[i])
}

/// A line that carries a secret, in its parts.
pub struct SecretLine {
    pub lead: Seq<char>,
    pub gap1: Seq<char>,
    pub peer: Seq<char>,
    pub gap2: Seq<char>,
    pub gap3: Seq<char>,
    pub secret: Seq<char>,
}

impl SecretLine {
    /// The parts are what they are called: gaps of at least one blank, a
    /// peer without blanks, a secret that does not start with one.
    pub open spec fn wf(self) -> bool {
        &&& blanks(self.lead)
        &&& blanks(self.gap1) && self.gap1.len() > 0
        &&& no_blanks(self.peer) && self.peer.len() > 0
        &&& blanks(self.gap2) && self.gap2.len() > 0
        &&& blanks(self.gap3) && self.gap3.len() > 0
        &&& self.secret.len() > 0 ==> in_class(Class::NotBlank, self.secret[0])
    }

    /// Everything in front of the secret.
    pub open spec fn prefix(self) -> Seq<char> {
        self.lead + "neighbor"@ + self.gap1 + self.peer + self.gap2 + "password"@ + self.gap3
    }

    /// The line.
    pub open spec fn line(self) -> Seq<char> {
        self.prefix() + self.secret
    }
}

/// The span of a run of class members followed by something outside.
proof fn lemma_span_run(line: Seq<char>, at: int, run: Seq<char>, k: Class)
    requires
        0 <= at,
        at + run.len() <= line.len(),
        line.subrange(at, at + run.len()) == run,
        forall|i: int| 0 <= i < run.len() ==> in_class(k, #[trigger] run[i]),
        at + run.len() == line.len() || !in_class(k, line[at + run.len()]),
    ensures
        span(line.skip(at), k) == run.len(),
{
    let s = line.skip(at);
    assert forall|i: int| 0 <= i < run.len() implies in_class(k, #[trigger] s[i]) by {
        assert(s[i] == line[at + i]);
        assert(run[i] == line.subrange(at, at + run.len())[i]);
    }
    if at + run.len() < line.len() {
        assert(s[run.len() as int] == line[at + run.len()]);
    }
    lemma_span_is(s, k, run.len());
}

/// The secret of a line that carries one starts right after its prefix.
pub proof fn law_secret_is_found(l: SecretLine)
    requires
        l.wf(),
    ensures
        secret_start(l.line()) == Some(l.prefix().len() as int),
        redacted_line(l.line()) == l.prefix() + "<REDACTED>"@,
{
    reveal_strlit("neighbor");
    reveal_strlit("password");
    let s = l.line();
    let a = l.lead.len() as int;
    let b = a + 8;
    let c = b + l.gap1.len();
    let d = c + l.peer.len();
    let e = d + l.gap2.len();
    let f = e + 8;
    let g = f + l.gap3.len();
    assert(s.subrange(0, a) =~= l.lead);
    assert(s[a] == 'n');
    lemma_span_run(s, 0, l.lead, Class::Blank);
    assert(s.skip(0) =~= s);
    assert(s.skip(a).take(8) =~= "neighbor"@);
    assert(s.subrange(b, c) =~= l.gap1);
    assert(s[c] == l.peer[0]);
    assert(in_class(Class::NotBlank, l.peer[0]));
    lemma_span_run(s, b, l.gap1, Class::Blank);
    assert(s.subrange(c, d) =~= l.peer);
    assert(s[d] == l.gap2[0]);
    assert(in_class(Class::Blank, l.gap2[0]));
    lemma_span_run(s, c, l.peer, Class::NotBlank);
    assert(s.subrange(d, e) =~= l.gap2);
    assert(s[e] == 'p');
    lemma_span_run(s, d, l.gap2, Class::Blank);
    assert(s.skip(e).take(8) =~= "password"@);
    assert(s.subrange(f, g) =~= l.gap3);
    if l.secret.len() > 0 {
        assert(s[g] == l.secret[0]);
    }
    lemma_span_run(s, f, l.gap3, Class::Blank);
    assert(s.take(g) =~= l.prefix());
}

/// What is left of a line does not depend on the secret: two lines that
/// differ only in it come out the same.
pub proof fn law_secret_does_not_show(l: SecretLine, other: Seq<char>)
    requires
        l.wf(),
        other.len() > 0 ==> in_class(Class::NotBlank, other[0]),
    ensures
        redacted_line(l.line()) == redacted_line((SecretLine { secret: other, ..l }).line()),
{
    let m = SecretLine { secret: other, ..l };
    law_secret_is_found(l);
    law_secret_is_found(m);
    assert(m.prefix() == l.prefix());
}

/// A line that is changed at all has the shape that carries a secret; every
/// other line comes out as it went in.
#[verifier::rlimit(60)]
pub proof fn law_only_secret_lines_change(line: Seq<char>)
    ensures
        secret_start(line) is Some ==> exists|l: SecretLine| #[trigger] l.wf() && l.line() == line,
        secret_start(line) is None ==> redacted_line(line) == line,
{
    if let Some(g) = secret_start(line) {
        reveal_strlit("neighbor");
        reveal_strlit("password");
        let a = span(line, Class::Blank) as int;
        lemma_span_props(line, Class::Blank);
        assert(line.skip(0) =~= line);
        let b = a + 8;
        lemma_span_props(line.skip(b), Class::Blank);
        let c = b + span(line.skip(b), Class::Blank);
        lemma_span_props(line.skip(c), Class::NotBlank);
        let d = c + span(line.skip(c), Class::NotBlank);
        lemma_span_props(line.skip(d), Class::Blank);
        let e = d + span(line.skip(d), Class::Blank);
        let f = e + 8;
        lemma_span_props(line.skip(f), Class::Blank);
        assert(line.skip(a).take(8) =~= line.subrange(a, b));
        assert(line.skip(e).take(8) =~= line.subrange(e, f));
        let l = SecretLine {
            lead: line.take(a),
            gap1: line.subrange(b, c),
            peer: line.subrange(c, d),
            gap2: line.subrange(d, e),
            gap3: line.subrange(f, g),
            secret: line.skip(g),
        };
        assert forall|i: int| 0 <= i < l.gap1.len() implies in_class(
            Class::Blank,
            #[trigger] l.gap1[i],
        ) by {
            assert(l.gap1[i] == line.skip(b)[i]);
        }
        assert forall|i: int| 0 <= i < l.peer.len() implies in_class(
            Class::NotBlank,
            #[trigger] l.peer[i],
        ) by {
            assert(l.peer[i] == line.skip(c)[i]);
        }
        assert forall|i: int| 0 <= i < l.gap2.len() implies in_class(
            Class::Blank,
            #[trigger] l.gap2[i],
        ) by {
            assert(l.gap2[i] == line.skip(d)[i]);
        }
        assert forall|i: int| 0 <= i < l.gap3.len() implies in_class(
            Class::Blank,
            #[trigger] l.gap3[i],
        ) by {
            assert(l.gap3[i] == line.skip(f)[i]);
        }
        if l.secret.len() > 0 {
            assert(l.secret[0] == line.skip(f)[g - f]);
        }
        assert(l.wf());
        assert(l.line() =~= line);
    }
}

/// Redacting a line twice is the same as redacting it once.
pub proof fn law_redacting_a_line_is_idempotent(line: Seq<char>)
    ensures
        redacted_line(redacted_line(line)) == redacted_line(line),
{
    law_only_secret_lines_change(line);
    if secret_start(line) is Some {
        let l = choose|l: SecretLine| #[trigger] l.wf() && l.line() == line;
        law_secret_is_found(l);
        reveal_strlit("<REDACTED>");
        let m = SecretLine { secret: "<REDACTED>"@, ..l };
        law_secret_is_found(m);
        assert(m.prefix() == l.prefix());
    }
}

/// Whether two lines are the same, or carry secrets and differ in nothing
/// else.
pub open spec fn same_but_secret(a: Seq<char>, b: Seq<char>) -> bool {
    a == b || exists|l: SecretLine, m: SecretLine|
        {
            &&& #[trigger] l.wf() && #[trigger] m.wf()
            &&& l.prefix() == m.prefix()
            &&& a == l.line()
            &&& b == m.line()
        }
}

/// No secret shows in a redacted text: two texts whose lines differ in nothing
/// but secrets come out the same.
pub proof fn law_no_secret_shows(a: Seq<char>, b: Seq<char>)
    requires
        lines_of(a).len() == lines_of(b).len(),
        forall|i: int|
            0 <= i < lines_of(a).len() ==> same_but_secret(
                #[trigger] lines_of(a)[i],
                lines_of(b)[i],
            ),
    ensures
        redacted(a) == redacted(b),
{
    assert forall|i: int| 0 <= i < lines_of(a).len() implies redacted_lines(
        lines_of(a),
    )[i] == #[trigger] redacted_lines(lines_of(b))[i] by {
        let (x, y) = (lines_of(a)[i], lines_of(b)[i]);
        if x != y {
            let (l, m) = choose|l: SecretLine, m: SecretLine|
                {
                    &&& #[trigger] l.wf() && #[trigger] m.wf()
                    &&& l.prefix() == m.prefix()
                    &&& x == l.line()
                    &&& y == m.line()
                };
            law_secret_is_found(l);
            law_secret_is_found(m);
        }
    }
    assert(redacted_lines(lines_of(a)) =~= redacted_lines(lines_of(b)));
}

/// A text is redacted line by line: what comes of its first line depends on
/// that line alone, and what comes of the rest on the rest alone.
pub proof fn law_lines_are_redacted_apart(line: Seq<char>, rest: Seq<char>)
    requires
        !line.contains('\n'),
        line.len() == 0 || line.last() != '\r',
    ensures
        lines_of(rest).len() == 0 ==> redacted(line.push('\n') + rest) == redacted_line(line),
        lines_of(rest).len() > 0 ==> redacted(line.push('\n') + rest) == redacted_line(line).push(
            '\n',
        ) + redacted(rest),
{
    reveal_strlit("\n");
    law_lines_end_at_line_feeds(line, rest);
    let all = redacted_lines(lines_of(line.push('\n') + rest));
    let others = redacted_lines(lines_of(rest));
    assert(all =~= seq![redacted_line(line)] + others);
    if others.len() == 0 {
        assert(all =~= seq![redacted_line(line)]);
    } else {
        lemma_join_front(all, "\n"@);
        assert(all.skip(1) =~= others);
        assert(redacted_line(line) + ("\n"@ + redacted(rest)) =~= redacted_line(line).push('\n')
            + redacted(rest));
    }
}

/// A line that sets a peer's password keeps everything up to the password and
/// shows none of it, wherever in a text it stands.
pub proof fn law_password_is_replaced(l: SecretLine, rest: Seq<char>)
    requires
        l.wf(),
        !l.line().contains('\n'),
        l.line().last() != '\r',
        lines_of(rest).len() > 0,
    ensures
        redacted(l.line().push('\n') + rest) == (l.lead + "neighbor"@ + l.gap1 + l.peer + l.gap2
            + "password"@ + l.gap3 + "<REDACTED>"@).push('\n') + redacted(rest),
{
    law_secret_is_found(l);
    law_lines_are_redacted_apart(l.line(), rest);
}

/// What counts as a blank between the words of such a line: spaces and tabs.
pub proof fn law_blanks_are_spaces_and_tabs(s: Seq<char>, i: int)
    requires
        0 <= i < s.len(),
    ensures
        blanks(s) ==> s[i] == ' ' || s[i] == '\t',
        no_blanks(s) ==> s[i] != ' ' && s[i] != '\t',
        blanks(seq![' ', '\t']),
{
    if blanks(s) {
        assert(in_class(Class::Blank, s[i]));
    }
    if no_blanks(s) {
        assert(in_class(Class::NotBlank, s[i]));
    }
}

} // verus!
