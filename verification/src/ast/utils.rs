use vstd::prelude::*;
use vstd::string::StrSliceExecFns;

use crate::ast::tokens::Token;
use crate::errors::CompilerError;

verus! {

/// Tells whether a text span spells exactly the given string.
pub fn text_eq_str(value: &Vec<char>, s: &str) -> (r: bool)
    ensures
        r == (value@ == s@),
{
    let n = s.unicode_len();
    if value.len() != n {
        return false;
    }
    let mut i: usize = 0;
    while i < n
        invariant
            0 <= i <= n,
            n == s@.len(),
            value@.len() == n,
            forall|j: int| 0 <= j < i ==> value@[j] == s@[j],
        decreases n - i,
    {
        if value[i] != s.get_char(i) {
            return false;
        }
        i += 1;
    }
    proof {
        assert(value@ =~= s@);
    }
    true
}

/// Yields the first child of a token, or `MissingNode` for a leaf.
pub fn first_inner<'a>(pair: &'a Token) -> (r: Result<&'a Token, CompilerError>)
    ensures
        match r {
            Result::Ok(c) => pair.children@.len() > 0 && *c == pair.children@[0],
            Result::Err(e) => pair.children@.len() == 0 && e == CompilerError::MissingNode,
        },
{
    if pair.children.len() > 0 {
        Ok(&pair.children[0])
    } else {
        Err(CompilerError::MissingNode)
    }
}

/// Yields the last child of a token, or `MissingNode` for a leaf.
pub fn last_inner<'a>(pair: &'a Token) -> (r: Result<&'a Token, CompilerError>)
    ensures
        match r {
            Result::Ok(c) => pair.children@.len() > 0 && *c == pair.children@.last(),
            Result::Err(e) => pair.children@.len() == 0 && e == CompilerError::MissingNode,
        },
{
    if pair.children.len() > 0 {
        Ok(&pair.children[pair.children.len() - 1])
    } else {
        Err(CompilerError::MissingNode)
    }
}

/// Yields the text spans of the first and the last child (the same child,
/// for a token with a single one), or `MissingNode` for a leaf.
pub fn first_last_inner_str<'a>(pair: &'a Token) -> (r: Result<
    (&'a Vec<char>, &'a Vec<char>),
    CompilerError,
>)
    ensures
        match r {
            Result::Ok(p) => pair.children@.len() > 0 && p.0@ == pair.children@[0].text@
                && p.1@ == pair.children@.last().text@,
            Result::Err(e) => pair.children@.len() == 0 && e == CompilerError::MissingNode,
        },
{
    if pair.children.len() > 0 {
        Ok((&pair.children[0].text, &pair.children[pair.children.len() - 1].text))
    } else {
        Err(CompilerError::MissingNode)
    }
}

/// Yields the `n`-th child of a token, if it has one.
pub fn nth_inner<'a>(pair: &'a Token, n: usize) -> (r: Option<&'a Token>)
    ensures
        match r {
            Option::Some(c) => n < pair.children@.len() && *c == pair.children@[n as int],
            Option::None => n >= pair.children@.len(),
        },
{
    if n < pair.children.len() {
        Some(&pair.children[n])
    } else {
        None
    }
}

/// Yields the first character of a text span, or `MissingNode` for an empty
/// one.
pub fn to_char(value: &Vec<char>) -> (r: Result<char, CompilerError>)
    ensures
        match r {
            Result::Ok(c) => value@.len() > 0 && c == value@[0],
            Result::Err(e) => value@.len() == 0 && e == CompilerError::MissingNode,
        },
{
    if value.len() > 0 {
        Ok(value[0])
    } else {
        Err(CompilerError::MissingNode)
    }
}

// ========================
// ==== TEXT UNESCAPER ====
// ========================

/// The characters with special meaning downstream, escaped when a quoted
/// literal is emitted.
pub open spec fn is_reserved_char(c: char) -> bool {
    ||| c == '['
    ||| c == ']'
    ||| c == '('
    ||| c == ')'
    ||| c == '{'
    ||| c == '}'
    ||| c == '*'
    ||| c == '+'
    ||| c == '?'
    ||| c == '|'
    ||| c == '^'
    ||| c == '$'
    ||| c == '.'
    ||| c == '-'
    ||| c == '\\'
}

/// The text with every reserved character prefixed by a backslash.
pub open spec fn spec_escape_chars(s: Seq<char>) -> Seq<char>
    decreases s.len(),
{
    if s.len() == 0 {
        Seq::<char>::empty()
    } else {
        (if is_reserved_char(s[0]) {
            seq!['\\', s[0]]
        } else {
            seq![s[0]]
        }) + spec_escape_chars(s.drop_first())
    }
}

/// The text with every occurrence of `pat` replaced by `rep`, scanning left
/// to right without overlap, as `str::replace` does for a non-empty pattern.
pub open spec fn spec_replace(s: Seq<char>, pat: Seq<char>, rep: Seq<char>) -> Seq<char>
    decreases s.len(),
{
    if pat.len() == 0 || s.len() < pat.len() {
        s
    } else if s.take(pat.len() as int) == pat {
        rep + spec_replace(s.skip(pat.len() as int), pat, rep)
    } else {
        seq![s[0]] + spec_replace(s.drop_first(), pat, rep)
    }
}

/// The inner span of a delimited text token: everything but the first and
/// last character.
pub open spec fn spec_inner(text: Seq<char>) -> Seq<char> {
    text.subrange(1, text.len() - 1)
}

/// What raw-mode unescaping yields: the backticks stripped, every escaped
/// backtick turned into a literal backtick, all else verbatim.
pub open spec fn spec_unquote_escape_raw(text: Seq<char>) -> Seq<char> {
    spec_replace(spec_inner(text), seq!['\\', '`'], seq!['`'])
}

/// What quoted-mode unescaping yields: the whole span (delimiters included)
/// gets reserved characters escaped, the first and last character of the
/// escaped result are stripped, and only the escaped opening-quote sequence
/// is restored to a bare quote.
pub open spec fn spec_unquote_escape_literal(text: Seq<char>) -> Seq<char> {
    let stripped = spec_inner(spec_escape_chars(text));
    if text[0] == '\'' {
        spec_replace(stripped, seq!['\\', '\\', '\''], seq!['\''])
    } else {
        spec_replace(stripped, seq!['\\', '\\', '"'], seq!['"'])
    }
}

/// Escaping one more character appends its escaped form.
proof fn lemma_escape_chars_push(s: Seq<char>, c: char)
    ensures
        spec_escape_chars(s.push(c)) == spec_escape_chars(s) + (if is_reserved_char(c) {
            seq!['\\', c]
        } else {
            seq![c]
        }),
    decreases s.len(),
{
    if s.len() == 0 {
        assert(s.push(c)[0] == c);
        assert(s.push(c).drop_first() =~= Seq::<char>::empty());
        assert(spec_escape_chars(s) =~= Seq::<char>::empty());
        assert(spec_escape_chars(s.push(c)) =~= (if is_reserved_char(c) {
            seq!['\\', c]
        } else {
            seq![c]
        }) + spec_escape_chars(s.push(c).drop_first()));
        assert(spec_escape_chars(s.push(c)) =~= (if is_reserved_char(c) {
            seq!['\\', c]
        } else {
            seq![c]
        }));
    } else {
        assert(s.push(c)[0] == s[0]);
        assert(s.push(c).drop_first() =~= s.drop_first().push(c));
        lemma_escape_chars_push(s.drop_first(), c);
        assert(spec_escape_chars(s.push(c)) =~= spec_escape_chars(s) + (if is_reserved_char(c) {
            seq!['\\', c]
        } else {
            seq![c]
        }));
    }
}

/// Escaping never shortens the text.
proof fn lemma_escape_chars_len(s: Seq<char>)
    ensures
        spec_escape_chars(s).len() >= s.len(),
    decreases s.len(),
{
    if s.len() > 0 {
        lemma_escape_chars_len(s.drop_first());
    }
}

/// Prefixes every reserved character of the text with a backslash.
pub fn escape_chars(source: &Vec<char>) -> (r: Vec<char>)
    ensures
        r@ == spec_escape_chars(source@),
{
    let mut escaped_source: Vec<char> = Vec::new();
    let mut i: usize = 0;
    while i < source.len()
        invariant
            0 <= i <= source@.len(),
            escaped_source@ == spec_escape_chars(source@.take(i as int)),
        decreases source@.len() - i,
    {
        let c = source[i];
        let reserved = c == '[' || c == ']' || c == '(' || c == ')' || c == '{' || c == '}'
            || c == '*' || c == '+' || c == '?' || c == '|' || c == '^' || c == '$' || c == '.'
            || c == '-' || c == '\\';
        if reserved {
            escaped_source.push('\\');
            escaped_source.push(c);
        } else {
            escaped_source.push(c);
        }
        proof {
            lemma_escape_chars_push(source@.take(i as int), c);
            assert(source@.take(i + 1) =~= source@.take(i as int).push(source@[i as int]));
            assert(escaped_source@ =~= spec_escape_chars(source@.take(i + 1)));
        }
        i += 1;
    }
    proof {
        assert(source@.take(source@.len() as int) =~= source@);
    }
    escaped_source
}

/// Tells whether `pat` occurs in `s` at position `i`.
fn matches_at(s: &Vec<char>, i: usize, pat: &Vec<char>) -> (r: bool)
    requires
        i + pat@.len() <= s@.len(),
    ensures
        r == (s@.subrange(i as int, i as int + pat@.len() as int) == pat@),
{
    let mut j: usize = 0;
    let slen = s.len();
    while j < pat.len()
        invariant
            0 <= j <= pat@.len(),
            i + pat@.len() <= s@.len(),
            slen == s@.len(),
            forall|k: int| 0 <= k < j ==> s@[i + k] == pat@[k],
        decreases pat@.len() - j,
    {
        proof {
            assert(i + j < s@.len());
        }
        if s[i + j] != pat[j] {
            proof {
                assert(s@.subrange(i as int, i as int + pat@.len() as int)[j as int] != pat@[
                    j as int
                ]);
            }
            return false;
        }
        j += 1;
    }
    proof {
        assert(s@.subrange(i as int, i as int + pat@.len() as int) =~= pat@);
    }
    true
}

/// Replaces every occurrence of `pat` by `rep`, scanning left to right
/// without overlap.
fn replace_seq(s: &Vec<char>, pat: &Vec<char>, rep: &Vec<char>) -> (r: Vec<char>)
    requires
        pat@.len() > 0,
    ensures
        r@ == spec_replace(s@, pat@, rep@),
{
    let mut out: Vec<char> = Vec::new();
    let mut i: usize = 0;
    proof {
        assert(s@.skip(0) =~= s@);
        assert(out@ + spec_replace(s@, pat@, rep@) =~= spec_replace(s@, pat@, rep@));
    }
    while i < s.len()
        invariant
            0 <= i <= s@.len(),
            pat@.len() > 0,
            spec_replace(s@, pat@, rep@) == out@ + spec_replace(s@.skip(i as int), pat@, rep@),
        decreases s@.len() - i,
    {
        let ghost rest = s@.skip(i as int);
        if pat.len() <= s.len() - i && matches_at(s, i, pat) {
            let ghost out_before = out@;
            let mut k: usize = 0;
            while k < rep.len()
                invariant
                    0 <= k <= rep@.len(),
                    out@ == out_before + rep@.take(k as int),
                decreases rep@.len() - k,
            {
                out.push(rep[k]);
                proof {
                    assert(rep@.take(k + 1) =~= rep@.take(k as int).push(rep@[k as int]));
                    assert(out@ =~= out_before + rep@.take(k + 1));
                }
                k += 1;
            }
            proof {
                assert(rep@.take(rep@.len() as int) =~= rep@);
                assert(out@ =~= out_before + rep@);
                assert(rest.take(pat@.len() as int) =~= s@.subrange(
                    i as int,
                    i as int + pat@.len() as int,
                ));
                assert(rest.skip(pat@.len() as int) =~= s@.skip(i as int + pat@.len() as int));
                assert(spec_replace(rest, pat@, rep@) == rep@ + spec_replace(
                    s@.skip(i as int + pat@.len() as int),
                    pat@,
                    rep@,
                ));
                assert(out_before + (rep@ + spec_replace(
                    s@.skip(i as int + pat@.len() as int),
                    pat@,
                    rep@,
                )) =~= out@ + spec_replace(s@.skip(i as int + pat@.len() as int), pat@, rep@));
            }
            i += pat.len();
        } else {
            let ghost out_before = out@;
            out.push(s[i]);
            proof {
                assert(out@ =~= out_before + seq![s@[i as int]]);
                assert(rest[0] == s@[i as int]);
                if rest.len() >= pat@.len() {
                    assert(rest.take(pat@.len() as int) =~= s@.subrange(
                        i as int,
                        i as int + pat@.len() as int,
                    ));
                    assert(rest.drop_first() =~= s@.skip(i as int + 1));
                    assert(spec_replace(rest, pat@, rep@) == seq![s@[i as int]] + spec_replace(
                        s@.skip(i as int + 1),
                        pat@,
                        rep@,
                    ));
                } else {
                    assert(rest =~= seq![s@[i as int]] + s@.skip(i as int + 1));
                    assert(spec_replace(rest, pat@, rep@) == rest);
                    assert(s@.skip(i as int + 1).len() < pat@.len());
                    assert(spec_replace(s@.skip(i as int + 1), pat@, rep@) == s@.skip(
                        i as int + 1,
                    ));
                }
                assert(out_before + (seq![s@[i as int]] + spec_replace(
                    s@.skip(i as int + 1),
                    pat@,
                    rep@,
                )) =~= out@ + spec_replace(s@.skip(i as int + 1), pat@, rep@));
            }
            i += 1;
        }
    }
    proof {
        assert(s@.skip(s@.len() as int) =~= Seq::<char>::empty());
        assert(out@ =~= out@ + spec_replace(Seq::<char>::empty(), pat@, rep@));
    }
    out
}

/// Copies the inner span of a delimited text token: everything but the
/// first and last character.
fn strip_delimiters(text: &Vec<char>) -> (r: Vec<char>)
    requires
        text@.len() >= 2,
    ensures
        r@ == spec_inner(text@),
{
    let mut inner: Vec<char> = Vec::new();
    let mut i: usize = 1;
    proof {
        assert(inner@ =~= text@.subrange(1, 1));
    }
    while i < text.len() - 1
        invariant
            text@.len() >= 2,
            1 <= i <= text@.len() - 1,
            inner@ == text@.subrange(1, i as int),
        decreases text@.len() - 1 - i,
    {
        inner.push(text[i]);
        proof {
            assert(text@.subrange(1, i + 1) =~= text@.subrange(1, i as int).push(
                text@[i as int],
            ));
        }
        i += 1;
    }
    inner
}

/// Strips a raw token's backtick delimiters and turns every escaped
/// backtick into a literal backtick; all other characters pass through
/// verbatim.
pub fn unquote_escape_raw(pair: &Token) -> (r: Vec<char>)
    requires
        pair.text@.len() >= 2,
    ensures
        r@ == spec_unquote_escape_raw(pair.text@),
{
    let inner = strip_delimiters(&pair.text);
    let mut pat: Vec<char> = Vec::new();
    pat.push('\\');
    pat.push('`');
    let mut rep: Vec<char> = Vec::new();
    rep.push('`');
    proof {
        assert(pat@ =~= seq!['\\', '`']);
        assert(rep@ =~= seq!['`']);
    }
    replace_seq(&inner, &pat, &rep)
}

/// Unescapes a quoted literal token: escapes every reserved character over
/// the whole span (delimiters included), strips the first and last
/// character of the escaped result, then restores only the escaped
/// opening-quote sequence to a bare quote.  The emitted atom text is thus
/// pre-escaped for safe splicing into a pattern.
pub fn unquote_escape_literal(pair: &Token) -> (r: Vec<char>)
    requires
        pair.text@.len() >= 2,
        pair.text@[0] == '"' || pair.text@[0] == '\'',
    ensures
        r@ == spec_unquote_escape_literal(pair.text@),
{
    let quote_type = pair.text[0];
    let pair_str = escape_chars(&pair.text);
    proof {
        lemma_escape_chars_len(pair.text@);
    }
    let literal = strip_delimiters(&pair_str);

    let mut pat: Vec<char> = Vec::new();
    pat.push('\\');
    pat.push('\\');
    let mut rep: Vec<char> = Vec::new();
    if quote_type == '"' {
        pat.push('"');
        rep.push('"');
        proof {
            assert(pat@ =~= seq!['\\', '\\', '"']);
            assert(rep@ =~= seq!['"']);
        }
    } else {
        pat.push('\'');
        rep.push('\'');
        proof {
            assert(pat@ =~= seq!['\\', '\\', '\'']);
            assert(rep@ =~= seq!['\'']);
        }
    }
    replace_seq(&literal, &pat, &rep)
}

// ========================
// ==== NUMERAL PARSING ===
// ========================

/// A decimal digit.
pub open spec fn is_digit_char(c: char) -> bool {
    '0' <= c && c <= '9'
}

/// The value of a decimal digit.
pub open spec fn digit_val(c: char) -> int {
    c as int - '0' as int
}

/// A non-empty text of decimal digits.
pub open spec fn is_numeral(s: Seq<char>) -> bool {
    s.len() > 0 && forall|i: int| 0 <= i < s.len() ==> is_digit_char(#[trigger] s[i])
}

/// The value a decimal numeral denotes.
pub open spec fn numeral_val(s: Seq<char>) -> int
    decreases s.len(),
{
    if s.len() == 0 {
        0
    } else {
        numeral_val(s.drop_last()) * 10 + digit_val(s.last())
    }
}

/// A digit string denotes a value no smaller than any of its prefixes.
proof fn lemma_numeral_prefix_le(s: Seq<char>, k: int)
    requires
        0 <= k <= s.len(),
        forall|i: int| 0 <= i < s.len() ==> is_digit_char(#[trigger] s[i]),
    ensures
        0 <= numeral_val(s.take(k)) <= numeral_val(s),
    decreases s.len(),
{
    if s.len() == 0 {
        assert(s.take(k) =~= s);
    } else if k == s.len() {
        assert(s.take(k) =~= s);
        lemma_numeral_prefix_le(s.drop_last(), s.len() - 1);
    } else {
        assert(s.drop_last().take(k) =~= s.take(k));
        lemma_numeral_prefix_le(s.drop_last(), k);
    }
}

/// What parsing a decimal numeral yields: its value, when the text is a
/// non-empty run of digits whose value fits a `u32`; nothing otherwise.
pub open spec fn spec_parse_u32(s: Seq<char>) -> Option<u32> {
    if is_numeral(s) && numeral_val(s) <= u32::MAX {
        Option::Some(numeral_val(s) as u32)
    } else {
        Option::None
    }
}

/// Parses a decimal numeral into a `u32`.
pub fn parse_u32(text: &Vec<char>) -> (r: Option<u32>)
    ensures
        r == spec_parse_u32(text@),
{
    if text.len() == 0 {
        return None;
    }
    let mut val: u32 = 0;
    let mut i: usize = 0;
    proof {
        assert(text@.take(0) =~= Seq::<char>::empty());
    }
    while i < text.len()
        invariant
            0 <= i <= text@.len(),
            forall|j: int| 0 <= j < i ==> is_digit_char(#[trigger] text@[j]),
            val == numeral_val(text@.take(i as int)),
        decreases text@.len() - i,
    {
        let c = text[i];
        if !(c >= '0' && c <= '9') {
            return None;
        }
        let d: u32 = (c as u32) - ('0' as u32);
        proof {
            assert(text@.take(i + 1).drop_last() =~= text@.take(i as int));
            assert(text@.take(i + 1).last() == text@[i as int]);
        }
        let next = match val.checked_mul(10) {
            Some(v) => v.checked_add(d),
            None => None,
        };
        match next {
            Some(v) => {
                val = v;
            },
            None => {
                proof {
                    if is_numeral(text@) {
                        lemma_numeral_prefix_le(text@, i + 1);
                    }
                }
                return None;
            },
        }
        i += 1;
    }
    proof {
        assert(text@.take(text@.len() as int) =~= text@);
    }
    Some(val)
}

/// What `char::is_alphabetic` returns: membership in Unicode's Alphabetic
/// class, a function of the character alone.
pub uninterp spec fn char_alphabetic(c: char) -> bool;

/// Relies on `char::is_alphabetic` from std: the result depends on the
/// character alone.
pub assume_specification[ char::is_alphabetic ](c: char) -> (r: bool)
    ensures
        r == char_alphabetic(c),
;

/// Tells whether a text span opens with an alphabetic character, or fails
/// with `MissingNode` for an empty one.
pub fn alphabetic_first_char(value: &Vec<char>) -> (r: Result<bool, CompilerError>)
    ensures
        match r {
            Result::Ok(b) => value@.len() > 0 && b == char_alphabetic(value@[0]),
            Result::Err(e) => value@.len() == 0 && e == CompilerError::MissingNode,
        },
{
    match to_char(value) {
        Result::Ok(c) => Ok(c.is_alphabetic()),
        Result::Err(e) => Err(e),
    }
}

} // verus!
