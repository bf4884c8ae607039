//! Turns a command line into a sequence of tokens.
//!
//! Blanks separate tokens. `|`, `;`, `<`, `&`, `&&`, `>`, `>>`, `1>`, `1>>`,
//! `2>` and `2>>` are operators. Everything else forms words, in which a
//! backslash escapes the next character, single quotes keep their content
//! literally, and double quotes keep their content except that `\\` and `\"`
//! stand for `\` and `"`.
use crate::syntax::scanner::token::{Token, TokenType, tokens_view};
use crate::text::{chars_of, push_char};
use vstd::prelude::*;

verus! {

/// A quote that was opened but never closed.
#[derive(Clone, Copy, Debug, PartialEq, Eq, Structural)]
pub enum QuoteKind {
    Single,
    Double,
}

/// The character at `i`, or `'\0'` past either end of the source.
pub open spec fn char_at(src: Seq<char>, i: int) -> char {
    if 0 <= i < src.len() {
        src[i]
    } else {
        '\0'
    }
}

/// Characters that separate tokens and are otherwise ignored.
pub open spec fn is_blank(c: char) -> bool {
    c == ' ' || c == '\r' || c == '\t' || c == '\n'
}

/// Characters that end a word.
pub open spec fn is_word_break(c: char) -> bool {
    is_blank(c) || c == '|' || c == ';' || c == '<' || c == '>'
}

/// The content of a single-quoted string whose content starts at `i`: the text up to the
/// closing quote, the position after that quote, and whether the quote was left open.
pub open spec fn single_quoted(src: Seq<char>, i: int) -> (Seq<char>, int, Option<QuoteKind>)
    decreases src.len() - i,
{
    if i < 0 || i >= src.len() {
        (seq![], i, Some(QuoteKind::Single))
    } else if src[i] == '\'' {
        (seq![], i + 1, None)
    } else {
        let rest = single_quoted(src, i + 1);
        (seq![src[i]] + rest.0, rest.1, rest.2)
    }
}

/// The content of a double-quoted string whose content starts at `i`, with `\\` and `\"`
/// read as `\` and `"`; the position after the closing quote; and whether the quote was
/// left open.
pub open spec fn double_quoted(src: Seq<char>, i: int) -> (Seq<char>, int, Option<QuoteKind>)
    decreases src.len() - i,
{
    if i < 0 || i >= src.len() {
        (seq![], i, Some(QuoteKind::Double))
    } else if src[i] == '"' {
        (seq![], i + 1, None)
    } else if src[i] == '\\' && (char_at(src, i + 1) == '\\' || char_at(src, i + 1) == '"') {
        let rest = double_quoted(src, i + 2);
        (seq![src[i + 1]] + rest.0, rest.1, rest.2)
    } else {
        let rest = double_quoted(src, i + 1);
        (seq![src[i]] + rest.0, rest.1, rest.2)
    }
}

/// Reading a single-quoted string moves forward and stays in the source; an open quote
/// reaches the end.
pub proof fn lemma_single_quoted_bounds(src: Seq<char>, i: int)
    requires
        0 <= i <= src.len(),
    ensures
        i <= single_quoted(src, i).1 <= src.len(),
        single_quoted(src, i).2 is Some ==> single_quoted(src, i).1 == src.len(),
    decreases src.len() - i,
{
    if i < src.len() && src[i] != '\'' {
        lemma_single_quoted_bounds(src, i + 1);
    }
}

/// Reading a double-quoted string moves forward and stays in the source; an open quote
/// reaches the end.
pub proof fn lemma_double_quoted_bounds(src: Seq<char>, i: int)
    requires
        0 <= i <= src.len(),
    ensures
        i <= double_quoted(src, i).1 <= src.len(),
        double_quoted(src, i).2 is Some ==> double_quoted(src, i).1 == src.len(),
    decreases src.len() - i,
{
    if i < src.len() && src[i] != '"' {
        if src[i] == '\\' && (char_at(src, i + 1) == '\\' || char_at(src, i + 1) == '"') {
            lemma_double_quoted_bounds(src, i + 2);
        } else {
            lemma_double_quoted_bounds(src, i + 1);
        }
    }
}

/// The word that starts at `i`: its text, the position where it ends, and the quote that
/// it left open, if any.
pub open spec fn word(src: Seq<char>, i: int) -> (Seq<char>, int, Option<QuoteKind>)
    decreases src.len() - i,
{
    if i < 0 || i >= src.len() {
        (seq![], i, None)
    } else if src[i] == '\\' {
        if i + 1 < src.len() {
            let rest = word(src, i + 2);
            (seq![src[i + 1]] + rest.0, rest.1, rest.2)
        } else {
            (seq![], i + 1, None)
        }
    } else if src[i] == '\'' {
        let quoted = single_quoted(src, i + 1);
        proof {
            lemma_single_quoted_bounds(src, i + 1);
        }
        let rest = word(src, quoted.1);
        (quoted.0 + rest.0, rest.1, if quoted.2 is Some { quoted.2 } else { rest.2 })
    } else if src[i] == '"' {
        let quoted = double_quoted(src, i + 1);
        proof {
            lemma_double_quoted_bounds(src, i + 1);
        }
        let rest = word(src, quoted.1);
        (quoted.0 + rest.0, rest.1, if quoted.2 is Some { quoted.2 } else { rest.2 })
    } else if is_word_break(src[i]) {
        (seq![], i, None)
    } else {
        let rest = word(src, i + 1);
        (seq![src[i]] + rest.0, rest.1, rest.2)
    }
}

/// A word ends within the source, and a word that starts with a character that does not
/// break words is not empty.
pub proof fn lemma_word_bounds(src: Seq<char>, i: int)
    requires
        0 <= i <= src.len(),
    ensures
        i <= word(src, i).1 <= src.len(),
        i < src.len() && !is_word_break(src[i]) ==> i < word(src, i).1,
    decreases src.len() - i,
{
    if i < src.len() {
        if src[i] == '\\' {
            if i + 1 < src.len() {
                lemma_word_bounds(src, i + 2);
            }
        } else if src[i] == '\'' {
            lemma_single_quoted_bounds(src, i + 1);
            lemma_word_bounds(src, single_quoted(src, i + 1).1);
        } else if src[i] == '"' {
            lemma_double_quoted_bounds(src, i + 1);
            lemma_word_bounds(src, double_quoted(src, i + 1).1);
        } else if !is_word_break(src[i]) {
            lemma_word_bounds(src, i + 1);
        }
    }
}

/// An operator token.
pub open spec fn operator(token_type: TokenType, lexeme: Seq<char>) -> Option<
    (TokenType, Seq<char>),
> {
    Some((token_type, lexeme))
}

/// The token that starts at `i` (none for a blank), the position after it, and the quote
/// it left open, if any.
pub open spec fn token_at(src: Seq<char>, i: int) -> (
    Option<(TokenType, Seq<char>)>,
    int,
    Option<QuoteKind>,
) {
    let c = src[i];
    let next = char_at(src, i + 1);
    let after_next = char_at(src, i + 2);
    if is_blank(c) {
        (None, i + 1, None)
    } else if c == '&' {
        if next == '&' {
            (operator(TokenType::And, seq!['&', '&']), i + 2, None)
        } else {
            (operator(TokenType::Ampersand, seq!['&']), i + 1, None)
        }
    } else if c == '|' {
        (operator(TokenType::Pipe, seq!['|']), i + 1, None)
    } else if c == ';' {
        (operator(TokenType::Semicolon, seq![';']), i + 1, None)
    } else if c == '<' {
        (operator(TokenType::RedirectIn, seq!['<']), i + 1, None)
    } else if c == '>' {
        if next == '>' {
            (operator(TokenType::RedirectAppend, seq!['>', '>']), i + 2, None)
        } else {
            (operator(TokenType::RedirectOut, seq!['>']), i + 1, None)
        }
    } else if c == '1' && next == '>' {
        if after_next == '>' {
            (operator(TokenType::RedirectAppend, seq!['>', '>']), i + 3, None)
        } else {
            (operator(TokenType::RedirectOut, seq!['>']), i + 2, None)
        }
    } else if c == '2' && next == '>' {
        if after_next == '>' {
            (operator(TokenType::RedirectStdErrAppend, seq!['2', '>', '>']), i + 3, None)
        } else {
            (operator(TokenType::RedirectStdErr, seq!['2', '>']), i + 2, None)
        }
    } else {
        let w = word(src, i);
        (Some((TokenType::Word, w.0)), w.1, w.2)
    }
}

/// Reading a token moves forward and stays in the source.
pub proof fn lemma_token_at_advances(src: Seq<char>, i: int)
    requires
        0 <= i < src.len(),
    ensures
        i < token_at(src, i).1 <= src.len(),
{
    let c = src[i];
    let next = char_at(src, i + 1);
    if !is_blank(c) && c != '&' && c != '|' && c != ';' && c != '<' && c != '>' && !(c == '1'
        && next == '>') && !(c == '2' && next == '>') {
        lemma_word_bounds(src, i);
    }
}

/// The tokens of `src` from position `i` on, without the final end-of-input token.
pub open spec fn tokens_from(src: Seq<char>, i: int) -> Seq<(TokenType, Seq<char>)>
    decreases src.len() - i,
{
    if i < 0 || i >= src.len() {
        seq![]
    } else {
        let t = token_at(src, i);
        proof {
            lemma_token_at_advances(src, i);
        }
        let rest = tokens_from(src, t.1);
        match t.0 {
            Some(token) => seq![token] + rest,
            None => rest,
        }
    }
}

/// The quotes left open while scanning `src` from position `i` on.
pub open spec fn open_quotes_from(src: Seq<char>, i: int) -> Seq<QuoteKind>
    decreases src.len() - i,
{
    if i < 0 || i >= src.len() {
        seq![]
    } else {
        let t = token_at(src, i);
        proof {
            lemma_token_at_advances(src, i);
        }
        let rest = open_quotes_from(src, t.1);
        match t.2 {
            Some(q) => seq![q] + rest,
            None => rest,
        }
    }
}

/// The end-of-input token.
pub open spec fn eof_token() -> (TokenType, Seq<char>) {
    (TokenType::Eof, seq![])
}

/// All tokens of a command line, ending with the end-of-input token.
pub open spec fn lex(src: Seq<char>) -> Seq<(TokenType, Seq<char>)> {
    tokens_from(src, 0).push(eof_token())
}

/// The quotes that a command line leaves open, in order.
pub open spec fn open_quotes(src: Seq<char>) -> Seq<QuoteKind> {
    open_quotes_from(src, 0)
}

/// No token read from the source is an end-of-input token.
proof fn lemma_tokens_from_have_no_eof(src: Seq<char>, i: int)
    ensures
        forall|k: int|
            0 <= k < tokens_from(src, i).len() ==> (#[trigger] tokens_from(src, i)[k]).0
                != TokenType::Eof,
    decreases src.len() - i,
{
    if 0 <= i < src.len() {
        lemma_token_at_advances(src, i);
        let t = token_at(src, i);
        lemma_tokens_from_have_no_eof(src, t.1);
        match t.0 {
            Some(token) => {
                assert forall|k: int|
                    0 <= k < tokens_from(src, i).len() implies (#[trigger] tokens_from(
                    src,
                    i,
                )[k]).0 != TokenType::Eof by {
                    if k > 0 {
                        assert(tokens_from(src, i)[k] == tokens_from(src, t.1)[k - 1]);
                    }
                }
            },
            None => {},
        }
    }
}

/// Law: every command line scans to tokens that end with exactly one end-of-input token.
pub proof fn law_lex_ends_with_single_eof(src: Seq<char>)
    ensures
        lex(src).len() >= 1,
        lex(src).last() == eof_token(),
        forall|k: int| 0 <= k < lex(src).len() - 1 ==> (#[trigger] lex(src)[k]).0 != TokenType::Eof,
{
    lemma_tokens_from_have_no_eof(src, 0);
    assert forall|k: int| 0 <= k < lex(src).len() - 1 implies (#[trigger] lex(src)[k]).0
        != TokenType::Eof by {
        assert(lex(src)[k] == tokens_from(src, 0)[k]);
    }
}

proof fn lemma_single_quoted_literal(src: Seq<char>, i: int, end: int)
    requires
        0 <= i <= end < src.len(),
        src[end] == '\'',
        forall|k: int| i <= k < end ==> src[k] != '\'',
    ensures
        single_quoted(src, i) == (src.subrange(i, end), end + 1, Option::<QuoteKind>::None),
    decreases end - i,
{
    if i < end {
        lemma_single_quoted_literal(src, i + 1, end);
        assert(seq![src[i]] + src.subrange(i + 1, end) =~= src.subrange(i, end));
    } else {
        assert(src.subrange(i, end) =~= Seq::<char>::empty());
    }
}

/// Law: text in single quotes is kept literally: a line made of one single-quoted text
/// without quotes in it scans to one word holding exactly that text.
pub proof fn law_single_quotes_keep_text(content: Seq<char>)
    requires
        !content.contains('\''),
    ensures
        lex(seq!['\''] + content + seq!['\'']) == seq![(TokenType::Word, content), eof_token()],
{
    let src = seq!['\''] + content + seq!['\''];
    let end = src.len() - 1;
    assert forall|k: int| 1 <= k < end implies src[k] != '\'' by {
        assert(src[k] == content[k - 1]);
        if src[k] == '\'' {
            assert(content.contains('\''));
        }
    }
    lemma_single_quoted_literal(src, 1, end);
    assert(src.subrange(1, end) =~= content);
    assert(word(src, src.len() as int).0 =~= Seq::<char>::empty());
    assert(word(src, 0).0 =~= content + Seq::<char>::empty());
    assert(tokens_from(src, src.len() as int) =~= Seq::<(TokenType, Seq<char>)>::empty());
    assert(tokens_from(src, 0) =~= seq![(TokenType::Word, content)]);
    assert(lex(src) =~= seq![(TokenType::Word, content), eof_token()]);
}

/// Law: a backslash makes the character after it part of a word, whatever it is.
pub proof fn law_backslash_escapes_any_character(c: char)
    ensures
        lex(seq!['\\', c]) == seq![(TokenType::Word, seq![c]), eof_token()],
{
    let src = seq!['\\', c];
    assert(word(src, 2).0 =~= Seq::<char>::empty());
    assert(word(src, 0).0 =~= seq![c]);
    assert(tokens_from(src, 2) =~= Seq::<(TokenType, Seq<char>)>::empty());
    assert(tokens_from(src, 0) =~= seq![(TokenType::Word, seq![c])]);
    assert(lex(src) =~= seq![(TokenType::Word, seq![c]), eof_token()]);
}

/// Characters that stand for themselves inside a word: no blanks, operators, quotes or
/// backslashes.
pub open spec fn is_plain(c: char) -> bool {
    !is_word_break(c) && c != '\'' && c != '"' && c != '\\'
}

proof fn lemma_plain_word(src: Seq<char>, i: int)
    requires
        0 <= i <= src.len(),
        forall|k: int| 0 <= k < src.len() ==> is_plain(#[trigger] src[k]),
    ensures
        word(src, i) == (src.subrange(i, src.len() as int), src.len() as int, Option::<
            QuoteKind,
        >::None),
    decreases src.len() - i,
{
    if i < src.len() {
        lemma_plain_word(src, i + 1);
        assert(seq![src[i]] + src.subrange(i + 1, src.len() as int) =~= src.subrange(
            i,
            src.len() as int,
        ));
    } else {
        assert(src.subrange(i, src.len() as int) =~= Seq::<char>::empty());
    }
}

/// Law: a non-empty line of plain characters that does not start with `&` scans to one
/// word holding the whole line.
pub proof fn law_plain_text_is_one_word(src: Seq<char>)
    requires
        src.len() > 0,
        src[0] != '&',
        forall|k: int| 0 <= k < src.len() ==> is_plain(#[trigger] src[k]),
    ensures
        lex(src) == seq![(TokenType::Word, src), eof_token()],
{
    lemma_plain_word(src, 0);
    if src.len() > 1 {
        assert(is_plain(src[1]));
    }
    assert(src.subrange(0, src.len() as int) =~= src);
    assert(tokens_from(src, src.len() as int) =~= Seq::<(TokenType, Seq<char>)>::empty());
    assert(tokens_from(src, 0) =~= seq![(TokenType::Word, src)]);
    assert(lex(src) =~= seq![(TokenType::Word, src), eof_token()]);
}

/// Whether a text holds no quote and no backslash.
pub open spec fn has_no_quoting(text: Seq<char>) -> bool {
    forall|k: int|
        0 <= k < text.len() ==> #[trigger] text[k] != '\'' && text[k] != '"' && text[k] != '\\'
}

proof fn lemma_word_before_blank(a: Seq<char>, s: Seq<char>, i: int)
    requires
        a.len() < s.len(),
        forall|k: int| 0 <= k < a.len() ==> #[trigger] s[k] == a[k],
        is_blank(s[a.len() as int]),
        has_no_quoting(a),
        0 <= i <= a.len(),
    ensures
        word(s, i) == word(a, i),
    decreases a.len() - i,
{
    if i < a.len() {
        assert(s[i] == a[i]);
        if !is_word_break(a[i]) {
            lemma_word_before_blank(a, s, i + 1);
        }
    }
}

proof fn lemma_token_before_blank(a: Seq<char>, s: Seq<char>, i: int)
    requires
        a.len() < s.len(),
        forall|k: int| 0 <= k < a.len() ==> #[trigger] s[k] == a[k],
        is_blank(s[a.len() as int]),
        has_no_quoting(a),
        0 <= i < a.len(),
    ensures
        token_at(s, i) == token_at(a, i),
{
    assert(s[i] == a[i]);
    if i + 1 < a.len() {
        assert(s[i + 1] == a[i + 1]);
    }
    if i + 2 < a.len() {
        assert(s[i + 2] == a[i + 2]);
    }
    lemma_word_before_blank(a, s, i);
}

proof fn lemma_tokens_before_blank(a: Seq<char>, s: Seq<char>, i: int)
    requires
        a.len() < s.len(),
        forall|k: int| 0 <= k < a.len() ==> #[trigger] s[k] == a[k],
        is_blank(s[a.len() as int]),
        has_no_quoting(a),
        0 <= i <= a.len(),
    ensures
        tokens_from(s, i) == tokens_from(a, i) + tokens_from(s, a.len() as int),
    decreases a.len() - i,
{
    if i == a.len() {
        assert(tokens_from(a, i) =~= Seq::<(TokenType, Seq<char>)>::empty());
        assert(tokens_from(a, i) + tokens_from(s, i) =~= tokens_from(s, i));
    } else {
        lemma_token_before_blank(a, s, i);
        lemma_token_at_advances(a, i);
        let t = token_at(a, i);
        lemma_tokens_before_blank(a, s, t.1);
        match t.0 {
            Some(token) => {
                assert(seq![token] + (tokens_from(a, t.1) + tokens_from(s, a.len() as int))
                    =~= (seq![token] + tokens_from(a, t.1)) + tokens_from(s, a.len() as int));
            },
            None => {},
        }
    }
}

proof fn lemma_word_after(p: Seq<char>, q: Seq<char>, j: int)
    requires
        has_no_quoting(q),
        0 <= j <= q.len(),
    ensures
        word(p + q, p.len() + j) == (word(q, j).0, word(q, j).1 + p.len(), word(q, j).2),
    decreases q.len() - j,
{
    if j < q.len() {
        assert((p + q)[p.len() + j] == q[j]);
        if !is_word_break(q[j]) {
            lemma_word_after(p, q, j + 1);
            assert(p.len() + j + 1 == p.len() + (j + 1));
        }
    }
}

proof fn lemma_token_after(p: Seq<char>, q: Seq<char>, j: int)
    requires
        has_no_quoting(q),
        0 <= j < q.len(),
    ensures
        token_at(p + q, p.len() + j) == (
            token_at(q, j).0,
            token_at(q, j).1 + p.len(),
            token_at(q, j).2,
        ),
{
    let s = p + q;
    assert(s[p.len() + j] == q[j]);
    assert(char_at(s, p.len() + j + 1) == char_at(q, j + 1));
    assert(char_at(s, p.len() + j + 2) == char_at(q, j + 2));
    lemma_word_after(p, q, j);
}

proof fn lemma_tokens_after(p: Seq<char>, q: Seq<char>, j: int)
    requires
        has_no_quoting(q),
        0 <= j <= q.len(),
    ensures
        tokens_from(p + q, p.len() + j) == tokens_from(q, j),
    decreases q.len() - j,
{
    if j < q.len() {
        lemma_token_after(p, q, j);
        lemma_token_at_advances(q, j);
        let t = token_at(q, j);
        lemma_tokens_after(p, q, t.1);
        assert(p.len() + t.1 == t.1 + p.len());
    }
}

/// Law: a space splits a line without quotes or backslashes into two halves that are
/// scanned on their own: the tokens of `a`, without its end-of-input token, followed by
/// the tokens of `b`.
pub proof fn law_space_splits_scanning(a: Seq<char>, b: Seq<char>)
    requires
        has_no_quoting(a),
        has_no_quoting(b),
    ensures
        lex(a + seq![' '] + b) == lex(a).drop_last() + lex(b),
{
    let p = a + seq![' '];
    let s = p + b;
    assert(a + seq![' '] + b == s);
    assert forall|k: int| 0 <= k < a.len() implies #[trigger] s[k] == a[k] by {
        assert(s[k] == p[k]);
    }
    assert(s[a.len() as int] == ' ');
    lemma_tokens_before_blank(a, s, 0);
    assert(token_at(s, a.len() as int).1 == a.len() + 1);
    lemma_tokens_after(p, b, 0);
    assert(p.len() + 0 == a.len() + 1);
    assert(tokens_from(s, a.len() as int) == tokens_from(b, 0));
    assert(lex(a).drop_last() =~= tokens_from(a, 0));
    assert(lex(s) =~= lex(a).drop_last() + lex(b));
}

proof fn lemma_double_quoted_plain(src: Seq<char>, i: int)
    requires
        1 <= i < src.len(),
        src.last() == '"',
        forall|k: int| 1 <= k < src.len() - 1 ==> #[trigger] src[k] != '"' && src[k] != '\\',
    ensures
        double_quoted(src, i) == (src.subrange(i, src.len() - 1), src.len() as int, Option::<
            QuoteKind,
        >::None),
    decreases src.len() - i,
{
    if i < src.len() - 1 {
        lemma_double_quoted_plain(src, i + 1);
        assert(seq![src[i]] + src.subrange(i + 1, src.len() - 1) =~= src.subrange(
            i,
            src.len() - 1,
        ));
    } else {
        assert(src.subrange(i, src.len() - 1) =~= Seq::<char>::empty());
    }
}

/// Law: double quotes keep everything between them, blanks and operators included, as
/// one word, when the content holds no `"` and no backslash; no quote is left open.
pub proof fn law_double_quotes_keep_text(content: Seq<char>)
    requires
        forall|k: int| 0 <= k < content.len() ==> #[trigger] content[k] != '"' && content[k] != '\\',
    ensures
        lex(seq!['"'] + content + seq!['"']) == seq![(TokenType::Word, content), eof_token()],
        open_quotes(seq!['"'] + content + seq!['"']) == Seq::<QuoteKind>::empty(),
{
    let src = seq!['"'] + content + seq!['"'];
    assert forall|k: int| 1 <= k < src.len() - 1 implies #[trigger] src[k] != '"' && src[k]
        != '\\' by {
        assert(src[k] == content[k - 1]);
    }
    lemma_double_quoted_plain(src, 1);
    assert(src.subrange(1, src.len() - 1) =~= content);
    assert(src[0] == '"');
    assert(word(src, src.len() as int) == (Seq::<char>::empty(), src.len() as int, Option::<
        QuoteKind,
    >::None));
    assert(content + Seq::<char>::empty() =~= content);
    assert(word(src, 0) == (content, src.len() as int, Option::<QuoteKind>::None));
    assert(tokens_from(src, src.len() as int) =~= Seq::<(TokenType, Seq<char>)>::empty());
    assert(tokens_from(src, 0) =~= seq![(TokenType::Word, content)]);
    assert(lex(src) =~= seq![(TokenType::Word, content), eof_token()]);
    assert(open_quotes_from(src, src.len() as int) =~= Seq::<QuoteKind>::empty());
    assert(open_quotes(src) =~= Seq::<QuoteKind>::empty());
}

/// A scanner over the characters of one command line.
pub struct Lexer {
    source: Vec<char>,
    tokens: Vec<Token>,
    current: usize,
    open_quotes: Vec<QuoteKind>,
}

impl Lexer {
    /// The characters being scanned.
    pub closed spec fn source(&self) -> Seq<char> {
        self.source@
    }

    /// Holds of a lexer that has not scanned anything yet.
    pub closed spec fn is_fresh(&self) -> bool {
        &&& self.current == 0
        &&& self.tokens@.len() == 0
        &&& self.open_quotes@.len() == 0
    }

    pub fn new(source: String) -> (lexer: Self)
        ensures
            lexer.source() == source@,
            lexer.is_fresh(),
    {
        Lexer {
            source: chars_of(source.as_str()),
            tokens: Vec::new(),
            current: 0,
            open_quotes: Vec::new(),
        }
    }

    /// Scans the whole line, returning its tokens (ending with `Eof`) and the quotes that
    /// it left open.
    pub fn scan(self) -> (result: (Vec<Token>, Vec<QuoteKind>))
        requires
            self.is_fresh(),
        ensures
            tokens_view(result.0@) == lex(self.source()),
            result.1@ == open_quotes(self.source()),
    {
        let mut lexer = self;
        lexer.scan_all();
        (lexer.tokens, lexer.open_quotes)
    }

    fn scan_all(&mut self)
        requires
            old(self).is_fresh(),
        ensures
            final(self).source@ == old(self).source@,
            tokens_view(final(self).tokens@) == lex(old(self).source@),
            final(self).open_quotes@ == open_quotes(old(self).source@),
    {
        let ghost src = self.source@;
        while !self.is_at_end()
            invariant
                self.source@ == src,
                self.current <= src.len(),
                tokens_view(self.tokens@) + tokens_from(src, self.current as int) == tokens_from(
                    src,
                    0,
                ),
                self.open_quotes@ + open_quotes_from(src, self.current as int) == open_quotes_from(
                    src,
                    0,
                ),
            decreases src.len() - self.current,
        {
            let ghost before = self.current as int;
            let ghost old_tokens = tokens_view(self.tokens@);
            let ghost old_quotes = self.open_quotes@;
            proof {
                lemma_token_at_advances(src, before);
            }
            self.scan_token();
            proof {
                let t = token_at(src, before);
                match t.0 {
                    Some(tok) => {
                        assert(tokens_from(src, before) == seq![tok] + tokens_from(src, t.1));
                        assert(old_tokens + (seq![tok] + tokens_from(src, t.1)) == old_tokens.push(
                            tok,
                        ) + tokens_from(src, t.1));
                    },
                    None => {
                        assert(tokens_from(src, before) == tokens_from(src, t.1));
                    },
                }
                match t.2 {
                    Some(q) => {
                        assert(open_quotes_from(src, before) == seq![q] + open_quotes_from(
                            src,
                            t.1,
                        ));
                        assert(old_quotes + (seq![q] + open_quotes_from(src, t.1)) == old_quotes.push(
                            q,
                        ) + open_quotes_from(src, t.1));
                    },
                    None => {
                        assert(open_quotes_from(src, before) == open_quotes_from(src, t.1));
                    },
                }
            }
        }
        proof {
            assert(tokens_from(src, self.current as int) == Seq::<(TokenType, Seq<char>)>::empty());
            assert(open_quotes_from(src, self.current as int) == Seq::<QuoteKind>::empty());
            assert(tokens_view(self.tokens@) + Seq::<(TokenType, Seq<char>)>::empty() == tokens_view(
                self.tokens@,
            ));
            assert(self.open_quotes@ + Seq::<QuoteKind>::empty() == self.open_quotes@);
        }
        let eof = Token { token_type: TokenType::Eof, lexeme: String::new() };
        self.tokens.push(eof);
        proof {
            assert(tokens_view(self.tokens@) =~= tokens_from(src, 0).push(eof_token()));
        }
    }

    /// Scans the whole line and returns its tokens, ending with `Eof`.
    pub fn scan_tokens(self) -> (tokens: Vec<Token>)
        requires
            self.is_fresh(),
        ensures
            tokens_view(tokens@) == lex(self.source()),
    {
        let (tokens, _open_quotes) = self.scan();
        tokens
    }

    fn scan_token(&mut self)
        requires
            old(self).current < old(self).source@.len(),
        ensures
            final(self).source@ == old(self).source@,
            final(self).current == token_at(old(self).source@, old(self).current as int).1,
            tokens_view(final(self).tokens@) == match token_at(
                old(self).source@,
                old(self).current as int,
            ).0 {
                Some(tok) => tokens_view(old(self).tokens@).push(tok),
                None => tokens_view(old(self).tokens@),
            },
            final(self).open_quotes@ == match token_at(
                old(self).source@,
                old(self).current as int,
            ).2 {
                Some(q) => old(self).open_quotes@.push(q),
                None => old(self).open_quotes@,
            },
    {
        let c = self.advance();
        if c == ' ' || c == '\r' || c == '\t' || c == '\n' {
            // Blanks only separate tokens.
        } else if c == '&' {
            if self.peek() == '&' {
                self.add_token(TokenType::And, operator_lexeme2('&', '&'));
                self.advance();
            } else {
                self.add_token(TokenType::Ampersand, operator_lexeme1(c));
            }
        } else if c == '|' {
            self.add_token(TokenType::Pipe, operator_lexeme1(c));
        } else if c == ';' {
            self.add_token(TokenType::Semicolon, operator_lexeme1(c));
        } else if c == '<' {
            self.add_token(TokenType::RedirectIn, operator_lexeme1(c));
        } else if c == '>' {
            if self.peek() == '>' {
                self.advance();
                self.add_token(TokenType::RedirectAppend, operator_lexeme2('>', '>'));
            } else {
                self.add_token(TokenType::RedirectOut, operator_lexeme1(c));
            }
        } else if c == '1' && self.peek() == '>' {
            if self.peek_next() == '>' {
                self.advance();
                self.advance();
                self.add_token(TokenType::RedirectAppend, operator_lexeme2('>', '>'));
            } else {
                self.advance();
                self.add_token(TokenType::RedirectOut, operator_lexeme1('>'));
            }
        } else if c == '2' && self.peek() == '>' {
            if self.peek_next() == '>' {
                self.advance();
                self.advance();
                let mut lexeme = operator_lexeme2('2', '>');
                push_char(&mut lexeme, '>');
                proof {
                    assert(lexeme@ =~= seq!['2', '>', '>']);
                }
                self.add_token(TokenType::RedirectStdErrAppend, lexeme);
            } else {
                self.advance();
                self.add_token(TokenType::RedirectStdErr, operator_lexeme2('2', '>'));
            }
        } else {
            self.scan_argument(c);
        }
    }

    fn add_token(&mut self, token_type: TokenType, lexeme: String)
        ensures
            final(self).source@ == old(self).source@,
            final(self).current == old(self).current,
            final(self).open_quotes@ == old(self).open_quotes@,
            tokens_view(final(self).tokens@) == tokens_view(old(self).tokens@).push(
                (token_type, lexeme@),
            ),
    {
        self.tokens.push(Token { token_type, lexeme });
        proof {
            assert(tokens_view(self.tokens@) =~= tokens_view(old(self).tokens@).push(
                (token_type, lexeme@),
            ));
        }
    }

    fn advance(&mut self) -> (c: char)
        requires
            old(self).current < old(self).source@.len(),
        ensures
            c == old(self).source@[old(self).current as int],
            final(self).current == old(self).current + 1,
            final(self).source@ == old(self).source@,
            final(self).tokens@ == old(self).tokens@,
            final(self).open_quotes@ == old(self).open_quotes@,
    {
        let len = self.source.len();
        let c = self.source[self.current];
        proof {
            assert(self.current < len);
        }
        self.current = self.current + 1;
        c
    }

    fn is_at_end(&self) -> (at_end: bool)
        ensures
            at_end == (self.current >= self.source@.len()),
    {
        self.current >= self.source.len()
    }

    fn peek(&self) -> (c: char)
        ensures
            c == char_at(self.source@, self.current as int),
    {
        if self.is_at_end() {
            '\0'
        } else {
            self.source[self.current]
        }
    }

    fn peek_next(&self) -> (c: char)
        ensures
            c == char_at(self.source@, self.current + 1),
    {
        let len = self.source.len();
        if self.current >= len {
            '\0'
        } else if self.current + 1 >= len {
            '\0'
        } else {
            self.source[self.current + 1]
        }
    }

    /// Scans the rest of a word whose first character, `first_char`, was just consumed.
    fn scan_argument(&mut self, first_char: char)
        requires
            1 <= old(self).current <= old(self).source@.len(),
            old(self).source@[old(self).current - 1] == first_char,
            !is_word_break(first_char),
        ensures
            final(self).source@ == old(self).source@,
            final(self).current == word(old(self).source@, old(self).current - 1).1,
            tokens_view(final(self).tokens@) == tokens_view(old(self).tokens@).push(
                (TokenType::Word, word(old(self).source@, old(self).current - 1).0),
            ),
            final(self).open_quotes@ == match word(
                old(self).source@,
                old(self).current - 1,
            ).2 {
                Some(q) => old(self).open_quotes@.push(q),
                None => old(self).open_quotes@,
            },
    {
        let ghost src = self.source@;
        let ghost start = self.current - 1;
        let ghost target = word(src, start);
        let mut buffer = String::new();
        let mut open_quote: Option<QuoteKind> = None;

        if first_char == '\\' {
            if !self.is_at_end() {
                let c = self.advance();
                push_char(&mut buffer, c);
            }
        } else if first_char == '\'' {
            let (content, quote) = self.scan_single_quote();
            buffer.append(content.as_str());
            open_quote = quote;
        } else if first_char == '"' {
            let (content, quote) = self.scan_double_quote();
            buffer.append(content.as_str());
            open_quote = quote;
        } else {
            push_char(&mut buffer, first_char);
        }

        proof {
            lemma_single_quoted_bounds(src, start + 1);
            lemma_double_quoted_bounds(src, start + 1);
        }

        while !self.is_at_end()
            invariant_except_break
                self.source@ == src,
                0 <= start < self.current <= src.len(),
                buffer@ + word(src, self.current as int).0 == target.0,
                word(src, self.current as int).1 == target.1,
                (if open_quote is Some { open_quote } else { word(src, self.current as int).2 })
                    == target.2,
                open_quote is Some ==> self.current == src.len(),
                self.tokens@ == old(self).tokens@,
                self.open_quotes@ == old(self).open_quotes@,
            ensures
                self.source@ == src,
                self.current == target.1,
                buffer@ == target.0,
                open_quote == target.2,
                self.tokens@ == old(self).tokens@,
                self.open_quotes@ == old(self).open_quotes@,
            decreases src.len() - self.current,
        {
            let ghost pos = self.current as int;
            let c = self.peek();
            if c == '\\' {
                self.advance();
                if !self.is_at_end() {
                    let escaped = self.advance();
                    push_char(&mut buffer, escaped);
                }
                proof {
                    assert(buffer@ + word(src, self.current as int).0 =~= target.0);
                }
            } else if c == '\'' {
                self.advance();
                let (content, quote) = self.scan_single_quote();
                buffer.append(content.as_str());
                proof {
                    lemma_single_quoted_bounds(src, pos + 1);
                    assert(buffer@ + word(src, self.current as int).0 =~= target.0);
                }
                open_quote = quote;
            } else if c == '"' {
                self.advance();
                let (content, quote) = self.scan_double_quote();
                buffer.append(content.as_str());
                proof {
                    lemma_double_quoted_bounds(src, pos + 1);
                    assert(buffer@ + word(src, self.current as int).0 =~= target.0);
                }
                open_quote = quote;
            } else if c == ' ' || c == '\r' || c == '\t' || c == '\n' || c == '|' || c == ';' || c
                == '<' || c == '>' {
                proof {
                    assert(word(src, pos).0 =~= Seq::<char>::empty());
                    assert(buffer@ + Seq::<char>::empty() == buffer@);
                    assert(open_quote is None);
                }
                break;
            } else {
                let plain = self.advance();
                push_char(&mut buffer, plain);
                proof {
                    assert(buffer@ + word(src, self.current as int).0 =~= target.0);
                }
            }
        }
        proof {
            if self.current >= src.len() {
                assert(word(src, self.current as int).0 =~= Seq::<char>::empty());
                assert(buffer@ + Seq::<char>::empty() == buffer@);
            }
        }
        let ghost old_tokens = tokens_view(self.tokens@);
        self.tokens.push(Token { token_type: TokenType::Word, lexeme: buffer });
        proof {
            assert(tokens_view(self.tokens@) =~= old_tokens.push((TokenType::Word, target.0)));
        }
        match open_quote {
            Some(q) => self.open_quotes.push(q),
            None => {},
        }
    }

    /// Scans single-quoted content up to and including the closing quote.
    fn scan_single_quote(&mut self) -> (result: (String, Option<QuoteKind>))
        requires
            old(self).current <= old(self).source@.len(),
        ensures
            final(self).source@ == old(self).source@,
            final(self).tokens@ == old(self).tokens@,
            final(self).open_quotes@ == old(self).open_quotes@,
            result.0@ == single_quoted(old(self).source@, old(self).current as int).0,
            final(self).current == single_quoted(old(self).source@, old(self).current as int).1,
            result.1 == single_quoted(old(self).source@, old(self).current as int).2,
    {
        let ghost src = self.source@;
        let ghost target = single_quoted(src, self.current as int);
        let mut content = String::new();
        while !self.is_at_end() && self.peek() != '\''
            invariant
                self.source@ == src,
                self.current <= src.len(),
                content@ + single_quoted(src, self.current as int).0 == target.0,
                single_quoted(src, self.current as int).1 == target.1,
                single_quoted(src, self.current as int).2 == target.2,
                self.tokens@ == old(self).tokens@,
                self.open_quotes@ == old(self).open_quotes@,
            decreases src.len() - self.current,
        {
            let c = self.advance();
            push_char(&mut content, c);
            proof {
                assert(content@ + single_quoted(src, self.current as int).0 =~= target.0);
            }
        }
        if self.is_at_end() {
            proof {
                assert(content@ + Seq::<char>::empty() == content@);
            }
            return (content, Some(QuoteKind::Single));
        }
        self.advance();
        proof {
            assert(content@ + Seq::<char>::empty() == content@);
        }
        (content, None)
    }

    /// Scans double-quoted content up to and including the closing quote.
    fn scan_double_quote(&mut self) -> (result: (String, Option<QuoteKind>))
        requires
            old(self).current <= old(self).source@.len(),
        ensures
            final(self).source@ == old(self).source@,
            final(self).tokens@ == old(self).tokens@,
            final(self).open_quotes@ == old(self).open_quotes@,
            result.0@ == double_quoted(old(self).source@, old(self).current as int).0,
            final(self).current == double_quoted(old(self).source@, old(self).current as int).1,
            result.1 == double_quoted(old(self).source@, old(self).current as int).2,
    {
        let ghost src = self.source@;
        let ghost target = double_quoted(src, self.current as int);
        let mut content = String::new();
        while !self.is_at_end() && self.peek() != '"'
            invariant
                self.source@ == src,
                self.current <= src.len(),
                content@ + double_quoted(src, self.current as int).0 == target.0,
                double_quoted(src, self.current as int).1 == target.1,
                double_quoted(src, self.current as int).2 == target.2,
                self.tokens@ == old(self).tokens@,
                self.open_quotes@ == old(self).open_quotes@,
            decreases src.len() - self.current,
        {
            if (self.peek() == '\\' && self.peek_next() == '\\') || (self.peek() == '\\'
                && self.peek_next() == '"') {
                self.advance();
                if !self.is_at_end() {
                    let c = self.advance();
                    push_char(&mut content, c);
                }
            } else {
                let c = self.advance();
                push_char(&mut content, c);
            }
            proof {
                assert(content@ + double_quoted(src, self.current as int).0 =~= target.0);
            }
        }
        if self.is_at_end() {
            proof {
                assert(content@ + Seq::<char>::empty() == content@);
            }
            return (content, Some(QuoteKind::Double));
        }
        self.advance();
        proof {
            assert(content@ + Seq::<char>::empty() == content@);
        }
        (content, None)
    }
}

/// A one-character operator lexeme.
fn operator_lexeme1(c: char) -> (s: String)
    ensures
        s@ == seq![c],
{
    let mut s = String::new();
    push_char(&mut s, c);
    proof {
        assert(s@ =~= seq![c]);
    }
    s
}

/// A two-character operator lexeme.
fn operator_lexeme2(a: char, b: char) -> (s: String)
    ensures
        s@ == seq![a, b],
{
    let mut s = String::new();
    push_char(&mut s, a);
    push_char(&mut s, b);
    proof {
        assert(s@ =~= seq![a, b]);
    }
    s
}

} // verus!
