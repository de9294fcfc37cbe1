use vstd::prelude::*;
use crate::lex_parser::{
    LexFault, blank, comment_end, digits_end, digits_value, ident_end, is_digit, is_ident_char,
    is_ident_start, is_ident_word, is_white_space, lex_step, literal, saturate, word_view,
};
use crate::token::{KeyWord, Operator, Seperator, Token, TokenView, kw_spelling, lemma_keyword_of_spelling};

verus! {

/// The number of newline characters in `w`.
pub open spec fn newlines(w: Seq<char>) -> nat
    decreases w.len(),
{
    if w.len() == 0 {
        0
    } else {
        (if w[0] == '\n' { 1nat } else { 0nat }) + newlines(w.drop_first())
    }
}

proof fn lemma_blank_white(s: Seq<char>, p: int, line: int)
    requires
        0 <= p <= s.len(),
        forall|i: int| p <= i < s.len() ==> is_white_space(#[trigger] s[i]),
    ensures
        blank(s, p, line, false) == (true, s.len() as int, line + newlines(s.subrange(p, s.len() as int))),
    decreases s.len() - p,
{
    if p < s.len() {
        lemma_blank_white(s, p + 1, if s[p] == '\n' { line + 1 } else { line });
        assert(s.subrange(p, s.len() as int).drop_first() =~= s.subrange(p + 1, s.len() as int));
    } else {
        assert(s.subrange(p, s.len() as int) =~= Seq::<char>::empty());
    }
}

/// Input made only of whitespace gives no token: the scanner reaches the end and
/// the line count grows by the number of newlines.
pub proof fn lemma_whitespace_gives_no_token(s: Seq<char>, line: int)
    requires
        forall|i: int| 0 <= i < s.len() ==> is_white_space(#[trigger] s[i]),
    ensures
        lex_step(s, 0, line) == (Ok::<Option<TokenView>, LexFault>(None), s.len() as int, line + newlines(s)),
{
    lemma_blank_white(s, 0, line);
    assert(s.subrange(0, s.len() as int) =~= s);
}

/// No `*` of `body` is directly followed by `/`.
pub open spec fn no_close(body: Seq<char>) -> bool {
    forall|i: int| 0 <= i < body.len() - 1 ==> !(#[trigger] body[i] == '*' && body[i + 1] == '/')
}

proof fn lemma_comment_body(s: Seq<char>, body: Seq<char>, i: int, line: int, closed: bool)
    requires
        0 <= i <= body.len(),
        no_close(body),
        closed ==> s == seq!['/', '*'] + body + seq!['*', '/'],
        !closed ==> s == seq!['/', '*'] + body,
    ensures
        blank(s, i + 2, line, true) == (closed, s.len() as int, line + newlines(body.subrange(i, body.len() as int))),
    decreases body.len() - i,
{
    assert(forall|j: int| 0 <= j < body.len() ==> s[j + 2] == body[j]);
    if i < body.len() {
        lemma_comment_body(s, body, i + 1, if body[i] == '\n' { line + 1 } else { line }, closed);
        assert(body.subrange(i, body.len() as int).drop_first() =~= body.subrange(i + 1, body.len() as int));
        if closed && i == body.len() - 1 {
            assert(s[i + 3] == '*');
        }
    } else {
        assert(body.subrange(i, body.len() as int) =~= Seq::<char>::empty());
        if closed {
            assert(s[i + 2] == '*' && s[i + 3] == '/');
            assert(blank(s, i + 4, line, false) == (true, s.len() as int, line));
        }
    }
}

/// A closed block comment gives no token, and the line count grows by the newlines
/// inside it.
pub proof fn lemma_comment_gives_no_token(body: Seq<char>, line: int)
    requires
        no_close(body),
    ensures
        lex_step(seq!['/', '*'] + body + seq!['*', '/'], 0, line)
            == (Ok::<Option<TokenView>, LexFault>(None), body.len() + 4int, line + newlines(body)),
{
    let s = seq!['/', '*'] + body + seq!['*', '/'];
    lemma_comment_body(s, body, 0, line, true);
    assert(body.subrange(0, body.len() as int) =~= body);
}

/// A block comment that is never closed gives exactly the unterminated-comment fault,
/// with the scanner at the end of the input.
pub proof fn lemma_unterminated_comment(body: Seq<char>, line: int)
    requires
        no_close(body),
    ensures
        lex_step(seq!['/', '*'] + body, 0, line)
            == (Err::<Option<TokenView>, LexFault>(LexFault::UnterminatedComment), body.len() + 2int, line + newlines(body)),
        lex_step(seq!['/', '*'] + body, body.len() + 2int, line + newlines(body))
            == (Ok::<Option<TokenView>, LexFault>(None), body.len() + 2int, line + newlines(body)),
{
    let s = seq!['/', '*'] + body;
    lemma_comment_body(s, body, 0, line, false);
    assert(body.subrange(0, body.len() as int) =~= body);
}

/// A `/` that does not open a comment is the divide operator, and scanning resumes
/// right after it.
pub proof fn lemma_lone_slash_is_divide(s: Seq<char>, p: int, line: int)
    requires
        0 <= p < s.len(),
        s[p] == '/',
        p + 1 == s.len() || s[p + 1] != '*',
    ensures
        lex_step(s, p, line) == (Ok::<Option<TokenView>, LexFault>(Some(TokenView::Op(Operator::Divide))), p + 1, line),
{
}

proof fn lemma_ident_end(s: Seq<char>, p: int, e: int)
    requires
        0 <= p <= e <= s.len(),
        forall|i: int| p <= i < e ==> is_ident_char(#[trigger] s[i]),
        e == s.len() || !is_ident_char(s[e]),
    ensures
        ident_end(s, p) == e,
    decreases e - p,
{
    if p < e {
        lemma_ident_end(s, p + 1, e);
    }
}

/// A word at position `p`, followed by the end of input or by a character that
/// cannot continue it, scans as the keyword it spells or else as an identifier named
/// by it; the result depends on the word alone.
pub proof fn lemma_word_token(s: Seq<char>, p: int, w: Seq<char>, line: int)
    requires
        0 <= p,
        p + w.len() <= s.len(),
        s.subrange(p, p + w.len()) == w,
        is_ident_word(w),
        is_ident_start(w[0]),
        p + w.len() == s.len() || !is_ident_char(s[p + w.len()]),
    ensures
        lex_step(s, p, line) == (Ok::<Option<TokenView>, LexFault>(Some(word_view(w))), p + w.len(), line),
{
    assert(s[p] == w[0]);
    assert(forall|i: int| p <= i < p + w.len() ==> s[i] == w[i - p]);
    lemma_ident_end(s, p + 1, p + w.len());
}

/// Two sightings of the same word give equal tokens.
pub proof fn lemma_same_word_same_token(s: Seq<char>, p: int, q: int, w: Seq<char>, l1: int, l2: int)
    requires
        0 <= p && 0 <= q,
        p + w.len() <= s.len() && q + w.len() <= s.len(),
        s.subrange(p, p + w.len()) == w,
        s.subrange(q, q + w.len()) == w,
        is_ident_word(w),
        is_ident_start(w[0]),
        p + w.len() == s.len() || !is_ident_char(s[p + w.len()]),
        q + w.len() == s.len() || !is_ident_char(s[q + w.len()]),
    ensures
        lex_step(s, p, l1).0 == lex_step(s, q, l2).0,
        lex_step(s, p, l1).0 == Ok::<Option<TokenView>, LexFault>(Some(word_view(w))),
{
    lemma_word_token(s, p, w, l1);
    lemma_word_token(s, q, w, l2);
}

proof fn lemma_keyword_is_word(kw: KeyWord)
    ensures
        is_ident_word(kw_spelling(kw)),
        is_ident_start(kw_spelling(kw)[0]),
{
    match kw {
        KeyWord::Char => {},
        KeyWord::Short => {},
        KeyWord::Int => {},
        KeyWord::Void => {},
        KeyWord::Struct => {},
        KeyWord::If => {},
        KeyWord::Else => {},
        KeyWord::For => {},
        KeyWord::Continue => {},
        KeyWord::Break => {},
        KeyWord::Return => {},
        KeyWord::Sizeof => {},
        KeyWord::Align => {},
        KeyWord::Cdecl => {},
        KeyWord::Stdcall => {},
    }
}

/// A keyword's spelling at position `p`, not followed by a character that could
/// continue a word, scans as that keyword and never as an identifier.
pub proof fn lemma_keyword_scans_as_keyword(s: Seq<char>, p: int, kw: KeyWord, line: int)
    requires
        0 <= p,
        p + kw_spelling(kw).len() <= s.len(),
        s.subrange(p, p + kw_spelling(kw).len()) == kw_spelling(kw),
        p + kw_spelling(kw).len() == s.len() || !is_ident_char(s[p + kw_spelling(kw).len()]),
    ensures
        lex_step(s, p, line).0 == Ok::<Option<TokenView>, LexFault>(Some(TokenView::Kw(kw))),
{
    lemma_keyword_is_word(kw);
    lemma_word_token(s, p, kw_spelling(kw), line);
    lemma_keyword_of_spelling(kw);
}

/// The spelling of every operator, separator and keyword, scanned on its own, gives
/// back that same token and consumes it whole. The end-of-file marker is left out: its
/// spelling is descriptive text, not source text.
pub proof fn lemma_spelling_round_trip(t: Token, line: int)
    requires
        t.is_fixed(),
        t != Token::Sep(Seperator::Eof),
    ensures
        lex_step(t.spelling(), 0, line)
            == (Ok::<Option<TokenView>, LexFault>(Some(t@)), t.spelling().len() as int, line),
{
    let s = t.spelling();
    match t {
        Token::Kw(kw) => {
            lemma_keyword_is_word(kw);
            assert(s.subrange(0, s.len() as int) =~= s);
            lemma_word_token(s, 0, s, line);
            lemma_keyword_of_spelling(kw);
        },
        Token::Op(op) => {
            assert(blank(s, 0, line, false) == (true, 0int, line));
        },
        Token::Sep(sep) => {
            assert(blank(s, 0, line, false) == (true, 0int, line));
        },
        _ => {},
    }
}

proof fn lemma_comment_run(s: Seq<char>, p: int, body: Seq<char>, i: int, line: int, closed: bool)
    requires
        0 <= p,
        0 <= i <= body.len(),
        p + body.len() <= s.len(),
        s.subrange(p, p + body.len()) == body,
        no_close(body),
        closed ==> p + body.len() + 1 < s.len() && s[p + body.len()] == '*' && s[p + body.len() + 1] == '/',
        !closed ==> p + body.len() == s.len(),
    ensures
        comment_end(s, p + i, line) == (closed, if closed { p + body.len() + 2 } else { s.len() as int },
            line + newlines(body.subrange(i, body.len() as int))),
    decreases body.len() - i,
{
    assert(forall|j: int| 0 <= j < body.len() ==> s[p + j] == body[j]);
    if i < body.len() {
        lemma_comment_run(s, p, body, i + 1, if body[i] == '\n' { line + 1 } else { line }, closed);
        assert(body.subrange(i, body.len() as int).drop_first() =~= body.subrange(i + 1, body.len() as int));
        if i == body.len() - 1 && closed {
            assert(s[p + i + 1] == '*');
        }
    } else {
        assert(body.subrange(i, body.len() as int) =~= Seq::<char>::empty());
    }
}

/// Inside a block comment whose text up to the first `*/` is `body`, the comment
/// closes right after that `*/`, whatever follows (comments do not nest), and the
/// line count grows by the newlines of `body`.
pub proof fn lemma_comment_closes_at_first_end(s: Seq<char>, p: int, body: Seq<char>, line: int)
    requires
        0 <= p,
        p + body.len() + 1 < s.len(),
        s.subrange(p, p + body.len()) == body,
        no_close(body),
        s[p + body.len()] == '*',
        s[p + body.len() + 1] == '/',
    ensures
        comment_end(s, p, line) == (true, p + body.len() + 2, line + newlines(body)),
{
    lemma_comment_run(s, p, body, 0, line, true);
    assert(body.subrange(0, body.len() as int) =~= body);
}

/// Inside a block comment followed by no `*/` at all, the comment runs to the end of
/// input without closing, and the line count grows by the newlines to the end.
pub proof fn lemma_comment_runs_to_end(s: Seq<char>, p: int, line: int)
    requires
        0 <= p <= s.len(),
        no_close(s.subrange(p, s.len() as int)),
    ensures
        comment_end(s, p, line) == (false, s.len() as int, line + newlines(s.subrange(p, s.len() as int))),
{
    let body = s.subrange(p, s.len() as int);
    lemma_comment_run(s, p, body, 0, line, false);
    assert(body.subrange(0, body.len() as int) =~= body);
}

proof fn lemma_digits_end(s: Seq<char>, p: int, e: int)
    requires
        0 <= p <= e <= s.len(),
        forall|i: int| p <= i < e ==> is_digit(#[trigger] s[i]),
        e == s.len() || !is_digit(s[e]),
    ensures
        digits_end(s, p) == e,
    decreases e - p,
{
    if p < e {
        lemma_digits_end(s, p + 1, e);
    }
}

/// A run of digits followed by a dot and no further digit is one integer constant,
/// the value of the digits, and the dot is consumed with it.
pub proof fn lemma_number_with_dot(s: Seq<char>, p: int, e: int, line: int)
    requires
        0 <= p < e,
        e + 1 <= s.len(),
        forall|i: int| p <= i < e ==> is_digit(#[trigger] s[i]),
        s[e] == '.',
        e + 1 == s.len() || !is_digit(s[e + 1]),
    ensures
        lex_step(s, p, line) == (Ok::<Option<TokenView>, LexFault>(Some(TokenView::Int(saturate(digits_value(s, p, e))))), e + 1, line),
{
    lemma_digits_end(s, p + 1, e);
    lemma_digits_end(s, e + 1, e + 1);
    assert(is_digit(s[p]));
}

/// Inside a quoted literal the escape `\n` decodes to one newline character, not to a
/// backslash and an `n`, and does not count as a raw newline.
pub proof fn lemma_escape_newline(s: Seq<char>, i: int, quote: char, acc: Seq<char>, line: int)
    requires
        0 <= i,
        i + 1 < s.len(),
        s[i] == '\\',
        s[i + 1] == 'n',
        quote == '\'' || quote == '"',
    ensures
        literal(s, i, quote, acc, line) == literal(s, i + 2, quote, acc.push('\n'), line),
{
}

/// Inside a quoted literal a raw newline is kept and counts as a new line.
pub proof fn lemma_raw_newline_in_literal(s: Seq<char>, i: int, quote: char, acc: Seq<char>, line: int)
    requires
        0 <= i < s.len(),
        s[i] == '\n',
        quote == '\'' || quote == '"',
    ensures
        literal(s, i, quote, acc, line) == literal(s, i + 1, quote, acc.push('\n'), line + 1),
{
}

} // verus!
