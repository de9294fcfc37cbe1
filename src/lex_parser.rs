use vstd::prelude::*;
use vstd::math::min;
use crate::error::{CompileError, CompileErrorLevel, CompileStage};
use crate::text::{chars_of, chars_to_string, chars_equal, decimal, decimal_chars, digit_value};
use crate::token::{
    ConstVar, KeyWord, Operator, Seperator, Token, TokenView, fixed_of, fixed_spelling, is_fixed_view,
    keyword_of, kw_spelling, lemma_fixed_of_spelling,
};

verus! {

pub open spec fn is_white_space(c: char) -> bool {
    c == ' ' || c == '\t' || c == '\r' || c == '\n'
}

pub open spec fn is_ident_start(c: char) -> bool {
    ('a' <= c && c <= 'z') || ('A' <= c && c <= 'Z') || c == '_'
}

pub open spec fn is_digit(c: char) -> bool {
    '0' <= c && c <= '9'
}

pub open spec fn is_ident_char(c: char) -> bool {
    is_ident_start(c) || is_digit(c)
}

/// A non-empty run of identifier characters.
pub open spec fn is_ident_word(w: Seq<char>) -> bool {
    w.len() > 0 && forall|i: int| 0 <= i < w.len() ==> is_ident_char(#[trigger] w[i])
}

/// What a scanned word denotes: its keyword if it spells one, else an identifier.
pub open spec fn word_view(w: Seq<char>) -> TokenView {
    match keyword_of(w) {
        Some(kw) => TokenView::Kw(kw),
        None => TokenView::Ident(w),
    }
}

fn is_white_space_char(c: char) -> (r: bool)
    ensures
        r == is_white_space(c),
{
    c == ' ' || c == '\t' || c == '\r' || c == '\n'
}

fn is_ident_char_exec(c: char) -> (r: bool)
    ensures
        r == is_ident_char(c),
{
    ('a' <= c && c <= 'z') || ('A' <= c && c <= 'Z') || c == '_' || ('0' <= c && c <= '9')
}

fn is_digit_exec(c: char) -> (r: bool)
    ensures
        r == is_digit(c),
{
    '0' <= c && c <= '9'
}

fn digit_of(c: char) -> (r: u64)
    requires
        is_digit(c),
    ensures
        r == digit_value(c),
        r < 10,
{
    (c as u32 - '0' as u32) as u64
}

proof fn lemma_saturating_step(v: int, d: int, cap: int)
    requires
        v >= 0,
        0 <= d < 10,
        cap > 0,
    ensures
        min(v * 10 + d, cap) == if min(v, cap) >= cap { cap } else { min(min(v, cap) * 10 + d, cap) },
{
    if v >= cap {
        assert(v * 10 + d >= cap) by (nonlinear_arith)
            requires v >= cap, cap > 0, d >= 0;
    }
}

fn escape_char(c: char) -> (r: Option<char>)
    ensures
        r == escape_of(c),
{
    if c == '0' {
        Some('\0')
    } else if c == 't' {
        Some('\t')
    } else if c == 'n' {
        Some('\n')
    } else if c == 'r' {
        Some('\r')
    } else if c == '\'' || c == '"' || c == '\\' {
        Some(c)
    } else {
        None
    }
}

fn is_ident_start_exec(c: char) -> (r: bool)
    ensures
        r == is_ident_start(c),
{
    ('a' <= c && c <= 'z') || ('A' <= c && c <= 'Z') || c == '_'
}

fn is_punct_char(c: char) -> (r: bool)
    ensures
        r == punct_view(c) is Some,
{
    c == '+' || c == '*' || c == '/' || c == '%' || c == '&' || c == ';' || c == ','
        || c == '(' || c == ')' || c == '[' || c == ']' || c == '{' || c == '}'
}

/// The kinds of malformed input.
#[derive(Clone, Copy, Debug, PartialEq, Eq, Structural)]
pub enum LexFault {
    UnterminatedComment,
    UnterminatedLiteral,
    UnknownEscape(char),
    InvalidCharLiteral,
    MalformedEllipsis,
    UnsupportedOperator,
    UnrecognizedCharacter(char),
}

/// Skipping of whitespace and block comments from position `p` of `s`; `in_comment`
/// says whether `p` lies inside a comment. Gives whether it ended outside any comment,
/// the position reached and the line count there.
pub open spec fn blank(s: Seq<char>, p: int, line: int, in_comment: bool) -> (bool, int, int)
    decreases s.len() - p,
{
    if p >= s.len() {
        (!in_comment, p, line)
    } else if in_comment {
        if s[p] == '\n' {
            blank(s, p + 1, line + 1, true)
        } else if s[p] == '*' && p + 1 < s.len() && s[p + 1] == '/' {
            blank(s, p + 2, line, false)
        } else {
            blank(s, p + 1, line, true)
        }
    } else if is_white_space(s[p]) {
        blank(s, p + 1, if s[p] == '\n' { line + 1 } else { line }, false)
    } else if s[p] == '/' && p + 1 < s.len() && s[p + 1] == '*' {
        blank(s, p + 2, line, true)
    } else {
        (true, p, line)
    }
}

/// End of the run of identifier characters that starts at `p`.
pub open spec fn ident_end(s: Seq<char>, p: int) -> int
    decreases s.len() - p,
{
    if 0 <= p < s.len() && is_ident_char(s[p]) {
        ident_end(s, p + 1)
    } else {
        p
    }
}

/// End of the run of digits that starts at `p`.
pub open spec fn digits_end(s: Seq<char>, p: int) -> int
    decreases s.len() - p,
{
    if 0 <= p < s.len() && is_digit(s[p]) {
        digits_end(s, p + 1)
    } else {
        p
    }
}

/// The number written by the digits `s[p..q]`.
pub open spec fn digits_value(s: Seq<char>, p: int, q: int) -> nat
    decreases q - p,
{
    if q <= p {
        0
    } else {
        digits_value(s, p, q - 1) * 10 + digit_value(s[q - 1])
    }
}

/// `v` as a 32-bit signed integer, saturated at the largest one.
pub open spec fn saturate(v: nat) -> i32 {
    if v > i32::MAX { i32::MAX } else { v as i32 }
}

/// The character an escape sequence `\c` stands for.
pub open spec fn escape_of(c: char) -> Option<char> {
    if c == '0' { Some('\0') }
    else if c == 't' { Some('\t') }
    else if c == 'n' { Some('\n') }
    else if c == 'r' { Some('\r') }
    else if c == '\'' || c == '"' || c == '\\' { Some(c) }
    else { None }
}

/// Decoding of a quoted literal from position `i` at line `line`, closed by `quote`,
/// with `acc` decoded so far. Gives the decoded text or the fault, the position
/// reached and the line there: each raw newline inside the literal counts.
pub open spec fn literal(s: Seq<char>, i: int, quote: char, acc: Seq<char>, line: int) -> (Result<Seq<char>, LexFault>, int, int)
    decreases s.len() - i,
{
    if i >= s.len() {
        (Err(LexFault::UnterminatedLiteral), i, line)
    } else if s[i] == quote {
        (Ok(acc), i + 1, line)
    } else if s[i] == '\\' {
        if i + 1 >= s.len() {
            (Err(LexFault::UnterminatedLiteral), i + 1, line)
        } else {
            match escape_of(s[i + 1]) {
                Some(d) => literal(s, i + 2, quote, acc.push(d), line),
                None => (Err(LexFault::UnknownEscape(s[i + 1])), i + 1, line),
            }
        }
    } else {
        literal(s, i + 1, quote, acc.push(s[i]), if s[i] == '\n' { line + 1 } else { line })
    }
}

/// The operator or separator of a single punctuation character.
pub open spec fn punct_view(c: char) -> Option<TokenView> {
    if c == '+' { Some(TokenView::Op(Operator::Plus)) }
    else if c == '*' { Some(TokenView::Op(Operator::Star)) }
    else if c == '/' { Some(TokenView::Op(Operator::Divide)) }
    else if c == '%' { Some(TokenView::Op(Operator::Mod)) }
    else if c == '&' { Some(TokenView::Op(Operator::And)) }
    else if c == ';' { Some(TokenView::Sep(Seperator::Semicolon)) }
    else if c == ',' { Some(TokenView::Sep(Seperator::Comma)) }
    else if c == '(' { Some(TokenView::Sep(Seperator::Openpa)) }
    else if c == ')' { Some(TokenView::Sep(Seperator::Closepa)) }
    else if c == '[' { Some(TokenView::Sep(Seperator::Openbr)) }
    else if c == ']' { Some(TokenView::Sep(Seperator::Closeba)) }
    else if c == '{' { Some(TokenView::Sep(Seperator::Begin)) }
    else if c == '}' { Some(TokenView::Sep(Seperator::End)) }
    else { None }
}

/// `a` if `s[p]` is `next`, else `b`; the position after the token.
pub open spec fn either(s: Seq<char>, p: int, next: char, a: TokenView, b: TokenView) -> (Result<Option<TokenView>, LexFault>, int) {
    if p < s.len() && s[p] == next {
        (Ok(Some(a)), p + 1)
    } else {
        (Ok(Some(b)), p)
    }
}

/// The constant of a literal quoted by `quote`, from its decoding `lit`.
pub open spec fn quoted(quote: char, lit: (Result<Seq<char>, LexFault>, int, int)) -> (Result<Option<TokenView>, LexFault>, int, int) {
    match lit.0 {
        Ok(b) => if quote == '"' {
            (Ok(Some(TokenView::Str(b))), lit.1, lit.2)
        } else if b.len() == 1 {
            (Ok(Some(TokenView::Char(b[0]))), lit.1, lit.2)
        } else {
            (Err(LexFault::InvalidCharLiteral), lit.1, lit.2)
        },
        Err(f) => (Err(f), lit.1, lit.2),
    }
}

/// The token that starts at position `p` (`p < s.len()`, not blank) at line `line`,
/// the position after it and the line there.
pub open spec fn scan_token(s: Seq<char>, p: int, line: int) -> (Result<Option<TokenView>, LexFault>, int, int) {
    let c = s[p];
    if c == '\'' || c == '"' {
        quoted(c, literal(s, p + 1, c, Seq::empty(), line))
    } else {
        let (r, e) = scan_plain(s, p);
        (r, e, line)
    }
}

/// The token other than a quoted literal that starts at position `p`, and the
/// position after it.
pub open spec fn scan_plain(s: Seq<char>, p: int) -> (Result<Option<TokenView>, LexFault>, int) {
    let c = s[p];
    if is_ident_start(c) {
        let e = ident_end(s, p + 1);
        (Ok(Some(word_view(s.subrange(p, e)))), e)
    } else if is_digit(c) {
        let e = digits_end(s, p + 1);
        let v = TokenView::Int(saturate(digits_value(s, p, e)));
        if e < s.len() && s[e] == '.' {
            (Ok(Some(v)), digits_end(s, e + 1))
        } else {
            (Ok(Some(v)), e)
        }
    } else if punct_view(c) is Some {
        (Ok(punct_view(c)), p + 1)
    } else if c == '-' {
        either(s, p + 1, '>', TokenView::Op(Operator::Arrow), TokenView::Op(Operator::Minus))
    } else if c == '=' {
        either(s, p + 1, '=', TokenView::Op(Operator::Eq), TokenView::Op(Operator::Assign))
    } else if c == '>' {
        either(s, p + 1, '=', TokenView::Op(Operator::Geq), TokenView::Op(Operator::Gt))
    } else if c == '<' {
        either(s, p + 1, '=', TokenView::Op(Operator::Leq), TokenView::Op(Operator::Lt))
    } else if c == '!' {
        if p + 1 < s.len() && s[p + 1] == '=' {
            (Ok(Some(TokenView::Op(Operator::Neq))), p + 2)
        } else {
            (Err(LexFault::UnsupportedOperator), p + 1)
        }
    } else if c == '.' {
        if p + 1 < s.len() && s[p + 1] == '.' {
            if p + 2 < s.len() && s[p + 2] == '.' {
                (Ok(Some(TokenView::Sep(Seperator::Ellipsis))), p + 3)
            } else {
                (Err(LexFault::MalformedEllipsis), p + 2)
            }
        } else {
            (Ok(Some(TokenView::Op(Operator::Dot))), p + 1)
        }
    } else {
        (Err(LexFault::UnrecognizedCharacter(c)), p + 1)
    }
}

/// One step of the scanner from position `p` at line `line`: the outcome, the position
/// reached and the line count there.
pub open spec fn lex_step(s: Seq<char>, p: int, line: int) -> (Result<Option<TokenView>, LexFault>, int, int) {
    let (closed, q, l) = blank(s, p, line, false);
    if !closed {
        (Err(LexFault::UnterminatedComment), q, l)
    } else if q >= s.len() {
        (Ok(None), q, l)
    } else {
        scan_token(s, q, l)
    }
}

/// The end of the whitespace run that starts at `p`, and the line count there.
pub open spec fn ws_end(s: Seq<char>, p: int, line: int) -> (int, int)
    decreases s.len() - p,
{
    if 0 <= p < s.len() && is_white_space(s[p]) {
        ws_end(s, p + 1, if s[p] == '\n' { line + 1 } else { line })
    } else {
        (p, line)
    }
}

/// The inside of a block comment from position `i` at line `line`: whether a `*/`
/// closes it, the position right after that first `*/` (or the end of input), and
/// the line count there.
pub open spec fn comment_end(s: Seq<char>, i: int, line: int) -> (bool, int, int)
    decreases s.len() - i,
{
    if i >= s.len() {
        (false, i, line)
    } else if s[i] == '*' && i + 1 < s.len() && s[i + 1] == '/' {
        (true, i + 2, line)
    } else {
        comment_end(s, i + 1, if s[i] == '\n' { line + 1 } else { line })
    }
}

proof fn lemma_blank_ws(s: Seq<char>, p: int, line: int)
    requires
        0 <= p,
    ensures
        blank(s, p, line, false) == blank(s, ws_end(s, p, line).0, ws_end(s, p, line).1, false),
        ws_end(s, p, line).0 >= p,
        p < s.len() && is_white_space(s[p]) ==> ws_end(s, p, line).0 > p,
    decreases s.len() - p,
{
    if p < s.len() && is_white_space(s[p]) {
        lemma_blank_ws(s, p + 1, if s[p] == '\n' { line + 1 } else { line });
    }
}

proof fn lemma_blank_comment(s: Seq<char>, i: int, line: int)
    requires
        0 <= i,
    ensures
        blank(s, i, line, true) == ({
            let (closed, e, l) = comment_end(s, i, line);
            if closed { blank(s, e, l, false) } else { (false, e, l) }
        }),
    decreases s.len() - i,
{
    if i < s.len() {
        lemma_blank_comment(s, i + 1, if s[i] == '\n' { line + 1 } else { line });
    }
}

/// The message that reports `f` found at line `line`.
pub open spec fn fault_message(f: LexFault, line: nat) -> Seq<char> {
    match f {
        LexFault::UnterminatedComment => "一直到文件尾未看到配对的注释结束符"@,
        LexFault::UnterminatedLiteral => "引号不闭合: line "@ + decimal(line),
        LexFault::UnknownEscape(c) => "未识别的转义字符: "@ + seq![c] + ": line "@ + decimal(line),
        LexFault::InvalidCharLiteral => "常量字符长度大于1"@,
        LexFault::MalformedEllipsis => "省略号拼写错误: line "@ + decimal(line),
        LexFault::UnsupportedOperator => "暂不支持 '!' (非操作符): line "@ + decimal(line),
        LexFault::UnrecognizedCharacter(c) => "不认识的字符: "@ + seq![c] + ": line "@ + decimal(line),
    }
}

/// The error that reports `f` found at line `line`.
pub fn fault_error(f: LexFault, line: usize) -> (e: CompileError)
    ensures
        e.is_compile_stage_error(),
        e.content@ == fault_message(f, line as nat),
{
    let mut v: Vec<char> = match f {
        LexFault::UnterminatedComment => chars_of("一直到文件尾未看到配对的注释结束符"),
        LexFault::UnterminatedLiteral => chars_of("引号不闭合: line "),
        LexFault::UnknownEscape(_) => chars_of("未识别的转义字符: "),
        LexFault::InvalidCharLiteral => chars_of("常量字符长度大于1"),
        LexFault::MalformedEllipsis => chars_of("省略号拼写错误: line "),
        LexFault::UnsupportedOperator => chars_of("暂不支持 '!' (非操作符): line "),
        LexFault::UnrecognizedCharacter(_) => chars_of("不认识的字符: "),
    };
    match f {
        LexFault::UnknownEscape(c) | LexFault::UnrecognizedCharacter(c) => {
            v.push(c);
            let mut tail = chars_of(": line ");
            v.append(&mut tail);
        },
        _ => {},
    }
    match f {
        LexFault::UnterminatedComment | LexFault::InvalidCharLiteral => {},
        _ => {
            let mut n = decimal_chars(line as u64);
            v.append(&mut n);
        },
    }
    proof {
        assert(v@ =~= fault_message(f, line as nat));
    }
    CompileError { level: CompileErrorLevel::Error, stage: CompileStage::Compile, content: chars_to_string(&v) }
}

/// A table entry is sound: a fixed token under its own spelling, or an identifier
/// under its name, a word that spells no fixed token.
pub open spec fn entry_ok(k: Seq<char>, t: TokenView) -> bool {
    (is_fixed_view(t) && fixed_of(k) == Some(t))
        || (t == TokenView::Ident(k) && is_ident_word(k) && fixed_of(k) is None)
}

pub open spec fn table_ok(t: Seq<(Vec<char>, Token)>) -> bool {
    forall|i: int| 0 <= i < t.len() ==> entry_ok(#[trigger] t[i].0@, t[i].1@)
}

/// No two entries share a key.
pub open spec fn keys_unique(t: Seq<(Vec<char>, Token)>) -> bool {
    forall|i: int, j: int|
        #![trigger t[i], t[j]]
        0 <= i < t.len() && 0 <= j < t.len() && i != j ==> t[i].0@ != t[j].0@
}

/// Every entry holds a fixed token.
pub open spec fn all_fixed(t: Seq<(Vec<char>, Token)>) -> bool {
    forall|i: int| 0 <= i < t.len() ==> is_fixed_view(#[trigger] t[i].1@)
}

pub open spec fn has_key(t: Seq<(Vec<char>, Token)>, k: Seq<char>) -> bool {
    exists|i: int| 0 <= i < t.len() && #[trigger] t[i].0@ == k
}

pub open spec fn has_entry(t: Seq<(Vec<char>, Token)>, k: Seq<char>, v: TokenView) -> bool {
    exists|i: int| 0 <= i < t.len() && #[trigger] t[i].0@ == k && t[i].1@ == v
}

/// Every fixed token is in the table under its spelling.
pub open spec fn fixed_present(t: Seq<(Vec<char>, Token)>) -> bool {
    forall|v: TokenView| is_fixed_view(v) ==> #[trigger] has_entry(t, fixed_spelling(v), v)
}

/// The token that the table holds under `k`, if any.
pub open spec fn table_lookup(t: Seq<(Vec<char>, Token)>, k: Seq<char>) -> Option<TokenView> {
    if has_key(t, k) {
        let i = choose|i: int| 0 <= i < t.len() && #[trigger] t[i].0@ == k;
        Some(t[i].1@)
    } else {
        None
    }
}

proof fn lemma_lookup(t: Seq<(Vec<char>, Token)>, i: int)
    requires
        keys_unique(t),
        0 <= i < t.len(),
    ensures
        table_lookup(t, t[i].0@) == Some(t[i].1@),
{
    assert(has_key(t, t[i].0@));
    let j = choose|j: int| 0 <= j < t.len() && #[trigger] t[j].0@ == t[i].0@;
    assert(t[j] == t[j] && t[i] == t[i]);
}

proof fn lemma_has_entry_kept(before: Seq<(Vec<char>, Token)>, after: Seq<(Vec<char>, Token)>, k: Seq<char>, v: TokenView)
    requires
        has_entry(before, k, v),
        after.len() >= before.len(),
        forall|i: int| 0 <= i < before.len() ==> #[trigger] after[i] == before[i],
    ensures
        has_entry(after, k, v),
{
    let e = choose|e: int| 0 <= e < before.len() && #[trigger] before[e].0@ == k && before[e].1@ == v;
    assert(after[e] == before[e]);
}

/// An identifier-shaped word spells a fixed token only when it spells a keyword.
proof fn lemma_word_fixed(w: Seq<char>)
    requires
        is_ident_word(w),
    ensures
        fixed_of(w) == match keyword_of(w) {
            Some(kw) => Some(TokenView::Kw(kw)),
            None => None::<TokenView>,
        },
{
    assert(is_ident_char(w[0]));
    if w.len() == 11 {
        assert(is_ident_char(w[3]));
    }
}

proof fn lemma_not_keyword(w: Seq<char>)
    requires
        forall|kw: KeyWord| w != #[trigger] kw_spelling(kw),
    ensures
        keyword_of(w) is None,
{
}

/// `v` is the view of some token of `r`.
pub open spec fn holds_token(r: Seq<Token>, v: TokenView) -> bool {
    exists|j: int| 0 <= j < r.len() && #[trigger] r[j]@ == v
}

/// Every operator.
fn operator_tokens() -> (r: Vec<Token>)
    ensures
        forall|j: int| 0 <= j < r@.len() ==> is_fixed_view(#[trigger] r@[j]@),
        forall|x: Operator| #[trigger] holds_token(r@, TokenView::Op(x)),
{
    let r = vec![
        Token::Op(Operator::Plus),
        Token::Op(Operator::Minus),
        Token::Op(Operator::Star),
        Token::Op(Operator::Divide),
        Token::Op(Operator::Mod),
        Token::Op(Operator::Eq),
        Token::Op(Operator::Neq),
        Token::Op(Operator::Lt),
        Token::Op(Operator::Leq),
        Token::Op(Operator::Gt),
        Token::Op(Operator::Geq),
        Token::Op(Operator::Assign),
        Token::Op(Operator::Arrow),
        Token::Op(Operator::Dot),
        Token::Op(Operator::And),
    ];
    assert forall|x: Operator| #[trigger] holds_token(r@, TokenView::Op(x)) by {
        let j: int = match x {
            Operator::Plus => 0,
            Operator::Minus => 1,
            Operator::Star => 2,
            Operator::Divide => 3,
            Operator::Mod => 4,
            Operator::Eq => 5,
            Operator::Neq => 6,
            Operator::Lt => 7,
            Operator::Leq => 8,
            Operator::Gt => 9,
            Operator::Geq => 10,
            Operator::Assign => 11,
            Operator::Arrow => 12,
            Operator::Dot => 13,
            Operator::And => 14,
        };
        assert(r@[j]@ == TokenView::Op(x));
    }
    r
}

/// Every separator.
fn separator_tokens() -> (r: Vec<Token>)
    ensures
        forall|j: int| 0 <= j < r@.len() ==> is_fixed_view(#[trigger] r@[j]@),
        forall|x: Seperator| #[trigger] holds_token(r@, TokenView::Sep(x)),
{
    let r = vec![
        Token::Sep(Seperator::Openpa),
        Token::Sep(Seperator::Closepa),
        Token::Sep(Seperator::Openbr),
        Token::Sep(Seperator::Closeba),
        Token::Sep(Seperator::Begin),
        Token::Sep(Seperator::End),
        Token::Sep(Seperator::Semicolon),
        Token::Sep(Seperator::Comma),
        Token::Sep(Seperator::Ellipsis),
        Token::Sep(Seperator::Eof),
    ];
    assert forall|x: Seperator| #[trigger] holds_token(r@, TokenView::Sep(x)) by {
        let j: int = match x {
            Seperator::Openpa => 0,
            Seperator::Closepa => 1,
            Seperator::Openbr => 2,
            Seperator::Closeba => 3,
            Seperator::Begin => 4,
            Seperator::End => 5,
            Seperator::Semicolon => 6,
            Seperator::Comma => 7,
            Seperator::Ellipsis => 8,
            Seperator::Eof => 9,
        };
        assert(r@[j]@ == TokenView::Sep(x));
    }
    r
}

/// Every keyword.
fn keyword_tokens() -> (r: Vec<Token>)
    ensures
        forall|j: int| 0 <= j < r@.len() ==> is_fixed_view(#[trigger] r@[j]@),
        forall|x: KeyWord| #[trigger] holds_token(r@, TokenView::Kw(x)),
{
    let r = vec![
        Token::Kw(KeyWord::Char),
        Token::Kw(KeyWord::Short),
        Token::Kw(KeyWord::Int),
        Token::Kw(KeyWord::Void),
        Token::Kw(KeyWord::Struct),
        Token::Kw(KeyWord::If),
        Token::Kw(KeyWord::Else),
        Token::Kw(KeyWord::For),
        Token::Kw(KeyWord::Continue),
        Token::Kw(KeyWord::Break),
        Token::Kw(KeyWord::Return),
        Token::Kw(KeyWord::Sizeof),
        Token::Kw(KeyWord::Align),
        Token::Kw(KeyWord::Cdecl),
        Token::Kw(KeyWord::Stdcall),
    ];
    assert forall|x: KeyWord| #[trigger] holds_token(r@, TokenView::Kw(x)) by {
        let j: int = match x {
            KeyWord::Char => 0,
            KeyWord::Short => 1,
            KeyWord::Int => 2,
            KeyWord::Void => 3,
            KeyWord::Struct => 4,
            KeyWord::If => 5,
            KeyWord::Else => 6,
            KeyWord::For => 7,
            KeyWord::Continue => 8,
            KeyWord::Break => 9,
            KeyWord::Return => 10,
            KeyWord::Sizeof => 11,
            KeyWord::Align => 12,
            KeyWord::Cdecl => 13,
            KeyWord::Stdcall => 14,
        };
        assert(r@[j]@ == TokenView::Kw(x));
    }
    r
}

/// Index of the entry of `table` under `key`, if any.
fn find_entry(table: &Vec<(Vec<char>, Token)>, key: &Vec<char>) -> (r: Option<usize>)
    ensures
        match r {
            Some(i) => i < table@.len() && table@[i as int].0@ == key@,
            None => !has_key(table@, key@),
        },
{
    let mut i: usize = 0;
    while i < table.len()
        invariant
            i <= table@.len(),
            forall|j: int| 0 <= j < i ==> table@[j].0@ != key@,
        decreases table@.len() - i,
    {
        if chars_equal(&table[i].0, key) {
            return Some(i);
        }
        i = i + 1;
    }
    None
}

/// Adds the fixed token `t` under its spelling, first writer winning.
fn insert_fixed(table: &mut Vec<(Vec<char>, Token)>, t: Token)
    requires
        table_ok(old(table)@),
        keys_unique(old(table)@),
        all_fixed(old(table)@),
        is_fixed_view(t@),
    ensures
        table_ok(final(table)@),
        keys_unique(final(table)@),
        all_fixed(final(table)@),
        has_entry(final(table)@, fixed_spelling(t@), t@),
        final(table)@.len() >= old(table)@.len(),
        forall|i: int| 0 <= i < old(table)@.len() ==> #[trigger] final(table)@[i] == old(table)@[i],
{
    let text = t.get_string();
    let key = chars_of(text.as_str());
    proof {
        lemma_fixed_of_spelling(t@);
    }
    match find_entry(table, &key) {
        Some(i) => {
            assert(entry_ok(table@[i as int].0@, table@[i as int].1@));
        },
        None => {
            let ghost k = key@;
            let ghost n = table@.len();
            let ghost v = t@;
            table.push((key, t));
            assert(table@[n as int].0@ == k && table@[n as int].1@ == v);
        },
    }
}

/// Adds every token of `ts`, each a fixed token, under its spelling.
fn insert_all(table: &mut Vec<(Vec<char>, Token)>, ts: &Vec<Token>)
    requires
        table_ok(old(table)@),
        keys_unique(old(table)@),
        all_fixed(old(table)@),
        forall|j: int| 0 <= j < ts@.len() ==> is_fixed_view(#[trigger] ts@[j]@),
    ensures
        table_ok(final(table)@),
        keys_unique(final(table)@),
        all_fixed(final(table)@),
        forall|j: int| 0 <= j < ts@.len() ==> #[trigger] has_entry(final(table)@, fixed_spelling(ts@[j]@), ts@[j]@),
        final(table)@.len() >= old(table)@.len(),
        forall|i: int| 0 <= i < old(table)@.len() ==> #[trigger] final(table)@[i] == old(table)@[i],
{
    let mut i: usize = 0;
    while i < ts.len()
        invariant
            i <= ts@.len(),
            forall|j: int| 0 <= j < ts@.len() ==> is_fixed_view(#[trigger] ts@[j]@),
            table_ok(table@),
            keys_unique(table@),
            all_fixed(table@),
            forall|j: int| 0 <= j < i ==> #[trigger] has_entry(table@, fixed_spelling(ts@[j]@), ts@[j]@),
            table@.len() >= old(table)@.len(),
            forall|k: int| 0 <= k < old(table)@.len() ==> #[trigger] table@[k] == old(table)@[k],
        decreases ts@.len() - i,
    {
        let ghost before = table@;
        let t = ts[i].duplicate();
        insert_fixed(table, t);
        assert forall|j: int| 0 <= j < i + 1 implies #[trigger] has_entry(table@, fixed_spelling(ts@[j]@), ts@[j]@) by {
            if j < i {
                lemma_has_entry_kept(before, table@, fixed_spelling(ts@[j]@), ts@[j]@);
            }
        }
        i = i + 1;
    }
}

/// A scanner over a character sequence: the input, the position of the current
/// character, the line count, and the table of spellings.
#[derive(Clone, Debug)]
pub struct LexParser {
    word_table: Vec<(Vec<char>, Token)>,
    input: Vec<char>,
    pos: usize,
    line_num: usize,
}

impl LexParser {
    /// The characters being scanned.
    pub closed spec fn source(&self) -> Seq<char> {
        self.input@
    }

    /// The position of the current character.
    pub closed spec fn position(&self) -> int {
        self.pos as int
    }

    /// The line of the current character.
    pub closed spec fn line(&self) -> int {
        self.line_num as int
    }

    pub closed spec fn wf(&self) -> bool {
        &&& self.pos <= self.input@.len()
        &&& self.input@.len() < usize::MAX
        &&& self.line_num <= self.pos + 1
        &&& table_ok(self.word_table@)
        &&& keys_unique(self.word_table@)
        &&& fixed_present(self.word_table@)
    }

    /// The token that the table of spellings holds under `k`, if any.
    pub closed spec fn lookup(&self, k: Seq<char>) -> Option<TokenView> {
        table_lookup(self.word_table@, k)
    }

    /// A scanner at the start of `source`, on line 1.
    pub fn new(source: &str) -> (r: Self)
        requires
            source@.len() < usize::MAX,
        ensures
            r.wf(),
            r.source() == source@,
            r.position() == 0,
            r.line() == 1,
            forall|v: TokenView| is_fixed_view(v) ==> #[trigger] r.lookup(fixed_spelling(v)) == Some(v),
            forall|k: Seq<char>| #[trigger] r.lookup(k) is Some ==> is_fixed_view(r.lookup(k)->0),
    {
        let mut word_table: Vec<(Vec<char>, Token)> = Vec::new();
        let ops = operator_tokens();
        insert_all(&mut word_table, &ops);
        let ghost t1 = word_table@;
        let seps = separator_tokens();
        insert_all(&mut word_table, &seps);
        let ghost t2 = word_table@;
        let kws = keyword_tokens();
        insert_all(&mut word_table, &kws);
        proof {
            let t = word_table@;
            assert forall|v: TokenView| is_fixed_view(v) implies #[trigger] has_entry(t, fixed_spelling(v), v) by {
                match v {
                    TokenView::Op(op) => {
                        assert(holds_token(ops@, v));
                        let j = choose|j: int| 0 <= j < ops@.len() && #[trigger] ops@[j]@ == TokenView::Op(op);
                        assert(has_entry(t1, fixed_spelling(ops@[j]@), ops@[j]@));
                        lemma_has_entry_kept(t1, t2, fixed_spelling(v), v);
                        lemma_has_entry_kept(t2, t, fixed_spelling(v), v);
                    },
                    TokenView::Sep(sep) => {
                        assert(holds_token(seps@, v));
                        let j = choose|j: int| 0 <= j < seps@.len() && #[trigger] seps@[j]@ == TokenView::Sep(sep);
                        assert(has_entry(t2, fixed_spelling(seps@[j]@), seps@[j]@));
                        lemma_has_entry_kept(t2, t, fixed_spelling(v), v);
                    },
                    TokenView::Kw(kw) => {
                        assert(holds_token(kws@, v));
                        let j = choose|j: int| 0 <= j < kws@.len() && #[trigger] kws@[j]@ == TokenView::Kw(kw);
                        assert(has_entry(t, fixed_spelling(kws@[j]@), kws@[j]@));
                    },
                    _ => {},
                }
            }
            assert forall|v: TokenView| is_fixed_view(v) implies #[trigger] table_lookup(t, fixed_spelling(v)) == Some(v) by {
                assert(has_entry(t, fixed_spelling(v), v));
                let e = choose|e: int| 0 <= e < t.len() && #[trigger] t[e].0@ == fixed_spelling(v) && t[e].1@ == v;
                lemma_lookup(t, e);
            }
            assert forall|k: Seq<char>| #[trigger] table_lookup(t, k) is Some implies is_fixed_view(table_lookup(t, k)->0) by {
                if has_key(t, k) {
                    let i = choose|i: int| 0 <= i < t.len() && #[trigger] t[i].0@ == k;
                    assert(is_fixed_view(t[i].1@));
                }
            }
        }
        let input = chars_of(source);
        LexParser { word_table, input, pos: 0, line_num: 1 }
    }

    fn current_char(&self) -> (r: Option<char>)
        requires
            self.wf(),
        ensures
            r == if self.pos < self.input@.len() { Some(self.input@[self.pos as int]) } else { None::<char> },
    {
        if self.pos < self.input.len() {
            Some(self.input[self.pos])
        } else {
            None
        }
    }

    /// Steps past the current character, if any.
    fn move_char(&mut self)
        requires
            old(self).wf(),
        ensures
            final(self).wf(),
            final(self).input == old(self).input,
            final(self).word_table == old(self).word_table,
            final(self).line_num == old(self).line_num,
            final(self).pos == if old(self).pos < old(self).input@.len() { old(self).pos + 1 } else { old(self).pos as int },
    {
        if self.pos < self.input.len() {
            self.pos = self.pos + 1;
        }
    }

    /// Steps past a run of whitespace, counting its newlines.
    fn skip_white_space(&mut self)
        requires
            old(self).wf(),
        ensures
            final(self).wf(),
            final(self).input == old(self).input,
            final(self).word_table == old(self).word_table,
            (final(self).pos as int, final(self).line_num as int)
                == ws_end(old(self).input@, old(self).pos as int, old(self).line_num as int),
    {
        while self.pos < self.input.len() && is_white_space_char(self.input[self.pos])
            invariant
                self.wf(),
                self.input == old(self).input,
                self.word_table == old(self).word_table,
                ws_end(self.input@, self.pos as int, self.line_num as int)
                    == ws_end(old(self).input@, old(self).pos as int, old(self).line_num as int),
            decreases self.input@.len() - self.pos,
        {
            if self.input[self.pos] == '\n' {
                self.line_num = self.line_num + 1;
            }
            self.pos = self.pos + 1;
        }
    }

    /// Steps past a block comment that starts at the current character, up to right
    /// after the first `*/` that follows its opening; comments do not nest. Fails, at
    /// the end of input, when no `*/` follows.
    fn parse_comment(&mut self) -> (r: Result<(), CompileError>)
        requires
            old(self).wf(),
            old(self).pos + 1 < old(self).input@.len(),
            old(self).input@[old(self).pos as int] == '/',
            old(self).input@[old(self).pos + 1] == '*',
        ensures
            final(self).wf(),
            final(self).input == old(self).input,
            final(self).word_table == old(self).word_table,
            (r is Ok, final(self).pos as int, final(self).line_num as int)
                == comment_end(old(self).input@, old(self).pos + 2, old(self).line_num as int),
            final(self).pos >= old(self).pos + 2,
            r matches Err(e) ==> e.content@ == fault_message(LexFault::UnterminatedComment, final(self).line_num as nat),
            r matches Err(e) ==> e.is_compile_stage_error(),
    {
        self.pos = self.pos + 2;
        loop
            invariant
                self.wf(),
                self.input == old(self).input,
                self.word_table == old(self).word_table,
                self.pos >= old(self).pos + 2,
                comment_end(self.input@, self.pos as int, self.line_num as int)
                    == comment_end(old(self).input@, old(self).pos + 2, old(self).line_num as int),
            decreases self.input@.len() - self.pos,
        {
            if self.pos >= self.input.len() {
                return Err(fault_error(LexFault::UnterminatedComment, self.line_num));
            }
            let c = self.input[self.pos];
            if c == '\n' {
                self.line_num = self.line_num + 1;
                self.pos = self.pos + 1;
            } else if c == '*' && self.pos + 1 < self.input.len() && self.input[self.pos + 1] == '/' {
                self.pos = self.pos + 2;
                return Ok(());
            } else {
                self.pos = self.pos + 1;
            }
        }
    }

    /// The token that the word `w` denotes: the entry of the table under `w`, or a new
    /// identifier entry when there is none.
    fn resolve_or_intern(&mut self, w: Vec<char>) -> (r: Token)
        requires
            old(self).wf(),
            is_ident_word(w@),
        ensures
            final(self).wf(),
            final(self).input == old(self).input,
            final(self).pos == old(self).pos,
            final(self).line_num == old(self).line_num,
            r@ == word_view(w@),
            final(self).lookup(w@) == Some(r@),
    {
        proof {
            lemma_word_fixed(w@);
        }
        match find_entry(&self.word_table, &w) {
            Some(i) => {
                let t = self.word_table[i].1.duplicate();
                proof {
                    assert(entry_ok(self.word_table@[i as int].0@, t@));
                    lemma_lookup(self.word_table@, i as int);
                }
                t
            },
            None => {
                proof {
                    assert forall|kw: KeyWord| w@ != #[trigger] kw_spelling(kw) by {
                        assert(has_entry(self.word_table@, fixed_spelling(TokenView::Kw(kw)), TokenView::Kw(kw)));
                    }
                    lemma_not_keyword(w@);
                }
                let name = chars_to_string(&w);
                let t = Token::Ident(name);
                let copy = t.duplicate();
                let ghost before = self.word_table@;
                let ghost k = w@;
                self.word_table.push((w, copy));
                proof {
                    let after = self.word_table@;
                    assert(after[before.len() as int].0@ == k);
                    assert forall|v: TokenView| is_fixed_view(v) implies #[trigger] has_entry(after, fixed_spelling(v), v) by {
                        assert(has_entry(before, fixed_spelling(v), v));
                        lemma_has_entry_kept(before, after, fixed_spelling(v), v);
                    }
                    lemma_lookup(after, before.len() as int);
                }
                t
            },
        }
    }

    /// The operator or separator spelled by the punctuation character `c`, as the
    /// table of spellings holds it.
    fn resolve_punct(&self, c: char) -> (r: Token)
        requires
            self.wf(),
            punct_view(c) is Some,
        ensures
            Some(r@) == punct_view(c),
    {
        let key: Vec<char> = vec![c];
        match find_entry(&self.word_table, &key) {
            Some(i) => {
                let t = self.word_table[i].1.duplicate();
                proof {
                    assert(entry_ok(self.word_table@[i as int].0@, t@));
                    assert(!is_ident_char(key@[0]));
                }
                t
            },
            None => {
                proof {
                    let v = punct_view(c)->0;
                    assert(fixed_spelling(v) == key@);
                    assert(has_entry(self.word_table@, fixed_spelling(v), v));
                    assert(false);
                }
                Token::Op(Operator::Plus)
            },
        }
    }

    /// Scans the identifier or keyword that starts at the current character.
    fn parse_identifier(&mut self, start: char) -> (r: Token)
        requires
            old(self).wf(),
            old(self).pos < old(self).input@.len(),
            old(self).input@[old(self).pos as int] == start,
            is_ident_start(start),
        ensures
            final(self).wf(),
            final(self).input == old(self).input,
            final(self).line_num == old(self).line_num,
            final(self).pos == ident_end(old(self).input@, old(self).pos + 1),
            r@ == word_view(old(self).input@.subrange(old(self).pos as int, final(self).pos as int)),
    {
        let begin = self.pos;
        let mut w: Vec<char> = Vec::new();
        w.push(start);
        self.move_char();
        while self.pos < self.input.len() && is_ident_char_exec(self.input[self.pos])
            invariant
                self.wf(),
                self.input == old(self).input,
                self.word_table == old(self).word_table,
                self.line_num == old(self).line_num,
                begin == old(self).pos,
                begin < self.pos,
                w@ == self.input@.subrange(begin as int, self.pos as int),
                ident_end(self.input@, self.pos as int) == ident_end(self.input@, begin + 1),
                forall|j: int| 0 <= j < w@.len() ==> is_ident_char(#[trigger] w@[j]),
            decreases self.input@.len() - self.pos,
        {
            w.push(self.input[self.pos]);
            self.pos = self.pos + 1;
            assert(w@ =~= self.input@.subrange(begin as int, self.pos as int));
        }
        assert(w@ =~= self.input@.subrange(begin as int, self.pos as int));
        self.resolve_or_intern(w)
    }

    /// Scans the number that starts at the current character: digits, then
    /// optionally a dot and more digits, whose value is dropped.
    fn parse_num(&mut self, start: char) -> (r: Token)
        requires
            old(self).wf(),
            old(self).pos < old(self).input@.len(),
            old(self).input@[old(self).pos as int] == start,
            is_digit(start),
        ensures
            final(self).wf(),
            final(self).input == old(self).input,
            final(self).word_table == old(self).word_table,
            final(self).line_num == old(self).line_num,
            ({
                let (o, e) = scan_plain(old(self).input@, old(self).pos as int);
                &&& final(self).pos == e
                &&& o == Ok::<Option<TokenView>, LexFault>(Some(r@))
            }),
    {
        let begin = self.pos;
        let cap: u64 = 0x8000_0000;
        let mut acc: u64 = digit_of(start);
        self.move_char();
        proof {
            assert(digits_value(self.input@, begin as int, begin + 1) == digit_value(start)) by {
                assert(digits_value(self.input@, begin as int, begin as int) == 0);
            }
        }
        while self.pos < self.input.len() && is_digit_exec(self.input[self.pos])
            invariant
                self.wf(),
                self.input == old(self).input,
                self.word_table == old(self).word_table,
                self.line_num == old(self).line_num,
                begin == old(self).pos,
                begin < self.pos,
                cap == 0x8000_0000,
                acc <= cap,
                acc == min(digits_value(self.input@, begin as int, self.pos as int) as int, cap as int),
                digits_end(self.input@, self.pos as int) == digits_end(self.input@, begin + 1),
            decreases self.input@.len() - self.pos,
        {
            let d = digit_of(self.input[self.pos]);
            let ghost v = digits_value(self.input@, begin as int, self.pos as int);
            proof {
                lemma_saturating_step(v as int, d as int, cap as int);
            }
            if acc >= cap {
                acc = cap;
            } else {
                acc = acc * 10 + d;
                if acc > cap {
                    acc = cap;
                }
            }
            self.pos = self.pos + 1;
        }
        let ghost e1 = self.pos;
        if self.pos < self.input.len() && self.input[self.pos] == '.' {
            self.pos = self.pos + 1;
            while self.pos < self.input.len() && is_digit_exec(self.input[self.pos])
                invariant
                    self.wf(),
                    self.input == old(self).input,
                    self.word_table == old(self).word_table,
                    self.line_num == old(self).line_num,
                    digits_end(self.input@, self.pos as int) == digits_end(self.input@, e1 + 1),
                decreases self.input@.len() - self.pos,
            {
                self.pos = self.pos + 1;
            }
        }
        let x: i32 = if acc > 0x7fff_ffff { 0x7fff_ffff } else { acc as i32 };
        Token::Cvar(ConstVar::Int(x))
    }

    /// Scans the quoted literal that starts at the current character `start`, a
    /// quote: a character constant for `'`, a string constant for `"`.
    fn parse_string(&mut self, start: char) -> (r: Result<Token, CompileError>)
        requires
            old(self).wf(),
            old(self).pos < old(self).input@.len(),
            old(self).input@[old(self).pos as int] == start,
            start == '\'' || start == '"',
        ensures
            final(self).wf(),
            final(self).input == old(self).input,
            final(self).word_table == old(self).word_table,
            ({
                let (o, e, l) = scan_token(old(self).input@, old(self).pos as int, old(self).line_num as int);
                &&& final(self).pos == e
                &&& final(self).line_num == l
                &&& match r {
                    Ok(t) => o == Ok::<Option<TokenView>, LexFault>(Some(t@)),
                    Err(err) => o is Err && err.content@ == fault_message(o->Err_0, final(self).line_num as nat),
                }
            }),
            r matches Err(err) ==> err.is_compile_stage_error(),
    {
        let ghost s = self.input@;
        let ghost begin = self.pos as int;
        let ghost line0 = self.line_num as int;
        let mut acc: Vec<char> = Vec::new();
        self.move_char();
        loop
            invariant_except_break
                literal(s, self.pos as int, start, acc@, self.line_num as int)
                    == literal(s, begin + 1, start, Seq::<char>::empty(), line0),
            invariant
                self.wf(),
                self.input == old(self).input,
                self.word_table == old(self).word_table,
                s == self.input@,
                begin == old(self).pos,
                line0 == old(self).line_num,
                0 <= begin < s.len(),
                s[begin] == start,
                scan_token(s, begin, line0) == quoted(start, literal(s, begin + 1, start, Seq::empty(), line0)),
            ensures
                literal(s, begin + 1, start, Seq::<char>::empty(), line0)
                    == (Ok::<Seq<char>, LexFault>(acc@), self.pos as int, self.line_num as int),
            decreases self.input@.len() - self.pos,
        {
            if self.pos >= self.input.len() {
                return Err(fault_error(LexFault::UnterminatedLiteral, self.line_num));
            }
            let c = self.input[self.pos];
            if c == start {
                self.pos = self.pos + 1;
                break;
            } else if c == '\\' {
                if self.pos + 1 >= self.input.len() {
                    self.pos = self.pos + 1;
                    return Err(fault_error(LexFault::UnterminatedLiteral, self.line_num));
                }
                let esc = self.input[self.pos + 1];
                match escape_char(esc) {
                    Some(d) => {
                        acc.push(d);
                        self.pos = self.pos + 2;
                    },
                    None => {
                        self.pos = self.pos + 1;
                        return Err(fault_error(LexFault::UnknownEscape(esc), self.line_num));
                    },
                }
            } else {
                acc.push(c);
                if c == '\n' {
                    self.line_num = self.line_num + 1;
                }
                self.pos = self.pos + 1;
            }
        }
        if start == '"' {
            Ok(Token::Cvar(ConstVar::String(chars_to_string(&acc))))
        } else if acc.len() == 1 {
            Ok(Token::Cvar(ConstVar::Char(acc[0])))
        } else {
            Err(fault_error(LexFault::InvalidCharLiteral, self.line_num))
        }
    }

    /// Steps past the current character and gives `a` if it is `next`, else `b`.
    fn pick_op(&mut self, next: char, a: Operator, b: Operator) -> (r: Operator)
        requires
            old(self).wf(),
        ensures
            final(self).wf(),
            final(self).input == old(self).input,
            final(self).word_table == old(self).word_table,
            final(self).line_num == old(self).line_num,
            either(old(self).input@, old(self).pos as int, next, TokenView::Op(a), TokenView::Op(b))
                == (Ok::<Option<TokenView>, LexFault>(Some(TokenView::Op(r))), final(self).pos as int),
    {
        if self.pos < self.input.len() && self.input[self.pos] == next {
            self.move_char();
            a
        } else {
            b
        }
    }

    /// Steps past whitespace and block comments up to the start of the next token.
    fn preprocess(&mut self) -> (r: Result<(), CompileError>)
        requires
            old(self).wf(),
        ensures
            final(self).wf(),
            final(self).input == old(self).input,
            final(self).word_table == old(self).word_table,
            ({
                let (closed, q, l) = blank(old(self).input@, old(self).pos as int, old(self).line_num as int, false);
                &&& final(self).pos == q
                &&& final(self).line_num == l
                &&& (r is Ok <==> closed)
            }),
            r matches Err(e) ==> e.content@ == fault_message(LexFault::UnterminatedComment, final(self).line_num as nat),
            r matches Err(e) ==> e.is_compile_stage_error(),
    {
        loop
            invariant
                self.wf(),
                self.input == old(self).input,
                self.word_table == old(self).word_table,
                blank(self.input@, self.pos as int, self.line_num as int, false)
                    == blank(old(self).input@, old(self).pos as int, old(self).line_num as int, false),
            decreases self.input@.len() - self.pos,
        {
            if self.pos >= self.input.len() {
                return Ok(());
            }
            let c = self.input[self.pos];
            if is_white_space_char(c) {
                proof {
                    lemma_blank_ws(self.input@, self.pos as int, self.line_num as int);
                }
                self.skip_white_space();
            } else if c == '/' && self.pos + 1 < self.input.len() && self.input[self.pos + 1] == '*' {
                proof {
                    lemma_blank_comment(self.input@, self.pos + 2, self.line_num as int);
                }
                match self.parse_comment() {
                    Ok(()) => {},
                    Err(e) => {
                        return Err(e);
                    },
                }
            } else {
                return Ok(());
            }
        }
    }

    /// The next token of the input: `Ok(None)` once the input is exhausted, an error
    /// for malformed input, after which scanning may go on past the offending text.
    pub fn next_token(&mut self) -> (r: Result<Option<Token>, CompileError>)
        requires
            old(self).wf(),
        ensures
            final(self).wf(),
            final(self).source() == old(self).source(),
            ({
                let (o, p, l) = lex_step(old(self).source(), old(self).position(), old(self).line());
                &&& final(self).position() == p
                &&& final(self).line() == l
                &&& match r {
                    Ok(None) => o == Ok::<Option<TokenView>, LexFault>(None),
                    Ok(Some(t)) => o == Ok::<Option<TokenView>, LexFault>(Some(t@)),
                    Err(e) => o is Err && e.content@ == fault_message(o->Err_0, l as nat),
                }
            }),
            r matches Err(e) ==> e.is_compile_stage_error(),
    {
        match self.preprocess() {
            Ok(()) => {},
            Err(e) => {
                return Err(e);
            },
        }
        let ch = match self.current_char() {
            None => {
                return Ok(None);
            },
            Some(c) => c,
        };
        if is_ident_start_exec(ch) {
            return Ok(Some(self.parse_identifier(ch)));
        }
        if is_digit_exec(ch) {
            return Ok(Some(self.parse_num(ch)));
        }
        if is_punct_char(ch) {
            let t = self.resolve_punct(ch);
            self.move_char();
            return Ok(Some(t));
        }
        if ch == '-' {
            self.move_char();
            return Ok(Some(Token::Op(self.pick_op('>', Operator::Arrow, Operator::Minus))));
        }
        if ch == '=' {
            self.move_char();
            return Ok(Some(Token::Op(self.pick_op('=', Operator::Eq, Operator::Assign))));
        }
        if ch == '>' {
            self.move_char();
            return Ok(Some(Token::Op(self.pick_op('=', Operator::Geq, Operator::Gt))));
        }
        if ch == '<' {
            self.move_char();
            return Ok(Some(Token::Op(self.pick_op('=', Operator::Leq, Operator::Lt))));
        }
        if ch == '!' {
            self.move_char();
            if self.current_char() == Some('=') {
                self.move_char();
                return Ok(Some(Token::Op(Operator::Neq)));
            }
            return Err(fault_error(LexFault::UnsupportedOperator, self.line_num));
        }
        if ch == '.' {
            self.move_char();
            if self.current_char() == Some('.') {
                self.move_char();
                if self.current_char() == Some('.') {
                    self.move_char();
                    return Ok(Some(Token::Sep(Seperator::Ellipsis)));
                }
                return Err(fault_error(LexFault::MalformedEllipsis, self.line_num));
            }
            return Ok(Some(Token::Op(Operator::Dot)));
        }
        if ch == '\'' || ch == '"' {
            return match self.parse_string(ch) {
                Ok(t) => Ok(Some(t)),
                Err(e) => Err(e),
            };
        }
        self.move_char();
        Err(fault_error(LexFault::UnrecognizedCharacter(ch), self.line_num))
    }
}

} // verus!
