use vstd::prelude::*;
use crate::text::{chars_to_string, signed_decimal, signed_decimal_chars};

verus! {

/// Operators of the language.
#[derive(Clone, Copy, Debug, PartialEq, Eq, Structural)]
pub enum Operator {
    /// "+"
    Plus,
    /// "-"
    Minus,
    /// "*"
    Star,
    /// "/"
    Divide,
    /// "%"
    Mod,
    /// "=="
    Eq,
    /// "!="
    Neq,
    /// "<"
    Lt,
    /// "<="
    Leq,
    /// ">"
    Gt,
    /// ">="
    Geq,
    /// "="
    Assign,
    /// "->"
    Arrow,
    /// "."
    Dot,
    /// "&"
    And,
}

/// Separators of the language.
#[derive(Clone, Copy, Debug, PartialEq, Eq, Structural)]
pub enum Seperator {
    /// "("
    Openpa,
    /// ")"
    Closepa,
    /// "["
    Openbr,
    /// "]"
    Closeba,
    /// "{"
    Begin,
    /// "}"
    End,
    /// ";"
    Semicolon,
    /// ","
    Comma,
    /// "..."
    Ellipsis,
    /// End of file
    Eof,
}

/// Constant literals.
#[derive(Clone, Debug, PartialEq, Eq)]
pub enum ConstVar {
    Int(i32),
    Char(char),
    String(String),
}

/// The mathematical value of a token: constants and names as character sequences.
pub enum TokenView {
    Op(Operator),
    Sep(Seperator),
    Int(i32),
    Char(char),
    Str(Seq<char>),
    Kw(KeyWord),
    Ident(Seq<char>),
}

/// Reserved words.
#[derive(Clone, Copy, Debug, PartialEq, Eq, Structural)]
pub enum KeyWord {
    Char,
    Short,
    Int,
    Void,
    Struct,
    If,
    Else,
    For,
    Continue,
    Break,
    Return,
    Sizeof,
    /// "__align"
    Align,
    /// "__cdecl"
    Cdecl,
    /// "__stdcall"
    Stdcall,
}

/// A classified lexical unit.
#[derive(Clone, Debug, PartialEq, Eq)]
pub enum Token {
    Op(Operator),
    Sep(Seperator),
    Cvar(ConstVar),
    Kw(KeyWord),
    Ident(String),
}

impl View for Token {
    type V = TokenView;

    open spec fn view(&self) -> TokenView {
        match self {
            Token::Op(op) => TokenView::Op(*op),
            Token::Sep(sep) => TokenView::Sep(*sep),
            Token::Cvar(ConstVar::Int(x)) => TokenView::Int(*x),
            Token::Cvar(ConstVar::Char(c)) => TokenView::Char(*c),
            Token::Cvar(ConstVar::String(s)) => TokenView::Str(s@),
            Token::Kw(kw) => TokenView::Kw(*kw),
            Token::Ident(s) => TokenView::Ident(s@),
        }
    }
}

impl Token {
    /// The canonical text of a token: the fixed spelling of an operator, separator or
    /// keyword, the value of a constant, the name of an identifier.
    pub open spec fn spelling(self) -> Seq<char> {
        match self {
            Token::Op(op) => op_spelling(op),
            Token::Sep(sep) => sep_spelling(sep),
            Token::Cvar(ConstVar::Int(x)) => signed_decimal(x as int),
            Token::Cvar(ConstVar::Char(c)) => seq![c],
            Token::Cvar(ConstVar::String(s)) => s@,
            Token::Kw(kw) => kw_spelling(kw),
            Token::Ident(s) => s@,
        }
    }

    /// Whether the token is one of the fixed set: an operator, a separator or a keyword.
    pub open spec fn is_fixed(self) -> bool {
        self is Op || self is Sep || self is Kw
    }

    pub fn get_string(&self) -> (r: String)
        ensures
            r@ == self.spelling(),
    {
        match self {
            Token::Op(op) => {
                let v: Vec<char> = match op {
                    Operator::Plus => vec!['+'],
                    Operator::Minus => vec!['-'],
                    Operator::Star => vec!['*'],
                    Operator::Divide => vec!['/'],
                    Operator::Mod => vec!['%'],
                    Operator::Eq => vec!['=', '='],
                    Operator::Neq => vec!['!', '='],
                    Operator::Lt => vec!['<'],
                    Operator::Leq => vec!['<', '='],
                    Operator::Gt => vec!['>'],
                    Operator::Geq => vec!['>', '='],
                    Operator::Assign => vec!['='],
                    Operator::Arrow => vec!['-', '>'],
                    Operator::Dot => vec!['.'],
                    Operator::And => vec!['&'],
                };
                chars_to_string(&v)
            },
            Token::Sep(sep) => {
                let v: Vec<char> = match sep {
                    Seperator::Openpa => vec!['('],
                    Seperator::Closepa => vec![')'],
                    Seperator::Openbr => vec!['['],
                    Seperator::Closeba => vec![']'],
                    Seperator::Begin => vec!['{'],
                    Seperator::End => vec!['}'],
                    Seperator::Semicolon => vec![';'],
                    Seperator::Comma => vec![','],
                    Seperator::Ellipsis => vec!['.', '.', '.'],
                    Seperator::Eof => vec!['E', 'n', 'd', ' ', 'o', 'f', ' ', 'f', 'i', 'l', 'e'],
                };
                chars_to_string(&v)
            },
            Token::Cvar(ConstVar::Int(x)) => {
                let v = signed_decimal_chars(*x);
                chars_to_string(&v)
            },
            Token::Cvar(ConstVar::Char(c)) => {
                let v: Vec<char> = vec![*c];
                chars_to_string(&v)
            },
            Token::Cvar(ConstVar::String(s)) => s.clone(),
            Token::Kw(kw) => {
                let v: Vec<char> = match kw {
                    KeyWord::Char => vec!['c', 'h', 'a', 'r'],
                    KeyWord::Short => vec!['s', 'h', 'o', 'r', 't'],
                    KeyWord::Int => vec!['i', 'n', 't'],
                    KeyWord::Void => vec!['v', 'o', 'i', 'd'],
                    KeyWord::Struct => vec!['s', 't', 'r', 'u', 'c', 't'],
                    KeyWord::If => vec!['i', 'f'],
                    KeyWord::Else => vec!['e', 'l', 's', 'e'],
                    KeyWord::For => vec!['f', 'o', 'r'],
                    KeyWord::Continue => vec!['c', 'o', 'n', 't', 'i', 'n', 'u', 'e'],
                    KeyWord::Break => vec!['b', 'r', 'e', 'a', 'k'],
                    KeyWord::Return => vec!['r', 'e', 't', 'u', 'r', 'n'],
                    KeyWord::Sizeof => vec!['s', 'i', 'z', 'e', 'o', 'f'],
                    KeyWord::Align => vec!['_', '_', 'a', 'l', 'i', 'g', 'n'],
                    KeyWord::Cdecl => vec!['_', '_', 'c', 'd', 'e', 'c', 'l'],
                    KeyWord::Stdcall => vec!['_', '_', 's', 't', 'd', 'c', 'a', 'l', 'l'],
                };
                chars_to_string(&v)
            },
            Token::Ident(s) => s.clone(),
        }
    }

    /// A copy of this token.
    pub fn duplicate(&self) -> (r: Token)
        ensures
            r == *self,
    {
        match self {
            Token::Op(op) => Token::Op(*op),
            Token::Sep(sep) => Token::Sep(*sep),
            Token::Cvar(ConstVar::Int(x)) => Token::Cvar(ConstVar::Int(*x)),
            Token::Cvar(ConstVar::Char(c)) => Token::Cvar(ConstVar::Char(*c)),
            Token::Cvar(ConstVar::String(s)) => Token::Cvar(ConstVar::String(s.clone())),
            Token::Kw(kw) => Token::Kw(*kw),
            Token::Ident(s) => Token::Ident(s.clone()),
        }
    }
}

pub open spec fn op_spelling(op: Operator) -> Seq<char> {
    match op {
        Operator::Plus => seq!['+'],
        Operator::Minus => seq!['-'],
        Operator::Star => seq!['*'],
        Operator::Divide => seq!['/'],
        Operator::Mod => seq!['%'],
        Operator::Eq => seq!['=', '='],
        Operator::Neq => seq!['!', '='],
        Operator::Lt => seq!['<'],
        Operator::Leq => seq!['<', '='],
        Operator::Gt => seq!['>'],
        Operator::Geq => seq!['>', '='],
        Operator::Assign => seq!['='],
        Operator::Arrow => seq!['-', '>'],
        Operator::Dot => seq!['.'],
        Operator::And => seq!['&'],
    }
}

pub open spec fn sep_spelling(sep: Seperator) -> Seq<char> {
    match sep {
        Seperator::Openpa => seq!['('],
        Seperator::Closepa => seq![')'],
        Seperator::Openbr => seq!['['],
        Seperator::Closeba => seq![']'],
        Seperator::Begin => seq!['{'],
        Seperator::End => seq!['}'],
        Seperator::Semicolon => seq![';'],
        Seperator::Comma => seq![','],
        Seperator::Ellipsis => seq!['.', '.', '.'],
        Seperator::Eof => seq!['E', 'n', 'd', ' ', 'o', 'f', ' ', 'f', 'i', 'l', 'e'],
    }
}

pub open spec fn kw_spelling(kw: KeyWord) -> Seq<char> {
    match kw {
        KeyWord::Char => seq!['c', 'h', 'a', 'r'],
        KeyWord::Short => seq!['s', 'h', 'o', 'r', 't'],
        KeyWord::Int => seq!['i', 'n', 't'],
        KeyWord::Void => seq!['v', 'o', 'i', 'd'],
        KeyWord::Struct => seq!['s', 't', 'r', 'u', 'c', 't'],
        KeyWord::If => seq!['i', 'f'],
        KeyWord::Else => seq!['e', 'l', 's', 'e'],
        KeyWord::For => seq!['f', 'o', 'r'],
        KeyWord::Continue => seq!['c', 'o', 'n', 't', 'i', 'n', 'u', 'e'],
        KeyWord::Break => seq!['b', 'r', 'e', 'a', 'k'],
        KeyWord::Return => seq!['r', 'e', 't', 'u', 'r', 'n'],
        KeyWord::Sizeof => seq!['s', 'i', 'z', 'e', 'o', 'f'],
        KeyWord::Align => seq!['_', '_', 'a', 'l', 'i', 'g', 'n'],
        KeyWord::Cdecl => seq!['_', '_', 'c', 'd', 'e', 'c', 'l'],
        KeyWord::Stdcall => seq!['_', '_', 's', 't', 'd', 'c', 'a', 'l', 'l'],
    }
}

/// Whether a token view is one of the fixed set: an operator, a separator or a keyword.
pub open spec fn is_fixed_view(t: TokenView) -> bool {
    t is Op || t is Sep || t is Kw
}

/// The spelling of a fixed token.
pub open spec fn fixed_spelling(t: TokenView) -> Seq<char> {
    match t {
        TokenView::Op(op) => op_spelling(op),
        TokenView::Sep(sep) => sep_spelling(sep),
        TokenView::Kw(kw) => kw_spelling(kw),
        _ => Seq::empty(),
    }
}

/// The operator or separator spelled by the single character `c`, if any.
pub open spec fn fixed_of_char(c: char) -> Option<TokenView> {
    if c == '+' { Some(TokenView::Op(Operator::Plus)) }
    else if c == '-' { Some(TokenView::Op(Operator::Minus)) }
    else if c == '*' { Some(TokenView::Op(Operator::Star)) }
    else if c == '/' { Some(TokenView::Op(Operator::Divide)) }
    else if c == '%' { Some(TokenView::Op(Operator::Mod)) }
    else if c == '<' { Some(TokenView::Op(Operator::Lt)) }
    else if c == '>' { Some(TokenView::Op(Operator::Gt)) }
    else if c == '=' { Some(TokenView::Op(Operator::Assign)) }
    else if c == '.' { Some(TokenView::Op(Operator::Dot)) }
    else if c == '&' { Some(TokenView::Op(Operator::And)) }
    else if c == '(' { Some(TokenView::Sep(Seperator::Openpa)) }
    else if c == ')' { Some(TokenView::Sep(Seperator::Closepa)) }
    else if c == '[' { Some(TokenView::Sep(Seperator::Openbr)) }
    else if c == ']' { Some(TokenView::Sep(Seperator::Closeba)) }
    else if c == '{' { Some(TokenView::Sep(Seperator::Begin)) }
    else if c == '}' { Some(TokenView::Sep(Seperator::End)) }
    else if c == ';' { Some(TokenView::Sep(Seperator::Semicolon)) }
    else if c == ',' { Some(TokenView::Sep(Seperator::Comma)) }
    else { None }
}

/// The operator spelled by the two characters `a`, `b`, if any.
pub open spec fn fixed_of_pair(a: char, b: char) -> Option<TokenView> {
    if a == '=' && b == '=' { Some(TokenView::Op(Operator::Eq)) }
    else if a == '!' && b == '=' { Some(TokenView::Op(Operator::Neq)) }
    else if a == '<' && b == '=' { Some(TokenView::Op(Operator::Leq)) }
    else if a == '>' && b == '=' { Some(TokenView::Op(Operator::Geq)) }
    else if a == '-' && b == '>' { Some(TokenView::Op(Operator::Arrow)) }
    else { None }
}

/// The fixed token spelled `k`, if any.
pub open spec fn fixed_of(k: Seq<char>) -> Option<TokenView> {
    if k.len() == 1 && fixed_of_char(k[0]) is Some {
        fixed_of_char(k[0])
    } else if k.len() == 2 && fixed_of_pair(k[0], k[1]) is Some {
        fixed_of_pair(k[0], k[1])
    } else if k == sep_spelling(Seperator::Ellipsis) {
        Some(TokenView::Sep(Seperator::Ellipsis))
    } else if k == sep_spelling(Seperator::Eof) {
        Some(TokenView::Sep(Seperator::Eof))
    } else {
        match keyword_of(k) {
            Some(kw) => Some(TokenView::Kw(kw)),
            None => None,
        }
    }
}

proof fn lemma_fixed_of_op(x: Operator)
    ensures
        fixed_of(fixed_spelling(TokenView::Op(x))) == Some(TokenView::Op(x)),
{
    match x {
        Operator::Plus => {},
        Operator::Minus => {},
        Operator::Star => {},
        Operator::Divide => {},
        Operator::Mod => {},
        Operator::Eq => {},
        Operator::Neq => {},
        Operator::Lt => {},
        Operator::Leq => {},
        Operator::Gt => {},
        Operator::Geq => {},
        Operator::Assign => {},
        Operator::Arrow => {},
        Operator::Dot => {},
        Operator::And => {},
    }
}

proof fn lemma_fixed_of_sep(x: Seperator)
    ensures
        fixed_of(fixed_spelling(TokenView::Sep(x))) == Some(TokenView::Sep(x)),
{
    match x {
        Seperator::Openpa => {},
        Seperator::Closepa => {},
        Seperator::Openbr => {},
        Seperator::Closeba => {},
        Seperator::Begin => {},
        Seperator::End => {},
        Seperator::Semicolon => {},
        Seperator::Comma => {},
        Seperator::Ellipsis => {},
        Seperator::Eof => {},
    }
}

proof fn lemma_fixed_of_kw(x: KeyWord)
    ensures
        fixed_of(fixed_spelling(TokenView::Kw(x))) == Some(TokenView::Kw(x)),
{
    lemma_keyword_of_spelling(x);
    match x {
        KeyWord::Char => {},
        KeyWord::Short => {},
        KeyWord::Int => {},
        KeyWord::Void => {},
        KeyWord::Struct => {},
        KeyWord::If => {},
        KeyWord::Else => {},
        KeyWord::For => {},
        KeyWord::Continue => {},
        KeyWord::Break => {},
        KeyWord::Return => {},
        KeyWord::Sizeof => {},
        KeyWord::Align => {},
        KeyWord::Cdecl => {},
        KeyWord::Stdcall => {},
    }
}

/// Each fixed token's spelling resolves back to that token.
pub proof fn lemma_fixed_of_spelling(t: TokenView)
    requires
        is_fixed_view(t),
    ensures
        fixed_of(fixed_spelling(t)) == Some(t),
{
    match t {
        TokenView::Op(op) => lemma_fixed_of_op(op),
        TokenView::Sep(sep) => lemma_fixed_of_sep(sep),
        TokenView::Kw(kw) => lemma_fixed_of_kw(kw),
        _ => {},
    }
}

/// Distinct fixed tokens have distinct spellings.
pub proof fn lemma_fixed_spelling_injective(a: TokenView, b: TokenView)
    requires
        is_fixed_view(a),
        is_fixed_view(b),
        fixed_spelling(a) == fixed_spelling(b),
    ensures
        a == b,
{
    lemma_fixed_of_spelling(a);
    lemma_fixed_of_spelling(b);
}

/// The keyword spelled `w`, if any.
pub open spec fn keyword_of(w: Seq<char>) -> Option<KeyWord> {
    if w == kw_spelling(KeyWord::Char) { Some(KeyWord::Char) }
    else if w == kw_spelling(KeyWord::Short) { Some(KeyWord::Short) }
    else if w == kw_spelling(KeyWord::Int) { Some(KeyWord::Int) }
    else if w == kw_spelling(KeyWord::Void) { Some(KeyWord::Void) }
    else if w == kw_spelling(KeyWord::Struct) { Some(KeyWord::Struct) }
    else if w == kw_spelling(KeyWord::If) { Some(KeyWord::If) }
    else if w == kw_spelling(KeyWord::Else) { Some(KeyWord::Else) }
    else if w == kw_spelling(KeyWord::For) { Some(KeyWord::For) }
    else if w == kw_spelling(KeyWord::Continue) { Some(KeyWord::Continue) }
    else if w == kw_spelling(KeyWord::Break) { Some(KeyWord::Break) }
    else if w == kw_spelling(KeyWord::Return) { Some(KeyWord::Return) }
    else if w == kw_spelling(KeyWord::Sizeof) { Some(KeyWord::Sizeof) }
    else if w == kw_spelling(KeyWord::Align) { Some(KeyWord::Align) }
    else if w == kw_spelling(KeyWord::Cdecl) { Some(KeyWord::Cdecl) }
    else if w == kw_spelling(KeyWord::Stdcall) { Some(KeyWord::Stdcall) }
    else { None }
}

/// Each keyword's spelling resolves back to that keyword.
pub proof fn lemma_keyword_of_spelling(kw: KeyWord)
    ensures
        keyword_of(kw_spelling(kw)) == Some(kw),
{
    match kw {
        KeyWord::Char => {},
        KeyWord::Short => {},
        KeyWord::Int => {},
        KeyWord::Void => {},
        KeyWord::Struct => {},
        KeyWord::If => {},
        KeyWord::Else => {},
        KeyWord::For => {},
        KeyWord::Continue => {},
        KeyWord::Break => {},
        KeyWord::Return => {},
        KeyWord::Sizeof => {},
        KeyWord::Align => {},
        KeyWord::Cdecl => {},
        KeyWord::Stdcall => {},
    }
}

} // verus!
