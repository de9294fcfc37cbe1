use sccompiler::{
    error::{CompileError, CompileErrorLevel, CompileStage},
    lex_parser::LexParser,
    token::{ConstVar, KeyWord, Operator, Seperator, Token},
};

fn lex_all(s: &str) -> Vec<Result<Token, String>> {
    let mut p = LexParser::new(s);
    let mut out = Vec::new();
    for _ in 0..100 {
        match p.next_token() {
            Ok(Some(t)) => out.push(Ok(t)),
            Ok(None) => return out,
            Err(e) => out.push(Err(e.error_message())),
        }
    }
    out
}

fn tokens(s: &str) -> Vec<Token> {
    lex_all(s).into_iter().map(|r| r.unwrap()).collect()
}

#[test]
fn whitespace_only_gives_no_token() {
    assert!(lex_all(" \t\r\n \n\t ").is_empty());
    assert!(lex_all("").is_empty());
}

#[test]
fn line_count_follows_newlines() {
    let out = lex_all(" \n\r\n\t\n ! ");
    assert_eq!(out, vec![Err("暂不支持 '!' (非操作符): line 4".to_string())]);
}

#[test]
fn line_count_crosses_comments() {
    let out = lex_all("/* a\n * b\n */ @");
    assert_eq!(out, vec![Err("不认识的字符: @: line 3".to_string())]);
}

#[test]
fn comment_with_stars_gives_no_token() {
    assert!(lex_all("/* a * b ** c */").is_empty());
    assert!(lex_all("/**/").is_empty());
}

#[test]
fn unterminated_comment_gives_one_error() {
    let out = lex_all("/* open * / ");
    assert_eq!(out, vec![Err("一直到文件尾未看到配对的注释结束符".to_string())]);
}

#[test]
fn lone_slash_is_divide() {
    assert_eq!(tokens("/"), vec![Token::Op(Operator::Divide)]);
    assert_eq!(tokens("a / b"), vec![
        Token::Ident("a".to_string()),
        Token::Op(Operator::Divide),
        Token::Ident("b".to_string()),
    ]);
}

#[test]
fn fixed_spellings_round_trip() {
    let fixed = vec![
        Token::Op(Operator::Plus), Token::Op(Operator::Minus), Token::Op(Operator::Star),
        Token::Op(Operator::Divide), Token::Op(Operator::Mod), Token::Op(Operator::Eq),
        Token::Op(Operator::Neq), Token::Op(Operator::Lt), Token::Op(Operator::Leq),
        Token::Op(Operator::Gt), Token::Op(Operator::Geq), Token::Op(Operator::Assign),
        Token::Op(Operator::Arrow), Token::Op(Operator::Dot), Token::Op(Operator::And),
        Token::Sep(Seperator::Openpa), Token::Sep(Seperator::Closepa),
        Token::Sep(Seperator::Openbr), Token::Sep(Seperator::Closeba),
        Token::Sep(Seperator::Begin), Token::Sep(Seperator::End),
        Token::Sep(Seperator::Semicolon), Token::Sep(Seperator::Comma),
        Token::Sep(Seperator::Ellipsis),
        Token::Kw(KeyWord::Char), Token::Kw(KeyWord::Short), Token::Kw(KeyWord::Int),
        Token::Kw(KeyWord::Void), Token::Kw(KeyWord::Struct), Token::Kw(KeyWord::If),
        Token::Kw(KeyWord::Else), Token::Kw(KeyWord::For), Token::Kw(KeyWord::Continue),
        Token::Kw(KeyWord::Break), Token::Kw(KeyWord::Return), Token::Kw(KeyWord::Sizeof),
        Token::Kw(KeyWord::Align), Token::Kw(KeyWord::Cdecl), Token::Kw(KeyWord::Stdcall),
    ];
    for t in fixed {
        assert_eq!(tokens(&t.get_string()), vec![t.clone()]);
    }
}

#[test]
fn spellings_are_exact() {
    assert_eq!(Token::Op(Operator::Arrow).get_string(), "->");
    assert_eq!(Token::Sep(Seperator::Eof).get_string(), "End of file");
    assert_eq!(Token::Kw(KeyWord::Stdcall).get_string(), "__stdcall");
    assert_eq!(Token::Cvar(ConstVar::Int(-2147483648)).get_string(), "-2147483648");
    assert_eq!(Token::Cvar(ConstVar::Int(907)).get_string(), "907");
    assert_eq!(Token::Cvar(ConstVar::Char('q')).get_string(), "q");
    assert_eq!(Token::Cvar(ConstVar::String("a b".to_string())).get_string(), "a b");
    assert_eq!(Token::Ident("x_1".to_string()).get_string(), "x_1");
}

#[test]
fn identifiers_are_interned() {
    assert_eq!(tokens("fs23 fs23 int"), vec![
        Token::Ident("fs23".to_string()),
        Token::Ident("fs23".to_string()),
        Token::Kw(KeyWord::Int),
    ]);
    assert_eq!(tokens("integer _x9 If"), vec![
        Token::Ident("integer".to_string()),
        Token::Ident("_x9".to_string()),
        Token::Ident("If".to_string()),
    ]);
}

#[test]
fn numbers_truncate() {
    assert_eq!(tokens("123.789"), vec![Token::Cvar(ConstVar::Int(123))]);
    assert_eq!(tokens("123.;"), vec![Token::Cvar(ConstVar::Int(123)), Token::Sep(Seperator::Semicolon)]);
    assert_eq!(tokens("007"), vec![Token::Cvar(ConstVar::Int(7))]);
    assert_eq!(tokens("2147483647"), vec![Token::Cvar(ConstVar::Int(2147483647))]);
    assert_eq!(tokens("99999999999"), vec![Token::Cvar(ConstVar::Int(2147483647))]);
}

#[test]
fn literals_decode_escapes() {
    assert_eq!(tokens("'x' \"yzx\""), vec![
        Token::Cvar(ConstVar::Char('x')),
        Token::Cvar(ConstVar::String("yzx".to_string())),
    ]);
    assert_eq!(tokens("\"a\\nb\""), vec![Token::Cvar(ConstVar::String("a\nb".to_string()))]);
    assert_eq!(tokens("'\\t' '\\0' '\\'' \"\\\\\\\"\" \"\""), vec![
        Token::Cvar(ConstVar::Char('\t')),
        Token::Cvar(ConstVar::Char('\0')),
        Token::Cvar(ConstVar::Char('\'')),
        Token::Cvar(ConstVar::String("\\\"".to_string())),
        Token::Cvar(ConstVar::String(String::new())),
    ]);
}

#[test]
fn literal_errors() {
    assert_eq!(lex_all("\"abc"), vec![Err("引号不闭合: line 1".to_string())]);
    assert_eq!(lex_all("'ab'"), vec![Err("常量字符长度大于1".to_string())]);
    assert_eq!(lex_all("''"), vec![Err("常量字符长度大于1".to_string())]);
    assert_eq!(lex_all("\n\"\\q\"")[0], Err("未识别的转义字符: q: line 2".to_string()));
}

#[test]
fn ellipsis_and_dots() {
    assert_eq!(tokens("..."), vec![Token::Sep(Seperator::Ellipsis)]);
    assert_eq!(tokens("a.b"), vec![
        Token::Ident("a".to_string()),
        Token::Op(Operator::Dot),
        Token::Ident("b".to_string()),
    ]);
    assert_eq!(lex_all("..x"), vec![
        Err("省略号拼写错误: line 1".to_string()),
        Ok(Token::Ident("x".to_string())),
    ]);
}

#[test]
fn two_character_operators() {
    assert_eq!(tokens("-> - == = != >= > <= <"), vec![
        Token::Op(Operator::Arrow), Token::Op(Operator::Minus), Token::Op(Operator::Eq),
        Token::Op(Operator::Assign), Token::Op(Operator::Neq), Token::Op(Operator::Geq),
        Token::Op(Operator::Gt), Token::Op(Operator::Leq), Token::Op(Operator::Lt),
    ]);
}

#[test]
fn end_to_end_keywords() {
    assert_eq!(tokens(" void \tint \n\n struct"), vec![
        Token::Kw(KeyWord::Void),
        Token::Kw(KeyWord::Int),
        Token::Kw(KeyWord::Struct),
    ]);
}

#[test]
fn unrecognized_character_is_consumed() {
    assert_eq!(lex_all("#x"), vec![
        Err("不认识的字符: #: line 1".to_string()),
        Ok(Token::Ident("x".to_string())),
    ]);
}

#[test]
fn compile_error_parts() {
    let e = CompileError::new(CompileErrorLevel::Warning, CompileStage::Link, "careful");
    assert_eq!(e.level, CompileErrorLevel::Warning);
    assert_eq!(e.stage, CompileStage::Link);
    assert_eq!(e.error_message(), "careful");
    let e = CompileError::compile_stage_error("bad");
    assert_eq!(e.level, CompileErrorLevel::Error);
    assert_eq!(e.stage, CompileStage::Compile);
    assert_eq!(e.error_message(), "bad");
}

#[test]
fn report_line_names_stage_and_level() {
    let e = CompileError::new(CompileErrorLevel::Warning, CompileStage::Link, "unused");
    assert_eq!(e.report_text(), "SCCompiler link stage warning: unused");
    let e = CompileError::compile_stage_error("bad token");
    assert_eq!(e.report_text(), "SCCompiler compile stage error: bad token");
}

#[test]
fn newlines_inside_literals_count() {
    let out = lex_all("\"a\nb\" !");
    assert_eq!(out, vec![
        Ok(Token::Cvar(ConstVar::String("a\nb".to_string()))),
        Err("暂不支持 '!' (非操作符): line 2".to_string()),
    ]);
    let out = lex_all("'\n' \"\\n\" #");
    assert_eq!(out, vec![
        Ok(Token::Cvar(ConstVar::Char('\n'))),
        Ok(Token::Cvar(ConstVar::String("\n".to_string()))),
        Err("不认识的字符: #: line 2".to_string()),
    ]);
}

#[test]
fn comments_do_not_nest() {
    assert_eq!(tokens("/* a /* b */ c */"), vec![
        Token::Ident("c".to_string()),
        Token::Op(Operator::Star),
        Token::Op(Operator::Divide),
    ]);
    assert_eq!(lex_all("/* a /* b"), vec![Err("一直到文件尾未看到配对的注释结束符".to_string())]);
    assert_eq!(lex_all("/*/"), vec![Err("一直到文件尾未看到配对的注释结束符".to_string())]);
}

#[test]
fn number_then_dots() {
    assert_eq!(tokens("123.x"), vec![Token::Cvar(ConstVar::Int(123)), Token::Ident("x".to_string())]);
    assert_eq!(tokens("123.."), vec![Token::Cvar(ConstVar::Int(123)), Token::Op(Operator::Dot)]);
}
