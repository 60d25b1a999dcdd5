use kslang::lexer::Lexer;
use kslang::source::{Source, SourceSequence};
use kslang::span::CodeSpan;
use kslang::token::{Token, TokenKind, Operator};

fn lex_str(text: &str) -> Vec<Result<Token, CodeSpan>> {
    let mut srcs = SourceSequence::new();
    let id = srcs.add(Source::Literal(text.to_string()));
    let mut lexer = Lexer::new(id, &srcs);
    lexer.lex_all()
}

fn kinds(items: &[Result<Token, CodeSpan>]) -> Vec<TokenKind> {
    items
        .iter()
        .map(|r| match r {
            Ok(t) => t.kind,
            Err(_) => panic!("unexpected lexical error"),
        })
        .collect()
}

#[test]
fn lexes_expression_tokens_in_order() {
    let items = lex_str("1 + 2 * 3");
    assert_eq!(
        kinds(&items),
        vec![
            TokenKind::Number,
            TokenKind::Whitespace,
            TokenKind::Add,
            TokenKind::Whitespace,
            TokenKind::Number,
            TokenKind::Whitespace,
            TokenKind::Mul,
            TokenKind::Whitespace,
            TokenKind::Number,
        ]
    );
}

#[test]
fn token_spans_are_adjacent_and_ordered() {
    let items = lex_str("def f() 1; x = 2;");
    let mut expected_start = 0usize;
    for item in &items {
        let span = match item {
            Ok(t) => t.span,
            Err(s) => *s,
        };
        assert_eq!(span.start, expected_start);
        assert!(span.start <= span.end);
        expected_start = span.end;
    }
    assert_eq!(expected_start, 17);
}

#[test]
fn keywords_are_distinguished_from_idents() {
    let items = lex_str("def define for forx if in");
    let ks = kinds(&items);
    let sig: Vec<TokenKind> = ks
        .into_iter()
        .filter(|k| *k != TokenKind::Whitespace)
        .collect();
    assert_eq!(
        sig,
        vec![
            TokenKind::Def,
            TokenKind::Ident,
            TokenKind::For,
            TokenKind::Ident,
            TokenKind::If,
            TokenKind::In,
        ]
    );
}

#[test]
fn two_char_operators_win_over_one_char() {
    let items = lex_str("== = != ! <= < >= > && ||");
    let sig: Vec<TokenKind> = kinds(&items)
        .into_iter()
        .filter(|k| *k != TokenKind::Whitespace)
        .collect();
    assert_eq!(
        sig,
        vec![
            TokenKind::Eq,
            TokenKind::Assign,
            TokenKind::Ne,
            TokenKind::Not,
            TokenKind::Le,
            TokenKind::Lt,
            TokenKind::Ge,
            TokenKind::Gt,
            TokenKind::And,
            TokenKind::Or,
        ]
    );
}

#[test]
fn bom_is_one_skippable_token() {
    let items = lex_str("\u{FEFF}x");
    assert_eq!(kinds(&items), vec![TokenKind::UTF8BOM, TokenKind::Ident]);
    if let Ok(t) = &items[0] {
        assert_eq!(t.span.start, 0);
        assert_eq!(t.span.end, 3);
    }
}

#[test]
fn unmatched_bytes_yield_one_error_span_and_lexing_resumes() {
    // `$` and `@` match no token pattern; the run is reported once and
    // lexing resumes at the identifier that follows.
    let items = lex_str("a $@ b");
    assert_eq!(items.len(), 5);
    assert!(items[0].is_ok());
    assert!(items[1].is_ok());
    match &items[2] {
        Err(span) => {
            assert_eq!(span.start, 2);
            assert_eq!(span.end, 4);
        },
        Ok(_) => panic!("expected a lexical error"),
    }
    assert!(items[3].is_ok());
    assert!(items[4].is_ok());
}

#[test]
fn line_counter_advances_on_newlines_inside_tokens() {
    let items = lex_str("a\nb\n\nc");
    let lines: Vec<(TokenKind, usize)> = items
        .iter()
        .map(|r| {
            let t = r.as_ref().unwrap();
            (t.kind, t.span.line)
        })
        .collect();
    assert_eq!(
        lines,
        vec![
            (TokenKind::Ident, 0),
            (TokenKind::Whitespace, 0),
            (TokenKind::Ident, 1),
            (TokenKind::Whitespace, 1),
            (TokenKind::Ident, 3),
        ]
    );
}

#[test]
fn comment_runs_to_end_of_line_inclusive() {
    let items = lex_str("# note\nx");
    assert_eq!(kinds(&items), vec![TokenKind::Comment, TokenKind::Ident]);
    if let Ok(t) = &items[0] {
        assert_eq!(t.span.start, 0);
        assert_eq!(t.span.end, 7);
    }
}

#[test]
fn number_grammar_accepts_groups_fraction_and_exponent() {
    for text in ["1", "12_34", "1.5", "1_000.25", "1e9", "1E+9", "2.5e-3"] {
        let items = lex_str(text);
        assert_eq!(items.len(), 1, "{}", text);
        let t = items[0].as_ref().unwrap();
        assert_eq!(t.kind, TokenKind::Number, "{}", text);
        assert_eq!(t.span.end, text.len(), "{}", text);
    }
}

#[test]
fn trailing_underscore_is_not_part_of_a_number() {
    let items = lex_str("1_");
    assert_eq!(kinds(&items), vec![TokenKind::Number, TokenKind::Ident]);
}

#[test]
fn unicode_identifiers_lex_as_single_idents() {
    let items = lex_str("f\u{00FC}r x1");
    let sig: Vec<TokenKind> = kinds(&items)
        .into_iter()
        .filter(|k| *k != TokenKind::Whitespace)
        .collect();
    assert_eq!(sig, vec![TokenKind::Ident, TokenKind::Ident]);
}

#[test]
fn kind_str_names_the_categories() {
    assert_eq!(TokenKind::If.kind_str(), "Keyword");
    assert_eq!(TokenKind::Add.kind_str(), "Operator");
    assert_eq!(TokenKind::Comma.kind_str(), "Punctuation");
    assert_eq!(TokenKind::Ident.kind_str(), "Ident");
    assert_eq!(TokenKind::UTF8BOM.kind_str(), "UTF8BOM");
}

#[test]
fn value_str_gives_fixed_texts_only() {
    assert_eq!(TokenKind::Le.value_str(), Some("<="));
    assert_eq!(TokenKind::Break.value_str(), Some("break"));
    assert_eq!(TokenKind::Number.value_str(), None);
    assert_eq!(TokenKind::Ident.value_str(), None);
}

#[test]
fn operators_convert_from_token_kinds() {
    assert_eq!(Operator::try_from(TokenKind::Add), Ok(Operator::Add));
    assert_eq!(Operator::try_from(TokenKind::Not), Ok(Operator::Not));
    assert_eq!(Operator::try_from(TokenKind::Ident), Err(()));
    assert_eq!(Operator::try_from(TokenKind::Semicolon), Err(()));
}

#[test]
fn get_text_slices_by_span() {
    let mut srcs = SourceSequence::new();
    let id = srcs.add(Source::Literal("def add(a, b) a + b".to_string()));
    let items = {
        let mut lexer = Lexer::new(id, &srcs);
        lexer.lex_all()
    };
    let t = items[2].as_ref().unwrap();
    assert_eq!(t.kind, TokenKind::Ident);
    assert_eq!(srcs.get_text(t.span), "add");
}

#[test]
fn merge_keeps_start_and_takes_end() {
    let a = CodeSpan { line: 1, src_id: 0, start: 4, end: 7 };
    let b = CodeSpan { line: 2, src_id: 0, start: 9, end: 12 };
    let m = a.merge(b);
    assert_eq!(m.line, 1);
    assert_eq!(m.src_id, 0);
    assert_eq!(m.start, 4);
    assert_eq!(m.end, 12);
}
