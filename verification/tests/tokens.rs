use rpm_macros::token::{byte_offset, scan_token, Scanned};
use rpm_macros::{tokenize, Directive, DirectiveKind, Error, ParseFault, Token, Tokenizer};

fn text(s: &str) -> Vec<char> {
    s.chars().collect()
}

fn literal(s: &str) -> Token {
    Token::Literal(text(s))
}

fn directive(kind: DirectiveKind, name: &str, args: &[&str], alt: Option<(&str, usize)>) -> Token {
    Token::Directive(Directive {
        kind,
        name: text(name),
        args: args.iter().map(|a| text(a)).collect(),
        alt: alt.map(|(a, _)| text(a)),
        alt_start: alt.map(|(_, s)| s).unwrap_or(0),
    })
}

#[test]
fn tokenize_literal_only() {
    assert_eq!(tokenize(""), Ok(vec![]));
    assert_eq!(tokenize("plain text"), Ok(vec![literal("plain text")]));
}

#[test]
fn tokenize_bare_reference_ends_at_first_other_character() {
    assert_eq!(
        tokenize("a%name-b"),
        Ok(vec![literal("a"), directive(DirectiveKind::Reference, "name", &[], None), literal("-b")])
    );
    assert_eq!(
        tokenize("%a_1.%b"),
        Ok(vec![
            directive(DirectiveKind::Reference, "a_1", &[], None),
            literal("."),
            directive(DirectiveKind::Reference, "b", &[], None),
        ])
    );
}

#[test]
fn tokenize_arguments() {
    assert_eq!(
        tokenize("%f(x,y z,)%g()"),
        Ok(vec![
            directive(DirectiveKind::Reference, "f", &["x", "y z", ""], None),
            directive(DirectiveKind::Reference, "g", &[], None),
        ])
    );
    assert_eq!(tokenize("%{f(a,b)}"), Ok(vec![directive(DirectiveKind::Reference, "f", &["a", "b"], None)]));
}

#[test]
fn tokenize_braced_forms() {
    assert_eq!(tokenize("%{name}"), Ok(vec![directive(DirectiveKind::Reference, "name", &[], None)]));
    assert_eq!(
        tokenize("%{name:default}"),
        Ok(vec![directive(DirectiveKind::Reference, "name", &[], Some(("default", 7)))])
    );
    assert_eq!(tokenize("%{name:}"), Ok(vec![directive(DirectiveKind::Reference, "name", &[], Some(("", 7)))]));
    assert_eq!(
        tokenize("x%{?cond:then %{y}}z"),
        Ok(vec![
            literal("x"),
            directive(DirectiveKind::WhenDefined, "cond", &[], Some(("then %{y}", 9))),
            literal("z"),
        ])
    );
    assert_eq!(
        tokenize("%{!?cond:else}"),
        Ok(vec![directive(DirectiveKind::WhenUndefined, "cond", &[], Some(("else", 9)))])
    );
    assert_eq!(tokenize("%{?cond}"), Ok(vec![directive(DirectiveKind::WhenDefined, "cond", &[], None)]));
}

#[test]
fn tokenize_option_queries() {
    assert_eq!(tokenize("%{-f}"), Ok(vec![directive(DirectiveKind::Flag, "f", &[], None)]));
    assert_eq!(tokenize("%{-f*}"), Ok(vec![directive(DirectiveKind::FlagValue, "f", &[], None)]));
}

#[test]
fn tokenize_escape_and_expression() {
    assert_eq!(tokenize("100%%"), Ok(vec![literal("100"), literal("%")]));
    assert_eq!(
        tokenize("%[1+[2]]!"),
        Ok(vec![directive(DirectiveKind::Expression, "", &[], Some(("1+[2]", 2))), literal("!")])
    );
}

#[test]
fn tokenize_reports_empty_name() {
    assert_eq!(tokenize("abc%"), Err(Error::Parse(3, ParseFault::EmptyName)));
    assert_eq!(tokenize("% x"), Err(Error::Parse(0, ParseFault::EmptyName)));
    assert_eq!(tokenize("a%{}"), Err(Error::Parse(1, ParseFault::EmptyName)));
    assert_eq!(tokenize("%{?}"), Err(Error::Parse(0, ParseFault::EmptyName)));
    assert_eq!(tokenize("%{:x}"), Err(Error::Parse(0, ParseFault::EmptyName)));
    assert_eq!(tokenize("ok %name then %-"), Err(Error::Parse(14, ParseFault::EmptyName)));
}

#[test]
fn tokenize_reports_unterminated_brace() {
    assert_eq!(tokenize("ab%{cd"), Err(Error::Parse(2, ParseFault::UnterminatedBrace)));
    assert_eq!(tokenize("%{a:{b}"), Err(Error::Parse(0, ParseFault::UnterminatedBrace)));
    assert_eq!(tokenize("%{"), Err(Error::Parse(0, ParseFault::UnterminatedBrace)));
}

#[test]
fn tokenize_reports_unterminated_arguments() {
    assert_eq!(tokenize("%x(a"), Err(Error::Parse(0, ParseFault::UnterminatedArguments)));
    assert_eq!(tokenize("..%{x(a}"), Err(Error::Parse(2, ParseFault::UnterminatedArguments)));
}

#[test]
fn tokenize_reports_malformed_directive() {
    assert_eq!(tokenize("%{a b}"), Err(Error::Parse(0, ParseFault::MalformedDirective)));
    assert_eq!(tokenize("%{!a}"), Err(Error::Parse(0, ParseFault::MalformedDirective)));
    assert_eq!(tokenize("%{a(b)c}"), Err(Error::Parse(0, ParseFault::MalformedDirective)));
}

#[test]
fn tokenize_reports_malformed_flag() {
    assert_eq!(tokenize("%{-}"), Err(Error::Parse(0, ParseFault::MalformedFlag)));
    assert_eq!(tokenize("%{-ab}"), Err(Error::Parse(0, ParseFault::MalformedFlag)));
    assert_eq!(tokenize("%{-*}"), Err(Error::Parse(0, ParseFault::MalformedFlag)));
    assert_eq!(tokenize("%{-f**}"), Err(Error::Parse(0, ParseFault::MalformedFlag)));
}

#[test]
fn tokenize_reports_unterminated_expression() {
    assert_eq!(tokenize("%[1+2"), Err(Error::Parse(0, ParseFault::UnterminatedExpression)));
    assert_eq!(tokenize("x%[[1]"), Err(Error::Parse(1, ParseFault::UnterminatedExpression)));
}

#[test]
fn fault_offsets_count_bytes() {
    assert_eq!(tokenize("\u{e9}%"), Err(Error::Parse(2, ParseFault::EmptyName)));
    assert_eq!(tokenize("\u{65e5}\u{672c}%{"), Err(Error::Parse(6, ParseFault::UnterminatedBrace)));
    assert_eq!(tokenize("a\u{1f600}b%"), Err(Error::Parse(6, ParseFault::EmptyName)));
    let t = text("a\u{e9}\u{65e5}\u{1f600}z");
    assert_eq!(byte_offset(&t, 0), 0);
    assert_eq!(byte_offset(&t, 1), 1);
    assert_eq!(byte_offset(&t, 2), 3);
    assert_eq!(byte_offset(&t, 3), 6);
    assert_eq!(byte_offset(&t, 4), 10);
    assert_eq!(byte_offset(&t, 5), 11);
}

#[test]
fn tokenizer_hands_out_tokens_one_by_one() {
    let mut t = Tokenizer::new("a%b%%");
    assert_eq!(t.next_token(), Some(Ok(literal("a"))));
    assert_eq!(t.next_token(), Some(Ok(directive(DirectiveKind::Reference, "b", &[], None))));
    assert_eq!(t.next_token(), Some(Ok(literal("%"))));
    assert_eq!(t.next_token(), None);
    assert_eq!(t.next_token(), None);
}

#[test]
fn tokenizer_can_restart() {
    let mut t = Tokenizer::new("a%b");
    assert_eq!(t.next_token(), Some(Ok(literal("a"))));
    t.restart();
    assert_eq!(t.next_token(), Some(Ok(literal("a"))));
    assert_eq!(t.next_token(), Some(Ok(directive(DirectiveKind::Reference, "b", &[], None))));
    assert_eq!(t.next_token(), None);
    t.restart();
    assert_eq!(t.next_token(), Some(Ok(literal("a"))));
}

#[test]
fn tokenizer_stops_after_fault() {
    let mut t = Tokenizer::new("a%{b");
    assert_eq!(t.next_token(), Some(Ok(literal("a"))));
    assert_eq!(t.next_token(), Some(Err(Error::Parse(1, ParseFault::UnterminatedBrace))));
    assert_eq!(t.next_token(), None);
    t.restart();
    assert_eq!(t.next_token(), Some(Ok(literal("a"))));
}

#[test]
fn scan_token_respects_the_range() {
    let t = text("ab%cd%ef");
    match scan_token(&t, 0, 8) {
        Scanned::Found(tok, next) => {
            assert_eq!(tok, literal("ab"));
            assert_eq!(next, 2);
        }
        _ => panic!("expected a token"),
    }
    match scan_token(&t, 2, 4) {
        Scanned::Found(tok, next) => {
            assert_eq!(tok, directive(DirectiveKind::Reference, "c", &[], None));
            assert_eq!(next, 4);
        }
        _ => panic!("expected a token"),
    }
    assert!(matches!(scan_token(&t, 4, 4), Scanned::End));
    assert!(matches!(scan_token(&t, 5, 6), Scanned::Fault(5, ParseFault::EmptyName)));
}

#[test]
fn fault_descriptions() {
    assert_eq!(ParseFault::EmptyName.describe(), "directive has no name");
    assert_eq!(ParseFault::UnterminatedBrace.describe(), "brace is not closed");
    assert_eq!(ParseFault::UnterminatedArguments.describe(), "argument list is not closed");
    assert_eq!(ParseFault::MalformedDirective.describe(), "directive is malformed");
    assert_eq!(ParseFault::MalformedFlag.describe(), "option query is malformed");
    assert_eq!(ParseFault::UnterminatedExpression.describe(), "bracket is not closed");
    assert_eq!(ParseFault::MalformedExpression.describe(), "expression is malformed");
    assert_eq!(ParseFault::ArithmeticOverflow.describe(), "arithmetic overflow");
    assert_eq!(ParseFault::DivisionByZero.describe(), "division by zero");
    assert_eq!(Error::Parse(3, ParseFault::EmptyName).describe(), "directive has no name");
    assert_eq!(Error::Undefined("x".to_string()).describe(), "macro is not defined");
    assert_eq!(Error::RecursionLimit.describe(), "macros are nested too deeply");
    assert_eq!(Error::NotFound("x".to_string()).describe(), "no definition to remove");
}
