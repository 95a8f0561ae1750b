use rpm_macros::expr::{evaluate, render};
use rpm_macros::text::{check_name, read_list, same_text, seek_closing, split_range};
use rpm_macros::{expand, ConfigFault, ContextId, Error, MacroContext, ParseFault};

fn text(s: &str) -> Vec<char> {
    s.chars().collect()
}

fn context(definitions: &[&str]) -> MacroContext {
    let mut ctx = MacroContext::new(ContextId(1));
    for d in definitions {
        ctx.define(d, 0).unwrap();
    }
    ctx
}

#[test]
fn nested_macros_expand_recursively() {
    let ctx = context(&["a <%b>", "b [%c]", "c leaf"]);
    assert_eq!(ctx.expand("%a"), Ok("<[leaf]>".to_string()));
    assert_eq!(ctx.expand("%a%b%c"), Ok("<[leaf]>[leaf]leaf".to_string()));
}

#[test]
fn depth_counts_nested_bodies() {
    let ctx = context(&["a <%b>", "b [%c]", "c leaf"]);
    assert_eq!(expand(&ctx, "%c", 1), Ok("leaf".to_string()));
    assert_eq!(expand(&ctx, "%c", 0), Err(Error::RecursionLimit));
    assert_eq!(expand(&ctx, "%b", 2), Ok("[leaf]".to_string()));
    assert_eq!(expand(&ctx, "%b", 1), Err(Error::RecursionLimit));
    assert_eq!(expand(&ctx, "%a", 3), Ok("<[leaf]>".to_string()));
    assert_eq!(expand(&ctx, "%a", 2), Err(Error::RecursionLimit));
    assert_eq!(expand(&ctx, "%c%c%c%c", 1), Ok("leafleafleafleaf".to_string()));
    assert_eq!(expand(&ctx, "no macro", 0), Ok("no macro".to_string()));
}

#[test]
fn default_stands_in_for_undefined_name() {
    let ctx = context(&["set value", "empty"]);
    assert_eq!(ctx.expand("%{unset:fallback}"), Ok("fallback".to_string()));
    assert_eq!(ctx.expand("%{set:fallback}"), Ok("value".to_string()));
    assert_eq!(ctx.expand("%{empty:fallback}"), Ok("".to_string()));
    assert_eq!(ctx.expand("%{unset:}"), Ok("".to_string()));
}

#[test]
fn default_is_literal() {
    let ctx = context(&["set value"]);
    assert_eq!(ctx.expand("%{unset:%set}"), Ok("%set".to_string()));
    assert_eq!(ctx.expand("%{unset:%{set}}"), Ok("%{set}".to_string()));
}

#[test]
fn unbound_parameters_are_empty_or_default() {
    let ctx = context(&["f(a,b) [%a|%b|%{b:none}|%1|%2|%3|%{3:three}]"]);
    assert_eq!(ctx.expand("%f(x)"), Ok("[x||none|x|||three]".to_string()));
    assert_eq!(ctx.expand("%f(x,y)"), Ok("[x|y|y|x|y||three]".to_string()));
    assert_eq!(ctx.expand("%f"), Ok("[||none||||three]".to_string()));
    assert_eq!(ctx.expand("%f()"), Ok("[||none||||three]".to_string()));
}

#[test]
fn unbound_parameter_is_empty_under_strict_policy() {
    let mut ctx = context(&["f(a) [%a]"]);
    ctx.set_strict(true);
    assert_eq!(ctx.expand("%f"), Ok("[]".to_string()));
    assert_eq!(ctx.expand("%1"), Ok("".to_string()));
    assert_eq!(ctx.expand("%0"), Ok("".to_string()));
}

#[test]
fn parameters_shadow_macros() {
    let ctx = context(&["x global", "f(x) %x", "g(y) %x"]);
    assert_eq!(ctx.expand("%f(local)"), Ok("local".to_string()));
    assert_eq!(ctx.expand("%f"), Ok("".to_string()));
    assert_eq!(ctx.expand("%g(local)"), Ok("global".to_string()));
}

#[test]
fn arguments_are_taken_literally() {
    let ctx = context(&["x global", "f(a) <%a>"]);
    assert_eq!(ctx.expand("%f(%x)"), Ok("<%x>".to_string()));
    assert_eq!(ctx.expand("%f(a b)"), Ok("<a b>".to_string()));
}

#[test]
fn arguments_of_inner_calls_are_their_own() {
    let ctx = context(&["outer(a) %inner(in)+%a", "inner(a) %a%2"]);
    assert_eq!(ctx.expand("%outer(out,second)"), Ok("in+out".to_string()));
}

#[test]
fn large_positional_numbers_are_unbound() {
    let ctx = context(&["f %1%99999999999999999999999999999999999999"]);
    assert_eq!(ctx.expand("%f(a)"), Ok("a".to_string()));
}

#[test]
fn option_queries() {
    let ctx = context(&["opt [%{-v}|%{-o}|%{-o*}|%{-q}|%{-q*}|%1|%2]"]);
    assert_eq!(ctx.expand("%opt(-v,-ofile,first,second)"), Ok("[-v|-ofile|file|||first|second]".to_string()));
    assert_eq!(ctx.expand("%opt(first,-v)"), Ok("[-v|||||first|]".to_string()));
    assert_eq!(ctx.expand("%opt(-oone,-otwo)"), Ok("[|-oone|one||||]".to_string()));
    assert_eq!(ctx.expand("%opt(-,--)"), Ok("[|||||-|--]".to_string()));
    assert_eq!(ctx.expand("%{-v}"), Ok("".to_string()));
}

#[test]
fn options_do_not_count_as_positional() {
    let ctx = context(&["f(a,b) %a,%b"]);
    assert_eq!(ctx.expand("%f(-x,one,-y,two)"), Ok("one,two".to_string()));
}

#[test]
fn conditionals_select_their_branch() {
    let ctx = context(&["set value", "empty"]);
    assert_eq!(ctx.expand("%{?set:yes}"), Ok("yes".to_string()));
    assert_eq!(ctx.expand("%{!?set:no}"), Ok("".to_string()));
    assert_eq!(ctx.expand("%{?unset:yes}"), Ok("".to_string()));
    assert_eq!(ctx.expand("%{!?unset:no}"), Ok("no".to_string()));
    assert_eq!(ctx.expand("%{?empty:yes}"), Ok("".to_string()));
    assert_eq!(ctx.expand("%{!?empty:no}"), Ok("no".to_string()));
    assert_eq!(ctx.expand("%{?set}"), Ok("value".to_string()));
    assert_eq!(ctx.expand("%{?unset}"), Ok("".to_string()));
    assert_eq!(ctx.expand("%{!?set}"), Ok("".to_string()));
    assert_eq!(ctx.expand("%{!?unset}"), Ok("".to_string()));
}

#[test]
fn conditional_branch_is_expanded() {
    let ctx = context(&["set value", "f(a) <%a>"]);
    assert_eq!(ctx.expand("%{?set:[%set %{f(x)} %%]}"), Ok("[value <x> %]".to_string()));
    assert_eq!(ctx.expand("%{?set:%{?set:%{!?unset:deep}}}"), Ok("deep".to_string()));
}

#[test]
fn conditional_on_parameter() {
    let ctx = context(&["f(a) %{?a:has %a}%{!?a:none}"]);
    assert_eq!(ctx.expand("%f(x)"), Ok("has x".to_string()));
    assert_eq!(ctx.expand("%f"), Ok("none".to_string()));
}

#[test]
fn fault_in_selected_branch_has_offset_in_text() {
    let ctx = context(&["set value"]);
    assert_eq!(ctx.expand("ab%{?set:c%}"), Err(Error::Parse(10, ParseFault::EmptyName)));
    assert_eq!(ctx.expand("ab%{!?set:c%}"), Ok("ab".to_string()));
    assert_eq!(ctx.expand("\u{e9}%{?set:%{-}}"), Err(Error::Parse(9, ParseFault::MalformedFlag)));
}

#[test]
fn fault_in_body_has_offset_in_body() {
    let ctx = context(&["bad 12%{"]);
    assert_eq!(ctx.expand("lots of text before %bad"), Err(Error::Parse(2, ParseFault::UnterminatedBrace)));
}

#[test]
fn output_before_a_fault_is_dropped() {
    let ctx = context(&["a ok"]);
    assert_eq!(ctx.expand("%a %a %"), Err(Error::Parse(6, ParseFault::EmptyName)));
}

#[test]
fn expressions_follow_precedence() {
    let ctx = context(&[]);
    assert_eq!(ctx.expand("%[1+2*3]"), Ok("7".to_string()));
    assert_eq!(ctx.expand("%[(1+2)*3]"), Ok("9".to_string()));
    assert_eq!(ctx.expand("%[10-4-3]"), Ok("3".to_string()));
    assert_eq!(ctx.expand("%[100/5/2]"), Ok("10".to_string()));
    assert_eq!(ctx.expand("%[2*3+4*5]"), Ok("26".to_string()));
    assert_eq!(ctx.expand("%[ 2 - 5 ]"), Ok("-3".to_string()));
    assert_eq!(ctx.expand("%[0]"), Ok("0".to_string()));
    assert_eq!(ctx.expand("%[007]"), Ok("7".to_string()));
    assert_eq!(ctx.expand("=%[1 + 1]="), Ok("=2=".to_string()));
}

#[test]
fn expressions_divide_toward_zero() {
    assert_eq!(evaluate(&text("7/2")), Ok(3));
    assert_eq!(evaluate(&text("-7/2")), Ok(-3));
    assert_eq!(evaluate(&text("7/-2")), Ok(-3));
    assert_eq!(evaluate(&text("-7/-2")), Ok(3));
    assert_eq!(evaluate(&text("0/5")), Ok(0));
    assert_eq!(evaluate(&text("6/3")), Ok(2));
}

#[test]
fn expressions_with_minus_signs() {
    assert_eq!(evaluate(&text("-1")), Ok(-1));
    assert_eq!(evaluate(&text("--1")), Ok(1));
    assert_eq!(evaluate(&text("1 - -2")), Ok(3));
    assert_eq!(evaluate(&text("1--2")), Ok(3));
    assert_eq!(evaluate(&text("2*-3")), Ok(-6));
    assert_eq!(evaluate(&text("-(1+2)")), Ok(-3));
    assert_eq!(evaluate(&text("-2+3")), Ok(1));
    assert_eq!(evaluate(&text("- 4")), Ok(-4));
    assert_eq!(evaluate(&text("((3))")), Ok(3));
    assert_eq!(evaluate(&text("(1)-(2)")), Ok(-1));
}

#[test]
fn expressions_expand_macros_first() {
    let ctx = context(&["two 2", "neg -5", "sum %[%two+%two]", "scale(n) %[%n*10]"]);
    assert_eq!(ctx.expand("%[%two * 21]"), Ok("42".to_string()));
    assert_eq!(ctx.expand("%[%neg + 1]"), Ok("-4".to_string()));
    assert_eq!(ctx.expand("%[%sum * %sum]"), Ok("16".to_string()));
    assert_eq!(ctx.expand("%scale(7)"), Ok("70".to_string()));
    assert_eq!(ctx.expand("%[%[1-2]*3]"), Ok("-3".to_string()));
}

#[test]
fn expression_reports_division_by_zero() {
    let ctx = context(&[]);
    assert_eq!(ctx.expand("ab%[1/0]"), Err(Error::Parse(2, ParseFault::DivisionByZero)));
    assert_eq!(evaluate(&text("5/(2-2)")), Err(ParseFault::DivisionByZero));
}

#[test]
fn expression_reports_overflow() {
    let ctx = context(&[]);
    assert_eq!(ctx.expand("%[9223372036854775807]"), Ok("9223372036854775807".to_string()));
    assert_eq!(ctx.expand("%[9223372036854775807+1]"), Err(Error::Parse(0, ParseFault::ArithmeticOverflow)));
    assert_eq!(ctx.expand("%[9223372036854775808]"), Err(Error::Parse(0, ParseFault::ArithmeticOverflow)));
    assert_eq!(ctx.expand("%[0-9223372036854775807-1]"), Ok("-9223372036854775808".to_string()));
    assert_eq!(evaluate(&text("-(0-9223372036854775807-1)")), Err(ParseFault::ArithmeticOverflow));
    assert_eq!(evaluate(&text("(0-9223372036854775807-1)/-1")), Err(ParseFault::ArithmeticOverflow));
    assert_eq!(evaluate(&text("4611686018427387904*2")), Err(ParseFault::ArithmeticOverflow));
    assert_eq!(evaluate(&text("99999999999999999999999999999999999999999999")), Err(ParseFault::ArithmeticOverflow));
}

#[test]
fn expression_reports_malformed_text() {
    let ctx = context(&[]);
    assert_eq!(ctx.expand("x%[]"), Err(Error::Parse(1, ParseFault::MalformedExpression)));
    for e in ["", " ", "1+", "+1", "*", "1 2", "(1", "1)", "()", "(1)(2)", "a", "1+a", "1 + + 2", "2**3", "-", "1.5", ")1("] {
        assert_eq!(evaluate(&text(e)), Err(ParseFault::MalformedExpression));
    }
}

#[test]
fn expression_reports_left_fault_first() {
    assert_eq!(evaluate(&text("1/0 + a")), Err(ParseFault::DivisionByZero));
    assert_eq!(evaluate(&text("a + 1/0")), Err(ParseFault::MalformedExpression));
}

#[test]
fn numbers_are_written_in_decimal() {
    assert_eq!(render(0), text("0"));
    assert_eq!(render(9), text("9"));
    assert_eq!(render(10), text("10"));
    assert_eq!(render(1234567890), text("1234567890"));
    assert_eq!(render(-1), text("-1"));
    assert_eq!(render(i64::MAX), text("9223372036854775807"));
    assert_eq!(render(i64::MIN), text("-9223372036854775808"));
}

#[test]
fn names_are_letters_digits_underscores() {
    assert!(check_name(&text("name")));
    assert!(check_name(&text("_")));
    assert!(check_name(&text("a1_B2")));
    assert!(!check_name(&text("")));
    assert!(!check_name(&text("1a")));
    assert!(!check_name(&text("a b")));
    assert!(!check_name(&text("a-b")));
    assert!(!check_name(&text("caf\u{e9}")));
}

#[test]
fn lists_split_at_commas() {
    let t = text("(a,bc,,d)");
    assert_eq!(read_list(&t, 1, 8), vec![text("a"), text("bc"), text(""), text("d")]);
    assert_eq!(read_list(&t, 1, 1), Vec::<Vec<char>>::new());
    assert_eq!(split_range(&t, 1, 1, ','), vec![text("")]);
    assert_eq!(split_range(&t, 0, 9, ','), vec![text("(a"), text("bc"), text(""), text("d)")]);
    assert_eq!(split_range(&t, 3, 5, ','), vec![text("bc")]);
}

#[test]
fn closing_brace_matches_nesting() {
    let t = text("a{b}c}d}");
    assert_eq!(seek_closing(&t, 0, 8, '{', '}'), 5);
    assert_eq!(seek_closing(&t, 2, 8, '{', '}'), 3);
    assert_eq!(seek_closing(&t, 0, 5, '{', '}'), 5);
    assert_eq!(seek_closing(&t, 6, 7, '{', '}'), 7);
    assert!(same_text(&t, &text("a{b}c}d}")));
    assert!(!same_text(&t, &text("a{b}c}d")));
}

#[test]
fn config_fault_descriptions() {
    assert_eq!(ConfigFault::EmptyName.describe(), "macro name is empty");
    assert_eq!(ConfigFault::MalformedName.describe(), "macro name is malformed");
    assert_eq!(ConfigFault::UnbalancedParameters.describe(), "parameter list is not closed");
    assert_eq!(ConfigFault::MalformedParameter.describe(), "parameter is not a name");
    assert_eq!(ConfigFault::MissingSeparator.describe(), "no blank between parameter list and body");
    assert_eq!(Error::Config(ConfigFault::EmptyName).describe(), "macro name is empty");
}
