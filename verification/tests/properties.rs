use rpm_macros::{ContextId, Error, MacroContext};

fn fresh() -> MacroContext {
    MacroContext::new(ContextId(7))
}

#[test]
fn define_then_expand_returns_body() {
    for name in ["name", "a", "_x", "with_under_score", "CamelCase", "n1", "x9_y"] {
        let mut ctx = fresh();
        assert_eq!(ctx.define(&format!("{} body", name), 0), Ok(()));
        assert_eq!(ctx.expand(&format!("%{}", name)), Ok("body".to_string()));
    }
}

#[test]
fn define_then_expand_keeps_other_definitions() {
    let mut ctx = fresh();
    ctx.define("other stuff", 0).unwrap();
    ctx.define("name body text, with: punctuation", 3).unwrap();
    assert_eq!(ctx.expand("%name"), Ok("body text, with: punctuation".to_string()));
    assert_eq!(ctx.expand("%other"), Ok("stuff".to_string()));
}

#[test]
fn shadowing_pop_restores_prior_definition() {
    let mut ctx = fresh();
    ctx.define("name first", 0).unwrap();
    let before = ctx.expand("<%name>");
    ctx.define("name second", 0).unwrap();
    assert_eq!(ctx.expand("<%name>"), Ok("<second>".to_string()));
    assert_eq!(ctx.pop("name"), Ok(()));
    assert_eq!(ctx.expand("<%name>"), before);
    assert_eq!(ctx.expand("<%name>"), Ok("<first>".to_string()));
    assert_eq!(ctx.len(), 1);
}

#[test]
fn shadowing_keeps_order_of_other_names() {
    let mut ctx = fresh();
    ctx.define("a 1", 0).unwrap();
    ctx.define("b 2", 0).unwrap();
    ctx.define("a 3", 0).unwrap();
    ctx.define("c 4", 0).unwrap();
    assert_eq!(ctx.expand("%a%b%c"), Ok("324".to_string()));
    ctx.pop("a").unwrap();
    assert_eq!(ctx.expand("%a%b%c"), Ok("124".to_string()));
    ctx.pop("a").unwrap();
    assert_eq!(ctx.expand("%a%b%c"), Ok("24".to_string()));
    assert_eq!(ctx.pop("a"), Err(Error::NotFound("a".to_string())));
}

#[test]
fn self_reference_hits_recursion_limit() {
    for depth in [1usize, 2, 3, 10, 64, 500] {
        let mut ctx = MacroContext::with_policy(ContextId(1), false, depth);
        ctx.define("name %{name}", 0).unwrap();
        assert_eq!(ctx.expand("%{name}"), Err(Error::RecursionLimit));
        assert_eq!(ctx.expand("%name"), Err(Error::RecursionLimit));
        assert_eq!(ctx.expand("before %name after"), Err(Error::RecursionLimit));
    }
}

#[test]
fn self_reference_fails_at_depth_zero_too() {
    let mut ctx = MacroContext::with_policy(ContextId(1), false, 0);
    ctx.define("name %{name}", 0).unwrap();
    assert_eq!(ctx.expand("%name"), Err(Error::RecursionLimit));
}

#[test]
fn mutual_reference_hits_recursion_limit() {
    let mut ctx = fresh();
    ctx.define("ping %pong", 0).unwrap();
    ctx.define("pong %ping", 0).unwrap();
    assert_eq!(ctx.expand("%ping"), Err(Error::RecursionLimit));
}

#[test]
fn escaped_percent() {
    let ctx = fresh();
    assert_eq!(ctx.expand("100%%"), Ok("100%".to_string()));
    assert_eq!(ctx.expand("%%"), Ok("%".to_string()));
    assert_eq!(ctx.expand("%%%%"), Ok("%%".to_string()));
    assert_eq!(ctx.expand("a%%b%%c"), Ok("a%b%c".to_string()));
}

#[test]
fn escaped_percent_does_not_start_a_reference() {
    let mut ctx = fresh();
    ctx.define("name body", 0).unwrap();
    assert_eq!(ctx.expand("%%name"), Ok("%name".to_string()));
    assert_eq!(ctx.expand("%%%name"), Ok("%body".to_string()));
}

#[test]
fn undefined_reference_soft_policy() {
    let ctx = fresh();
    assert!(!ctx.is_strict());
    assert_eq!(ctx.expand("%undefined"), Ok("".to_string()));
    assert_eq!(ctx.expand("%{undefined}"), Ok("".to_string()));
    assert_eq!(ctx.expand("a%{undefined}b"), Ok("ab".to_string()));
}

#[test]
fn undefined_reference_strict_policy() {
    let mut ctx = fresh();
    ctx.set_strict(true);
    assert_eq!(ctx.expand("%undefined"), Err(Error::Undefined("undefined".to_string())));
    assert_eq!(ctx.expand("x %{missing} y"), Err(Error::Undefined("missing".to_string())));
    assert_eq!(ctx.expand("%{missing:fallback}"), Ok("fallback".to_string()));
    assert_eq!(ctx.expand("no directive"), Ok("no directive".to_string()));
}

#[test]
fn parameter_binding() {
    let mut ctx = fresh();
    assert_eq!(ctx.define("greet(name) hello %1", 0), Ok(()));
    assert_eq!(ctx.expand("%greet(world)"), Ok("hello world".to_string()));
}

#[test]
fn parameter_binding_by_name_and_number() {
    let mut ctx = fresh();
    ctx.define("pair(left,right) %right-%left/%2-%1", 0).unwrap();
    assert_eq!(ctx.expand("%pair(a,b)"), Ok("b-a/b-a".to_string()));
    assert_eq!(ctx.expand("%{pair(x,y)}!"), Ok("y-x/y-x!".to_string()));
}

#[test]
fn conditional_short_circuit() {
    let mut ctx = MacroContext::with_policy(ContextId(1), true, 8);
    ctx.define("crash %{crash}", 0).unwrap();
    assert_eq!(ctx.expand("%{crash}"), Err(Error::RecursionLimit));
    assert_eq!(ctx.expand("%{?defined:%{crash}}"), Ok("".to_string()));
    assert_eq!(ctx.expand("a%{?defined:%{crash}}b"), Ok("ab".to_string()));
    assert_eq!(ctx.expand("%{?defined:%{nothing_here}}"), Ok("".to_string()));
    assert_eq!(ctx.expand("%{?defined:%}"), Ok("".to_string()));
    ctx.define("defined yes", 0).unwrap();
    assert_eq!(ctx.expand("%{?defined:%{crash}}"), Err(Error::RecursionLimit));
    assert_eq!(ctx.expand("%{!?defined:%{crash}}"), Ok("".to_string()));
}

#[test]
fn literal_text_unchanged() {
    let mut ctx = fresh();
    ctx.define("name body", 0).unwrap();
    for text in ["", "plain", "with {braces} and (parens)", "name", "a\tb\nc", "unicode: \u{e9}\u{65e5}\u{1f600}", "[1+2]"] {
        assert_eq!(ctx.expand(text), Ok(text.to_string()));
    }
}

#[test]
fn expansion_result_is_fully_literal_again() {
    let mut ctx = fresh();
    ctx.define("name body", 0).unwrap();
    let once = ctx.expand("x %name y").unwrap();
    assert_eq!(once, "x body y");
    assert_eq!(ctx.expand(&once), Ok(once.clone()));
}
