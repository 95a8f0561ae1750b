//! Laws of the engine: what defining, removing and expanding have to do
//! with one another, proved from the definitions of the other modules.

use vstd::prelude::*;
use crate::definition::{definition_of, DefinitionView};
use crate::error::{ConfigFault, ErrorView};
use crate::expand::{
    argument, directive_value, expand_range, expansion_of, frame_for, is_option, is_set, positionals,
    positionals_below, prepend, reference_value, resolve, top_frame, Binding, Env, FrameView,
};
use crate::expr::{all_digits, digits_value};
use crate::table::{lookup_in, top_index, without_top};
use crate::text::{
    blank_class, is_blank, is_name, is_name_char, lemma_closing_is, lemma_run_end_is, name_class, other_than,
};
use crate::token::{token_at, DirectiveKind, DirectiveView, Scan, TokenView};

verus! {

/// A text without any `%`.
pub open spec fn is_literal(text: Seq<char>) -> bool {
    forall|i: int| 0 <= i < text.len() ==> #[trigger] text[i] != '%'
}

/// The definition string `<name> <body>`.
pub open spec fn definition_text(name: Seq<char>, body: Seq<char>) -> Seq<char> {
    name + seq![' '] + body
}

/// The text `%<name>`.
pub open spec fn bare_reference(name: Seq<char>) -> Seq<char> {
    seq!['%'] + name
}

/// The text `%{<name>}`.
pub open spec fn braced_reference(name: Seq<char>) -> Seq<char> {
    seq!['%', '{'] + name + seq!['}']
}

/// The text `%{?<name>:<branch>}`.
pub open spec fn conditional_text(name: Seq<char>, branch: Seq<char>) -> Seq<char> {
    seq!['%', '{', '?'] + name + seq![':'] + branch + seq!['}']
}

/// The directive that a plain reference to `name` is read as.
pub open spec fn plain_reference(name: Seq<char>) -> DirectiveView {
    DirectiveView { kind: DirectiveKind::Reference, name, args: Seq::empty(), alt: None, alt_start: 0 }
}

/// A range without `%` expands to itself.
pub proof fn lemma_literal_range(env: Env, frame: FrameView, text: Seq<char>, lo: int, hi: int, depth: nat)
    requires
        0 <= lo <= hi <= text.len(),
        forall|i: int| lo <= i < hi ==> #[trigger] text[i] != '%',
    ensures
        expand_range(env, frame, text, lo, hi, depth) == Ok::<Seq<char>, ErrorView>(text.subrange(lo, hi)),
{
    if lo < hi {
        lemma_run_end_is(text, lo, hi, other_than('%'), hi);
        assert(token_at(text, lo, hi) == Scan::Found { token: TokenView::Literal(text.subrange(lo, hi)), next: hi });
        assert(token_at(text, hi, hi) == Scan::End);
        assert(expand_range(env, frame, text, hi, hi, depth) == Ok::<Seq<char>, ErrorView>(Seq::empty()));
        assert(text.subrange(lo, hi) + Seq::<char>::empty() =~= text.subrange(lo, hi));
    } else {
        assert(text.subrange(lo, hi) =~= Seq::<char>::empty());
    }
}

/// A literal span at the start of a range stands for itself, in front of
/// what the rest of the range stands for.
pub proof fn lemma_literal_prefix(
    env: Env,
    frame: FrameView,
    text: Seq<char>,
    lo: int,
    mid: int,
    hi: int,
    depth: nat,
)
    requires
        0 <= lo <= mid <= hi <= text.len(),
        forall|i: int| lo <= i < mid ==> #[trigger] text[i] != '%',
        mid < hi ==> text[mid] == '%',
    ensures
        expand_range(env, frame, text, lo, hi, depth) == prepend(
            text.subrange(lo, mid),
            expand_range(env, frame, text, mid, hi, depth),
        ),
{
    if lo < mid {
        lemma_run_end_is(text, lo, hi, other_than('%'), mid);
        assert(token_at(text, lo, hi) == Scan::Found { token: TokenView::Literal(text.subrange(lo, mid)), next: mid });
    } else {
        assert(text.subrange(lo, mid) =~= Seq::<char>::empty());
        match expand_range(env, frame, text, mid, hi, depth) {
            Ok(s) => {
                assert(Seq::<char>::empty() + s =~= s);
            },
            Err(_) => {},
        }
    }
}

/// Expanding a text that holds no directive gives the text unchanged,
/// whatever the table, the frame and the depth.
pub proof fn lemma_literal_unchanged(env: Env, text: Seq<char>, depth: nat)
    requires
        is_literal(text),
    ensures
        expansion_of(env, text, depth) == Ok::<Seq<char>, ErrorView>(text),
{
    lemma_literal_range(env, top_frame(), text, 0, text.len() as int, depth);
    assert(text.subrange(0, text.len() as int) =~= text);
}

/// `%<name>` is read as one plain reference to `name`.
pub proof fn lemma_bare_reference(name: Seq<char>)
    requires
        is_name(name),
    ensures
        token_at(bare_reference(name), 0, bare_reference(name).len() as int) == (Scan::Found {
            token: TokenView::Directive(plain_reference(name)),
            next: bare_reference(name).len() as int,
        }),
{
    let t = bare_reference(name);
    let len = t.len() as int;
    assert(forall|i: int| 1 <= i < len ==> t[i] == name[i - 1]);
    assert(is_name_char(name[0]));
    assert forall|i: int| 1 <= i < len implies name_class()(#[trigger] t[i]) by {
        assert(is_name_char(name[i - 1]));
    }
    lemma_run_end_is(t, 1, len, name_class(), len);
    assert(t.subrange(1, len) =~= name);
}

/// `%{<name>}` is read as one plain reference to `name`.
pub proof fn lemma_braced_reference(name: Seq<char>)
    requires
        is_name(name),
    ensures
        token_at(braced_reference(name), 0, braced_reference(name).len() as int) == (Scan::Found {
            token: TokenView::Directive(plain_reference(name)),
            next: braced_reference(name).len() as int,
        }),
{
    let t = braced_reference(name);
    let len = t.len() as int;
    assert(forall|i: int| 2 <= i < len - 1 ==> t[i] == name[i - 2]);
    assert(t[len - 1] == '}');
    assert(is_name_char(name[0]));
    assert forall|i: int| 2 <= i < len - 1 implies #[trigger] t[i] != '{' && t[i] != '}' by {
        assert(is_name_char(name[i - 2]));
    }
    lemma_closing_is(t, 2, len, '{', '}', len - 1);
    assert forall|i: int| 2 <= i < len - 1 implies name_class()(#[trigger] t[i]) by {
        assert(is_name_char(name[i - 2]));
    }
    lemma_run_end_is(t, 2, len - 1, name_class(), len - 1);
    assert(t.subrange(2, len - 1) =~= name);
}

/// The definition made last is the one in force.
pub proof fn lemma_top_after_push(table: Seq<DefinitionView>, d: DefinitionView)
    ensures
        top_index(table.push(d), d.name) == Some(table.len() as int),
        lookup_in(table.push(d), d.name) == Some(d),
        without_top(table.push(d), d.name) == table,
{
    assert(table.push(d).remove(table.len() as int) =~= table);
}

/// A name outside every macro stands for the macro that the table holds.
pub proof fn lemma_resolve_macro(table: Seq<DefinitionView>, name: Seq<char>)
    requires
        is_name(name),
    ensures
        resolve(table, top_frame(), name) == match lookup_in(table, name) {
            Some(d) => Binding::Macro(d),
            None => Binding::Undefined,
        },
{
    assert(!crate::text::is_digit(name[0]));
}

/// Defining `<name> <body>` and then expanding `%<name>` gives `body`,
/// for every name, every body that holds no directive and does not start
/// with a blank, every table before, and every depth of at least 1.
pub proof fn lemma_define_then_expand(
    table: Seq<DefinitionView>,
    strict: bool,
    name: Seq<char>,
    body: Seq<char>,
    level: int,
    scope: u64,
    depth: nat,
)
    requires
        is_name(name),
        is_literal(body),
        body.len() > 0 ==> !is_blank(body[0]),
        depth >= 1,
    ensures
        definition_of(definition_text(name, body), level, scope) == Ok::<DefinitionView, ConfigFault>(
            DefinitionView { name, parameters: None, body, level, scope },
        ),
        expansion_of(
            Env { table: table.push(DefinitionView { name, parameters: None, body, level, scope }), strict },
            bare_reference(name),
            depth,
        ) == Ok::<Seq<char>, ErrorView>(body),
{
    let d = DefinitionView { name, parameters: None, body, level, scope };
    let s = definition_text(name, body);
    let len = s.len() as int;
    let n = name.len() as int;
    assert(forall|i: int| 0 <= i < n ==> s[i] == name[i]);
    assert(s[n] == ' ');
    assert(forall|i: int| n < i < len ==> s[i] == body[i - n - 1]);
    assert forall|i: int| 0 <= i < n implies name_class()(#[trigger] s[i]) by {
        assert(is_name_char(name[i]));
    }
    lemma_run_end_is(s, 0, len, name_class(), n);
    lemma_run_end_is(s, n, len, blank_class(), n + 1);
    assert(s.subrange(0, n) =~= name);
    assert(s.subrange(n + 1, len) =~= body);

    let env = Env { table: table.push(d), strict };
    let t = bare_reference(name);
    let tl = t.len() as int;
    lemma_bare_reference(name);
    lemma_top_after_push(table, d);
    lemma_resolve_macro(env.table, name);
    let inner = frame_for(d, Seq::empty());
    lemma_literal_range(env, inner, body, 0, body.len() as int, (depth - 1) as nat);
    assert(body.subrange(0, body.len() as int) =~= body);
    assert(reference_value(env, top_frame(), plain_reference(name), depth) == Ok::<Seq<char>, ErrorView>(body));
    assert(directive_value(env, top_frame(), t, plain_reference(name), depth) == Ok::<Seq<char>, ErrorView>(body));
    assert(token_at(t, tl, tl) == Scan::End);
    assert(expand_range(env, top_frame(), t, tl, tl, depth) == Ok::<Seq<char>, ErrorView>(Seq::empty()));
    assert(body + Seq::<char>::empty() =~= body);
}

/// Shadowing: after a second definition of a name is made and removed
/// again, every text expands as it did with the first alone.
pub proof fn lemma_shadow_then_pop(
    table: Seq<DefinitionView>,
    first: DefinitionView,
    second: DefinitionView,
    strict: bool,
    text: Seq<char>,
    depth: nat,
)
    requires
        first.name == second.name,
    ensures
        lookup_in(table.push(first).push(second), first.name) == Some(second),
        without_top(table.push(first).push(second), first.name) == table.push(first),
        lookup_in(without_top(table.push(first).push(second), first.name), first.name) == Some(first),
        expansion_of(Env { table: without_top(table.push(first).push(second), first.name), strict }, text, depth)
            == expansion_of(Env { table: table.push(first), strict }, text, depth),
{
    lemma_top_after_push(table.push(first), second);
    lemma_top_after_push(table, first);
}

/// The recursion guard: where the definition of `name` in force has the
/// body `%{<name>}` and no parameters, expanding that body fails with
/// `RecursionLimit` at every depth and whatever the arguments.
pub proof fn lemma_self_reference_body(env: Env, name: Seq<char>, args: Seq<Seq<char>>, depth: nat)
    requires
        is_name(name),
        lookup_in(env.table, name) matches Some(d) && d.body == braced_reference(name) && d.parameters is None,
    ensures
        expand_range(
            env,
            FrameView { formals: Seq::empty(), args },
            braced_reference(name),
            0,
            braced_reference(name).len() as int,
            depth,
        ) == Err::<Seq<char>, ErrorView>(ErrorView::RecursionLimit),
    decreases depth,
{
    let d = lookup_in(env.table, name)->0;
    let t = braced_reference(name);
    let frame = FrameView { formals: Seq::empty(), args };
    lemma_braced_reference(name);
    assert(!crate::text::is_digit(name[0]));
    assert(resolve(env.table, frame, name) == Binding::Macro(d));
    if depth > 0 {
        assert(frame_for(d, Seq::empty()) == FrameView { formals: Seq::empty(), args: Seq::empty() });
        lemma_self_reference_body(env, name, Seq::empty(), (depth - 1) as nat);
    }
    assert(reference_value(env, frame, plain_reference(name), depth) == Err::<Seq<char>, ErrorView>(
        ErrorView::RecursionLimit,
    ));
    assert(directive_value(env, frame, t, plain_reference(name), depth) == Err::<Seq<char>, ErrorView>(
        ErrorView::RecursionLimit,
    ));
}

/// The recursion guard: a macro whose body is a reference to itself makes
/// every expansion of a reference to it fail with `RecursionLimit`, at
/// every depth, rather than go on for ever.
pub proof fn lemma_self_reference_fails(env: Env, name: Seq<char>, depth: nat)
    requires
        is_name(name),
        lookup_in(env.table, name) matches Some(d) && d.body == braced_reference(name) && d.parameters is None,
    ensures
        expansion_of(env, braced_reference(name), depth) == Err::<Seq<char>, ErrorView>(ErrorView::RecursionLimit),
        expansion_of(env, bare_reference(name), depth) == Err::<Seq<char>, ErrorView>(ErrorView::RecursionLimit),
{
    let d = lookup_in(env.table, name)->0;
    lemma_self_reference_body(env, name, Seq::empty(), depth);
    let t = bare_reference(name);
    lemma_bare_reference(name);
    lemma_resolve_macro(env.table, name);
    if depth > 0 {
        assert(frame_for(d, Seq::empty()) == FrameView { formals: Seq::empty(), args: Seq::empty() });
        lemma_self_reference_body(env, name, Seq::empty(), (depth - 1) as nat);
    }
    assert(reference_value(env, top_frame(), plain_reference(name), depth) == Err::<Seq<char>, ErrorView>(
        ErrorView::RecursionLimit,
    ));
    assert(directive_value(env, top_frame(), t, plain_reference(name), depth) == Err::<Seq<char>, ErrorView>(
        ErrorView::RecursionLimit,
    ));
}

/// A reference to a name that has no definition expands to nothing under
/// the lenient policy, and fails with `Undefined` under the strict one.
pub proof fn lemma_undefined_reference(env: Env, name: Seq<char>, depth: nat)
    requires
        is_name(name),
        lookup_in(env.table, name) is None,
    ensures
        expansion_of(env, bare_reference(name), depth) == if env.strict {
            Err::<Seq<char>, ErrorView>(ErrorView::Undefined(name))
        } else {
            Ok::<Seq<char>, ErrorView>(Seq::empty())
        },
{
    let t = bare_reference(name);
    let tl = t.len() as int;
    lemma_bare_reference(name);
    lemma_resolve_macro(env.table, name);
    assert(reference_value(env, top_frame(), plain_reference(name), depth) == if env.strict {
        Err::<Seq<char>, ErrorView>(ErrorView::Undefined(name))
    } else {
        Ok::<Seq<char>, ErrorView>(Seq::empty())
    });
    assert(directive_value(env, top_frame(), t, plain_reference(name), depth) == reference_value(
        env,
        top_frame(),
        plain_reference(name),
        depth,
    ));
    assert(token_at(t, tl, tl) == Scan::End);
    assert(expand_range(env, top_frame(), t, tl, tl, depth) == Ok::<Seq<char>, ErrorView>(Seq::empty()));
    assert(Seq::<char>::empty() + Seq::<char>::empty() =~= Seq::<char>::empty());
}

/// Escaping: a literal text followed by `%%` expands to the text followed
/// by one `%`.
pub proof fn lemma_escaped_percent(env: Env, text: Seq<char>, depth: nat)
    requires
        is_literal(text),
    ensures
        expansion_of(env, text + seq!['%', '%'], depth) == Ok::<Seq<char>, ErrorView>(text + seq!['%']),
{
    let t = text + seq!['%', '%'];
    let n = text.len() as int;
    let len = t.len() as int;
    assert(forall|i: int| 0 <= i < n ==> t[i] == text[i]);
    assert(t[n] == '%' && t[n + 1] == '%');
    lemma_literal_prefix(env, top_frame(), t, 0, n, len, depth);
    assert(token_at(t, n, len) == Scan::Found { token: TokenView::Literal(seq!['%']), next: len });
    assert(token_at(t, len, len) == Scan::End);
    assert(expand_range(env, top_frame(), t, len, len, depth) == Ok::<Seq<char>, ErrorView>(Seq::empty()));
    assert(seq!['%'] + Seq::<char>::empty() =~= seq!['%']);
    assert(expand_range(env, top_frame(), t, n, len, depth) == Ok::<Seq<char>, ErrorView>(seq!['%']));
    assert(t.subrange(0, n) =~= text);
}

/// The text `%<name>(<arg>)`.
pub open spec fn call_text(name: Seq<char>, arg: Seq<char>) -> Seq<char> {
    seq!['%'] + name + seq!['('] + arg + seq![')']
}

/// `%<name>(<arg>)` is read as one reference to `name` with the single
/// argument `arg`, where `arg` is not empty and holds neither a comma nor a
/// closing parenthesis.
pub proof fn lemma_call_token(name: Seq<char>, arg: Seq<char>)
    requires
        is_name(name),
        arg.len() > 0,
        forall|i: int| 0 <= i < arg.len() ==> #[trigger] arg[i] != ',' && arg[i] != ')',
    ensures
        token_at(call_text(name, arg), 0, call_text(name, arg).len() as int) == (Scan::Found {
            token: TokenView::Directive(
                DirectiveView {
                    kind: DirectiveKind::Reference,
                    name,
                    args: seq![arg],
                    alt: None,
                    alt_start: 0,
                },
            ),
            next: call_text(name, arg).len() as int,
        }),
{
    let t = call_text(name, arg);
    let len = t.len() as int;
    let n = name.len() as int;
    assert(forall|i: int| 1 <= i < 1 + n ==> t[i] == name[i - 1]);
    assert(t[1 + n] == '(');
    assert(forall|i: int| 2 + n <= i < len - 1 ==> t[i] == arg[i - 2 - n]);
    assert(t[len - 1] == ')');
    assert(is_name_char(name[0]));
    assert forall|i: int| 1 <= i < 1 + n implies name_class()(#[trigger] t[i]) by {
        assert(is_name_char(name[i - 1]));
    }
    lemma_run_end_is(t, 1, len, name_class(), 1 + n);
    assert forall|i: int| 2 + n <= i < len - 1 implies other_than(')')(#[trigger] t[i]) by {
        assert(arg[i - 2 - n] != ')');
    }
    lemma_run_end_is(t, 2 + n, len, other_than(')'), len - 1);
    assert forall|i: int| 2 + n <= i < len - 1 implies other_than(',')(#[trigger] t[i]) by {
        assert(arg[i - 2 - n] != ',');
    }
    lemma_run_end_is(t, 2 + n, len - 1, other_than(','), len - 1);
    assert(t.subrange(1, 1 + n) =~= name);
    assert(t.subrange(2 + n, len - 1) =~= arg);
    assert(crate::text::split_at(t, 2 + n, len - 1, ',') =~= seq![arg]);
}

/// Parameter binding: where the definition of `name` in force has the body
/// `<prefix>%1`, the call `%<name>(<arg>)` expands to `<prefix><arg>`, for
/// every literal prefix and every argument that is not empty, is no option
/// and holds neither a comma nor a closing parenthesis.
pub proof fn lemma_first_argument(env: Env, name: Seq<char>, prefix: Seq<char>, arg: Seq<char>, depth: nat)
    requires
        is_name(name),
        is_literal(prefix),
        lookup_in(env.table, name) matches Some(d) && d.body == prefix + seq!['%', '1'],
        arg.len() > 0,
        !is_option(arg),
        forall|i: int| 0 <= i < arg.len() ==> #[trigger] arg[i] != ',' && arg[i] != ')',
        depth >= 1,
    ensures
        expansion_of(env, call_text(name, arg), depth) == Ok::<Seq<char>, ErrorView>(prefix + arg),
{
    let d = lookup_in(env.table, name)->0;
    let t = call_text(name, arg);
    let len = t.len() as int;
    let call = DirectiveView {
        kind: DirectiveKind::Reference,
        name,
        args: seq![arg],
        alt: None,
        alt_start: 0,
    };
    lemma_call_token(name, arg);
    lemma_resolve_macro(env.table, name);

    let inner = frame_for(d, seq![arg]);
    let body = d.body;
    let p = prefix.len() as int;
    let bl = body.len() as int;
    let below = (depth - 1) as nat;
    assert(forall|i: int| 0 <= i < p ==> body[i] == prefix[i]);
    assert(body[p] == '%' && body[p + 1] == '1');
    lemma_literal_prefix(env, inner, body, 0, p, bl, below);
    lemma_run_end_is(body, p + 1, bl, name_class(), bl);
    let one = body.subrange(p + 1, bl);
    assert(one =~= seq!['1']);
    assert(token_at(body, p, bl) == Scan::Found { token: TokenView::Directive(plain_reference(one)), next: bl });
    assert(all_digits(one, 0, 1));
    assert(digits_value(one, 0, 1) == 1) by {
        assert(digits_value(one, 0, 0) == 0);
    }
    assert(positionals(inner.args) =~= seq![arg]) by {
        assert(positionals_below(inner.args, 0) =~= Seq::<Seq<char>>::empty());
        assert(positionals_below(inner.args, 1) =~= seq![arg]);
    }
    assert(argument(inner.args, 0) == Binding::Value(arg));
    assert(resolve(env.table, inner, one) == Binding::Value(arg));
    assert(reference_value(env, inner, plain_reference(one), below) == Ok::<Seq<char>, ErrorView>(arg));
    assert(directive_value(env, inner, body, plain_reference(one), below) == Ok::<Seq<char>, ErrorView>(arg));
    assert(token_at(body, bl, bl) == Scan::End);
    assert(expand_range(env, inner, body, bl, bl, below) == Ok::<Seq<char>, ErrorView>(Seq::empty()));
    assert(arg + Seq::<char>::empty() =~= arg);
    assert(expand_range(env, inner, body, p, bl, below) == Ok::<Seq<char>, ErrorView>(arg));
    assert(body.subrange(0, p) =~= prefix);
    assert(expand_range(env, inner, body, 0, bl, below) == Ok::<Seq<char>, ErrorView>(prefix + arg));

    assert(reference_value(env, top_frame(), call, depth) == Ok::<Seq<char>, ErrorView>(prefix + arg));
    assert(directive_value(env, top_frame(), t, call, depth) == Ok::<Seq<char>, ErrorView>(prefix + arg));
    assert(token_at(t, len, len) == Scan::End);
    assert(expand_range(env, top_frame(), t, len, len, depth) == Ok::<Seq<char>, ErrorView>(Seq::empty()));
    assert((prefix + arg) + Seq::<char>::empty() =~= prefix + arg);
}

/// Short circuit: a conditional whose condition does not hold stands for
/// nothing, whatever its text would expand to.
pub proof fn lemma_unselected_branch(env: Env, frame: FrameView, text: Seq<char>, d: DirectiveView, depth: nat)
    requires
        (d.kind is WhenDefined && !is_set(env, frame, d.name)) || (d.kind is WhenUndefined && is_set(
            env,
            frame,
            d.name,
        )),
    ensures
        directive_value(env, frame, text, d, depth) == Ok::<Seq<char>, ErrorView>(Seq::empty()),
{
}

/// Short circuit: `%{?<name>:<branch>}` expands to nothing where `name`
/// is not set, whatever `branch` holds, be it malformed or a reference to
/// a macro that fails. The closing brace must be the one that matches the
/// opening one.
pub proof fn lemma_conditional_skips(env: Env, name: Seq<char>, branch: Seq<char>, depth: nat)
    requires
        is_name(name),
        !is_set(env, top_frame(), name),
        crate::text::closing(
            conditional_text(name, branch),
            2,
            conditional_text(name, branch).len() as int,
            '{',
            '}',
            0,
        ) == conditional_text(name, branch).len() - 1,
    ensures
        expansion_of(env, conditional_text(name, branch), depth) == Ok::<Seq<char>, ErrorView>(Seq::empty()),
{
    let t = conditional_text(name, branch);
    let len = t.len() as int;
    let n = name.len() as int;
    assert(forall|i: int| 3 <= i < 3 + n ==> t[i] == name[i - 3]);
    assert(t[3 + n] == ':');
    assert forall|i: int| 3 <= i < 3 + n implies name_class()(#[trigger] t[i]) by {
        assert(is_name_char(name[i - 3]));
    }
    lemma_run_end_is(t, 3, len - 1, name_class(), 3 + n);
    assert(t.subrange(3, 3 + n) =~= name);
    let d = DirectiveView {
        kind: DirectiveKind::WhenDefined,
        name,
        args: Seq::empty(),
        alt: Some(t.subrange(4 + n, len - 1)),
        alt_start: 4 + n,
    };
    assert(token_at(t, 0, len) == Scan::Found { token: TokenView::Directive(d), next: len });
    lemma_unselected_branch(env, top_frame(), t, d, depth);
    assert(token_at(t, len, len) == Scan::End);
    assert(expand_range(env, top_frame(), t, len, len, depth) == Ok::<Seq<char>, ErrorView>(Seq::empty()));
    assert(Seq::<char>::empty() + Seq::<char>::empty() =~= Seq::<char>::empty());
}

} // verus!
