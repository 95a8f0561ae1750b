//! Expansion: what a text stands for, given a macro table.
//!
//! Literal spans stand for themselves. A reference stands for the value of
//! the parameter that it names or, failing that, for the expansion of the
//! body of the macro that it names, one level deeper. Conditionals expand
//! their text only where their condition holds, so that what an unselected
//! text holds can never fail.
//!
//! The arguments of a call are taken as they are written, without being
//! expanded. Those of the form `-x..` are options, which `%{-x}` and
//! `%{-x*}` ask for; the others are bound to the parameters in order, and
//! `%1`, `%2`, .. name them by position. A parameter without an argument
//! stands for nothing, or for the alternative of `%{name:alternative}`.
//!
//! A name that is neither a parameter nor a macro stands for its
//! alternative or for nothing; under the strict policy, without an
//! alternative, it is an error.
//!
//! `depth` is the number of macro bodies that may still be entered, one
//! inside the other; it travels beside the frame and goes down by one with
//! each body entered. Entering a body at depth 0 is the `RecursionLimit`
//! error, which is what ends a macro that refers to itself.
//!
//! The offset of a `Parse` error counts bytes in the text that holds the
//! malformed directive: the input, or the body of the macro in which it
//! stands.

use vstd::prelude::*;
use crate::convert::string_of;
use crate::definition::{DefinitionView, MacroDefinition};
use crate::error::{Error, ErrorView};
use crate::expr::{all_digits, digits_value, evaluate, expression_value, integer_text, render};
use crate::table::{lookup_in, MacroTable};
use crate::text::{
    append_text, copy_range, copy_text, digit, is_digit, is_name_char, name_char, same_text, texts,
};
use crate::token::{
    alt_within, byte_offset, lemma_token_bounds, offset_at, scan_token, token_at, Directive, DirectiveKind,
    DirectiveView, Scan, Scanned, Token, TokenView,
};

verus! {

/// What expansion depends on besides the text: the table, and whether a
/// reference to an undefined name is an error.
pub struct Env {
    pub table: Seq<DefinitionView>,
    pub strict: bool,
}

/// The parameters of the macro whose body is being expanded, and the
/// arguments of the call.
pub struct FrameView {
    pub formals: Seq<Seq<char>>,
    pub args: Seq<Seq<char>>,
}

/// What a name stands for.
pub enum Binding {
    /// A parameter with this value.
    Value(Seq<char>),
    /// A parameter that the call gave no argument for.
    Unbound,
    /// The macro with this definition.
    Macro(DefinitionView),
    /// Nothing.
    Undefined,
}

/// The result of an expansion.
pub type Expansion = Result<Seq<char>, ErrorView>;

/// The frame outside every macro: no parameters, no arguments.
pub open spec fn top_frame() -> FrameView {
    FrameView { formals: Seq::empty(), args: Seq::empty() }
}

/// The frame in which the body of `d` is expanded for a call with `args`.
pub open spec fn frame_for(d: DefinitionView, args: Seq<Seq<char>>) -> FrameView {
    FrameView {
        formals: match d.parameters {
            Some(p) => p,
            None => Seq::empty(),
        },
        args,
    }
}

/// An argument is an option where it is a `-`, an option letter, and
/// whatever follows as the option's value.
pub open spec fn is_option(a: Seq<char>) -> bool {
    a.len() >= 2 && a[0] == '-' && is_name_char(a[1])
}

/// The arguments among the first `n` that are not options, in order.
pub open spec fn positionals_below(args: Seq<Seq<char>>, n: int) -> Seq<Seq<char>>
    decreases n,
{
    if n <= 0 || n > args.len() {
        Seq::empty()
    } else if is_option(args[n - 1]) {
        positionals_below(args, n - 1)
    } else {
        positionals_below(args, n - 1).push(args[n - 1])
    }
}

/// The positional arguments of a call: those that are not options.
pub open spec fn positionals(args: Seq<Seq<char>>) -> Seq<Seq<char>> {
    positionals_below(args, args.len() as int)
}

/// The first argument at or after `from` that is the option `c`.
pub open spec fn first_option(args: Seq<Seq<char>>, c: char, from: int) -> Option<Seq<char>>
    decreases args.len() - from,
{
    if !(0 <= from < args.len()) {
        None
    } else if is_option(args[from]) && args[from][1] == c {
        Some(args[from])
    } else {
        first_option(args, c, from + 1)
    }
}

/// The index of the first parameter at or after `from` that is `name`.
pub open spec fn formal_index(formals: Seq<Seq<char>>, name: Seq<char>, from: int) -> Option<int>
    decreases formals.len() - from,
{
    if !(0 <= from < formals.len()) {
        None
    } else if formals[from] == name {
        Some(from)
    } else {
        formal_index(formals, name, from + 1)
    }
}

/// What the parameter at index `k` is bound to.
pub open spec fn argument(args: Seq<Seq<char>>, k: int) -> Binding {
    if 0 <= k < positionals(args).len() {
        Binding::Value(positionals(args)[k])
    } else {
        Binding::Unbound
    }
}

/// What `name` stands for: a number is the positional argument of that
/// number, counted from 1; the name of a parameter is that parameter;
/// anything else is looked up in the table.
pub open spec fn resolve(table: Seq<DefinitionView>, frame: FrameView, name: Seq<char>) -> Binding {
    if all_digits(name, 0, name.len() as int) {
        argument(frame.args, digits_value(name, 0, name.len() as int) - 1)
    } else {
        match formal_index(frame.formals, name, 0) {
            Some(i) => argument(frame.args, i),
            None => match lookup_in(table, name) {
                Some(d) => Binding::Macro(d),
                None => Binding::Undefined,
            },
        }
    }
}

/// The condition of a conditional: the name stands for a value, or for a
/// macro with a body, that is not empty.
pub open spec fn is_set(env: Env, frame: FrameView, name: Seq<char>) -> bool {
    match resolve(env.table, frame, name) {
        Binding::Value(v) => v.len() > 0,
        Binding::Macro(d) => d.body.len() > 0,
        Binding::Unbound => false,
        Binding::Undefined => false,
    }
}

/// `prefix` in front of what `rest` gives.
pub open spec fn prepend(prefix: Seq<char>, rest: Expansion) -> Expansion {
    match rest {
        Ok(s) => Ok(prefix + s),
        Err(e) => Err(e),
    }
}

/// The alternative text of a directive, empty where it has none.
pub open spec fn alt_text(d: DirectiveView) -> Seq<char> {
    match d.alt {
        Some(a) => a,
        None => Seq::empty(),
    }
}

/// The value of an expression whose text has been expanded to `t`; the
/// `%` of the expression is at index `at` of `text`.
pub open spec fn expression_result(text: Seq<char>, at: int, t: Seq<char>) -> Expansion {
    match expression_value(t) {
        Ok(v) => Ok(integer_text(v)),
        Err(f) => Err(ErrorView::Parse(offset_at(text, at), f)),
    }
}

/// What a reference to `d.name` with the arguments `d.args` stands for.
pub open spec fn reference_value(env: Env, frame: FrameView, d: DirectiveView, depth: nat) -> Expansion
    decreases depth, 0int, 0int,
{
    match resolve(env.table, frame, d.name) {
        Binding::Value(v) => Ok(v),
        Binding::Unbound => Ok(alt_text(d)),
        Binding::Undefined => match d.alt {
            Some(a) => Ok(a),
            None => if env.strict {
                Err(ErrorView::Undefined(d.name))
            } else {
                Ok(Seq::empty())
            },
        },
        Binding::Macro(m) => if depth == 0 {
            Err(ErrorView::RecursionLimit)
        } else {
            expand_range(env, frame_for(m, d.args), m.body, 0, m.body.len() as int, (depth - 1) as nat)
        },
    }
}

/// What the directive `d`, read from `text`, stands for.
pub open spec fn directive_value(env: Env, frame: FrameView, text: Seq<char>, d: DirectiveView, depth: nat) -> Expansion
    decreases depth, alt_text(d).len() + 1, 0int,
{
    match d.kind {
        DirectiveKind::Reference => reference_value(env, frame, d, depth),
        DirectiveKind::WhenDefined => if is_set(env, frame, d.name) {
            match d.alt {
                Some(a) => expand_range(env, frame, text, d.alt_start, d.alt_start + a.len(), depth),
                None => reference_value(env, frame, d, depth),
            }
        } else {
            Ok(Seq::empty())
        },
        DirectiveKind::WhenUndefined => if is_set(env, frame, d.name) {
            Ok(Seq::empty())
        } else {
            match d.alt {
                Some(a) => expand_range(env, frame, text, d.alt_start, d.alt_start + a.len(), depth),
                None => Ok(Seq::empty()),
            }
        },
        DirectiveKind::Flag => Ok(
            match first_option(frame.args, d.name[0], 0) {
                Some(a) => a,
                None => Seq::empty(),
            },
        ),
        DirectiveKind::FlagValue => Ok(
            match first_option(frame.args, d.name[0], 0) {
                Some(a) => a.subrange(2, a.len() as int),
                None => Seq::empty(),
            },
        ),
        DirectiveKind::Expression => match d.alt {
            Some(a) => match expand_range(env, frame, text, d.alt_start, d.alt_start + a.len(), depth) {
                Ok(t) => expression_result(text, d.alt_start - 2, t),
                Err(e) => Err(e),
            },
            None => Ok(Seq::empty()),
        },
    }
}

/// What `text[pos..hi)` stands for: token by token, what each token
/// stands for, up to the first error.
pub open spec fn expand_range(env: Env, frame: FrameView, text: Seq<char>, pos: int, hi: int, depth: nat) -> Expansion
    decreases depth, hi - pos, 1int,
{
    match token_at(text, pos, hi) {
        Scan::End => Ok(Seq::empty()),
        Scan::Fault { offset, fault } => Err(ErrorView::Parse(offset, fault)),
        Scan::Found { token, next } => {
            proof {
                lemma_token_bounds(text, pos, hi);
            }
            match token {
                TokenView::Literal(t) => prepend(t, expand_range(env, frame, text, next, hi, depth)),
                TokenView::Directive(d) => match directive_value(env, frame, text, d, depth) {
                    Ok(piece) => prepend(piece, expand_range(env, frame, text, next, hi, depth)),
                    Err(e) => Err(e),
                },
            }
        },
    }
}

/// What `text` stands for outside every macro.
pub open spec fn expansion_of(env: Env, text: Seq<char>, depth: nat) -> Expansion {
    expand_range(env, top_frame(), text, 0, text.len() as int, depth)
}

/// The frame of one expansion: the parameters of the macro whose body is
/// being expanded and the arguments of the call, from which every
/// parameter's value is found. It lives for one call of the expander and
/// borrows from the table and from the directive that made the call.
pub struct ExpansionFrame<'a> {
    /// The parameter names of the macro, where it has a parameter list.
    pub formals: Option<&'a Vec<Vec<char>>>,
    /// The arguments of the call.
    pub args: &'a Vec<Vec<char>>,
}

impl<'a> View for ExpansionFrame<'a> {
    type V = FrameView;

    open spec fn view(&self) -> FrameView {
        FrameView {
            formals: match self.formals {
                Some(f) => texts(f@),
                None => Seq::empty(),
            },
            args: texts(self.args@),
        }
    }
}

/// What a name was found to stand for.
pub enum Bound<'a> {
    Value(&'a Vec<char>),
    Unbound,
    Macro(&'a MacroDefinition),
    Undefined,
}

impl<'a> View for Bound<'a> {
    type V = Binding;

    open spec fn view(&self) -> Binding {
        match self {
            Bound::Value(v) => Binding::Value(v@),
            Bound::Unbound => Binding::Unbound,
            Bound::Macro(d) => Binding::Macro(d@),
            Bound::Undefined => Binding::Undefined,
        }
    }
}

/// The mathematical value of what an expansion gave.
pub open spec fn expansion_view(r: Result<Vec<char>, Error>) -> Expansion {
    match r {
        Ok(v) => Ok(v@),
        Err(e) => Err(e@),
    }
}

/// The `Env` that a table and a policy make.
pub open spec fn env_of(table: &MacroTable, strict: bool) -> Env {
    Env { table: table@, strict }
}

/// The positional arguments among the first `i` stay where they are when
/// more arguments are taken in.
pub proof fn lemma_positionals_prefix(args: Seq<Seq<char>>, i: int, n: int)
    requires
        0 <= i <= n <= args.len(),
    ensures
        positionals_below(args, i).len() <= positionals_below(args, n).len(),
        forall|k: int|
            0 <= k < positionals_below(args, i).len() ==> positionals_below(args, n)[k] == positionals_below(
                args,
                i,
            )[k],
    decreases n - i,
{
    if i < n {
        lemma_positionals_prefix(args, i, n - 1);
    }
}

/// There are no more positional arguments than arguments.
pub proof fn lemma_positionals_short(args: Seq<Seq<char>>, n: int)
    requires
        0 <= n <= args.len(),
    ensures
        positionals_below(args, n).len() <= n,
    decreases n,
{
    if n > 0 {
        lemma_positionals_short(args, n - 1);
    }
}

/// Putting two pieces in front, one after the other, is putting their
/// concatenation in front.
pub proof fn lemma_prepend_twice(a: Seq<char>, b: Seq<char>, r: Expansion)
    ensures
        prepend(a, prepend(b, r)) == prepend(a + b, r),
{
    match r {
        Ok(s) => {
            assert(a + (b + s) =~= (a + b) + s);
        },
        Err(_) => {},
    }
}

/// Tests whether an argument is an option.
fn option_like(a: &Vec<char>) -> (r: bool)
    ensures
        r == is_option(a@),
{
    a.len() >= 2 && a[0] == '-' && name_char(a[1])
}

/// Finds the positional argument at index `k`.
fn nth_positional<'a>(args: &'a Vec<Vec<char>>, k: usize) -> (r: Bound<'a>)
    ensures
        r@ == argument(texts(args@), k as int),
{
    let mut count: usize = 0;
    let mut i: usize = 0;
    while i < args.len()
        invariant
            i <= args.len(),
            count == positionals_below(texts(args@), i as int).len(),
            count <= k,
            count <= i,
        decreases args.len() - i,
    {
        assert(texts(args@)[i as int] == args@[i as int]@);
        if !option_like(&args[i]) {
            if count == k {
                proof {
                    lemma_positionals_prefix(texts(args@), i as int + 1, args@.len() as int);
                }
                return Bound::Value(&args[i]);
            }
            count += 1;
        }
        i += 1;
    }
    Bound::Unbound
}

/// Finds the first argument that is the option `c`.
fn find_option<'a>(args: &'a Vec<Vec<char>>, c: char) -> (r: Option<&'a Vec<char>>)
    ensures
        first_option(texts(args@), c, 0) == match r {
            Some(a) => Some(a@),
            None => None,
        },
        r matches Some(a) ==> is_option(a@),
{
    let mut i: usize = 0;
    while i < args.len()
        invariant
            i <= args.len(),
            first_option(texts(args@), c, 0) == first_option(texts(args@), c, i as int),
        decreases args.len() - i,
    {
        assert(texts(args@)[i as int] == args@[i as int]@);
        if option_like(&args[i]) && args[i][1] == c {
            return Some(&args[i]);
        }
        i += 1;
    }
    None
}

/// Finds the first parameter that is `name`.
fn find_formal(formals: &Vec<Vec<char>>, name: &Vec<char>) -> (r: Option<usize>)
    ensures
        formal_index(texts(formals@), name@, 0) == match r {
            Some(i) => Some(i as int),
            None => None,
        },
{
    let mut i: usize = 0;
    while i < formals.len()
        invariant
            i <= formals.len(),
            formal_index(texts(formals@), name@, 0) == formal_index(texts(formals@), name@, i as int),
        decreases formals.len() - i,
    {
        assert(texts(formals@)[i as int] == formals@[i as int]@);
        if same_text(&formals[i], name) {
            return Some(i);
        }
        i += 1;
    }
    None
}

/// Tests whether `name` is a number.
fn check_number(name: &Vec<char>) -> (r: bool)
    ensures
        r == all_digits(name@, 0, name@.len() as int),
{
    if name.len() == 0 {
        return false;
    }
    let mut i: usize = 0;
    while i < name.len()
        invariant
            i <= name.len(),
            forall|j: int| 0 <= j < i ==> is_digit(#[trigger] name@[j]),
        decreases name.len() - i,
    {
        if !digit(name[i]) {
            return false;
        }
        i += 1;
    }
    true
}

/// Reads the number that `name` writes, where it can be an index.
fn read_index(name: &Vec<char>) -> (r: Option<usize>)
    requires
        all_digits(name@, 0, name@.len() as int),
    ensures
        match r {
            Some(v) => v == digits_value(name@, 0, name@.len() as int),
            None => digits_value(name@, 0, name@.len() as int) > usize::MAX,
        },
{
    let mut acc: usize = 0;
    let mut i: usize = 0;
    while i < name.len()
        invariant
            i <= name.len(),
            forall|j: int| 0 <= j < name@.len() ==> is_digit(#[trigger] name@[j]),
            acc == digits_value(name@, 0, i as int),
        decreases name.len() - i,
    {
        assert(is_digit(name@[i as int]));
        let d: u128 = (name[i] as u32 - 48) as u128;
        let next: u128 = acc as u128 * 10 + d;
        if next > usize::MAX as u128 {
            proof {
                crate::expr::lemma_digits_grow(name@, 0, i as int + 1, name@.len() as int);
            }
            return None;
        }
        acc = next as usize;
        i += 1;
    }
    Some(acc)
}

/// Finds what `name` stands for.
pub fn resolve_name<'a>(table: &'a MacroTable, frame: &ExpansionFrame<'a>, name: &Vec<char>) -> (r: Bound<'a>)
    ensures
        r@ == resolve(table@, frame@, name@),
{
    if check_number(name) {
        match read_index(name) {
            Some(v) => if v == 0 {
                Bound::Unbound
            } else {
                nth_positional(frame.args, v - 1)
            },
            None => {
                let n: usize = frame.args.len();
                proof {
                    lemma_positionals_short(texts(frame.args@), n as int);
                }
                Bound::Unbound
            },
        }
    } else {
        let found: Option<usize> = match frame.formals {
            Some(f) => find_formal(f, name),
            None => None,
        };
        match found {
            Some(i) => nth_positional(frame.args, i),
            None => match table.find(name) {
                Some(d) => Bound::Macro(d),
                None => Bound::Undefined,
            },
        }
    }
}

/// Tests the condition of a conditional.
fn check_set(table: &MacroTable, strict: bool, frame: &ExpansionFrame, name: &Vec<char>) -> (r: bool)
    ensures
        r == is_set(env_of(table, strict), frame@, name@),
{
    match resolve_name(table, frame, name) {
        Bound::Value(v) => v.len() > 0,
        Bound::Macro(d) => d.body.len() > 0,
        Bound::Unbound => false,
        Bound::Undefined => false,
    }
}

/// Copies the alternative text of a directive.
fn copy_alt(d: &Directive) -> (r: Vec<char>)
    ensures
        r@ == alt_text(d@),
{
    match &d.alt {
        Some(a) => copy_text(a),
        None => Vec::new(),
    }
}

/// Expands a reference to `d.name` with the arguments `d.args`.
pub fn expand_reference(table: &MacroTable, strict: bool, frame: &ExpansionFrame, d: &Directive, depth: usize) -> (r: Result<
    Vec<char>,
    Error,
>)
    ensures
        expansion_view(r) == reference_value(env_of(table, strict), frame@, d@, depth as nat),
    decreases depth, 0int, 0int,
{
    match resolve_name(table, frame, &d.name) {
        Bound::Value(v) => Ok(copy_text(v)),
        Bound::Unbound => Ok(copy_alt(d)),
        Bound::Undefined => match &d.alt {
            Some(a) => Ok(copy_text(a)),
            None => if strict {
                Err(Error::Undefined(string_of(&d.name)))
            } else {
                Ok(Vec::new())
            },
        },
        Bound::Macro(m) => if depth == 0 {
            Err(Error::RecursionLimit)
        } else {
            let inner = ExpansionFrame { formals: m.parameters.as_ref(), args: &d.args };
            expand_text_range(table, strict, &inner, &m.body, 0, m.body.len(), depth - 1)
        },
    }
}

/// Expands the directive `d`, which was read from `text`.
pub fn expand_directive(
    table: &MacroTable,
    strict: bool,
    frame: &ExpansionFrame,
    text: &Vec<char>,
    d: &Directive,
    depth: usize,
) -> (r: Result<Vec<char>, Error>)
    requires
        alt_within(text@, d@, 2, text@.len() as int),
        d.kind is Flag || d.kind is FlagValue ==> d.name@.len() > 0,
    ensures
        expansion_view(r) == directive_value(env_of(table, strict), frame@, text@, d@, depth as nat),
    decreases depth, alt_text(d@).len() + 1, 0int,
{
    let limit: usize = text.len();
    match d.kind {
        DirectiveKind::Reference => expand_reference(table, strict, frame, d, depth),
        DirectiveKind::WhenDefined => if check_set(table, strict, frame, &d.name) {
            match &d.alt {
                Some(a) => {
                    assert(d@.alt == Some(a@));
                    assert(d@.alt_start + a@.len() <= limit);
                    expand_text_range(table, strict, frame, text, d.alt_start, d.alt_start + a.len(), depth)
                },
                None => expand_reference(table, strict, frame, d, depth),
            }
        } else {
            Ok(Vec::new())
        },
        DirectiveKind::WhenUndefined => if check_set(table, strict, frame, &d.name) {
            Ok(Vec::new())
        } else {
            match &d.alt {
                Some(a) => {
                    assert(d@.alt == Some(a@));
                    assert(d@.alt_start + a@.len() <= limit);
                    expand_text_range(table, strict, frame, text, d.alt_start, d.alt_start + a.len(), depth)
                },
                None => Ok(Vec::new()),
            }
        },
        DirectiveKind::Flag => match find_option(frame.args, d.name[0]) {
            Some(a) => Ok(copy_text(a)),
            None => Ok(Vec::new()),
        },
        DirectiveKind::FlagValue => match find_option(frame.args, d.name[0]) {
            Some(a) => Ok(copy_range(a, 2, a.len())),
            None => Ok(Vec::new()),
        },
        DirectiveKind::Expression => match &d.alt {
            Some(a) => {
                assert(d@.alt == Some(a@));
                assert(d@.alt_start + a@.len() <= limit);
                match expand_text_range(table, strict, frame, text, d.alt_start, d.alt_start + a.len(), depth) {
                    Ok(t) => match evaluate(&t) {
                        Ok(v) => Ok(render(v)),
                        Err(f) => Err(Error::Parse(byte_offset(text, d.alt_start - 2), f)),
                    },
                    Err(e) => Err(e),
                }
            },
            None => Ok(Vec::new()),
        },
    }
}

/// Expands `text[lo..hi)`.
pub fn expand_text_range(
    table: &MacroTable,
    strict: bool,
    frame: &ExpansionFrame,
    text: &Vec<char>,
    lo: usize,
    hi: usize,
    depth: usize,
) -> (r: Result<Vec<char>, Error>)
    requires
        lo <= hi <= text.len(),
    ensures
        expansion_view(r) == expand_range(env_of(table, strict), frame@, text@, lo as int, hi as int, depth as nat),
    decreases depth, hi - lo, 1int,
{
    let ghost env = env_of(table, strict);
    let mut out: Vec<char> = Vec::new();
    let mut pos: usize = lo;
    loop
        invariant
            lo <= pos <= hi <= text.len(),
            env == env_of(table, strict),
            expand_range(env, frame@, text@, lo as int, hi as int, depth as nat) == prepend(
                out@,
                expand_range(env, frame@, text@, pos as int, hi as int, depth as nat),
            ),
        decreases hi - pos,
    {
        proof {
            lemma_token_bounds(text@, pos as int, hi as int);
        }
        let ghost before = out@;
        match scan_token(text, pos, hi) {
            Scanned::End => {
                assert(out@ + Seq::<char>::empty() =~= out@);
                return Ok(out);
            },
            Scanned::Fault(o, f) => {
                return Err(Error::Parse(o, f));
            },
            Scanned::Found(token, next) => {
                let ghost rest = expand_range(env, frame@, text@, next as int, hi as int, depth as nat);
                match token {
                    Token::Literal(t) => {
                        append_text(&mut out, &t);
                        proof {
                            lemma_prepend_twice(before, t@, rest);
                        }
                    },
                    Token::Directive(d) => {
                        match expand_directive(table, strict, frame, text, &d, depth) {
                            Ok(piece) => {
                                append_text(&mut out, &piece);
                                proof {
                                    lemma_prepend_twice(before, piece@, rest);
                                }
                            },
                            Err(e) => {
                                return Err(e);
                            },
                        }
                    },
                }
                pos = next;
            },
        }
    }
}

} // verus!
