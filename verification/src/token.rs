//! The tokenizer: how a text divides into literal spans and directives.
//!
//! A `%` starts a directive:
//!
//! - `%%` stands for one `%`;
//! - `%name` and `%name(a,b)` refer to a macro or a parameter, the name
//!   being the longest run of name characters;
//! - `%{name}`, `%{name(a,b)}` and `%{name:text}` do the same between
//!   braces, `text` standing in where the name is not defined;
//! - `%{?name}`, `%{?name:text}` and `%{!?name:text}` are conditionals;
//! - `%{-f}` and `%{-f*}` ask for an option of the macro being expanded;
//! - `%[text]` is an arithmetic expression.
//!
//! Everything else is literal.

use vstd::prelude::*;
use crate::convert::text_of;
use crate::error::{Error, ErrorView, ParseFault};
use crate::text::{
    closing, copy_range, find_char, is_name_char, lemma_closing_bounds, lemma_run_end, list_items,
    name_char, name_class, name_end, other_than, read_list, seek_char, seek_closing, skip_name, texts,
};

verus! {

/// What a directive asks for.
#[derive(Debug, Clone, Copy, PartialEq, Eq, Hash)]
pub enum DirectiveKind {
    /// The value of a macro or a parameter.
    Reference,
    /// Something only where the name is defined and not empty.
    WhenDefined,
    /// Something only where the name is not defined, or empty.
    WhenUndefined,
    /// An option of the call being expanded, as it was written.
    Flag,
    /// The value that an option of the call being expanded carries.
    FlagValue,
    /// The value of an arithmetic expression.
    Expression,
}

/// A directive, as read from a text.
#[derive(Debug, Clone, PartialEq, Eq)]
pub struct Directive {
    /// What the directive asks for.
    pub kind: DirectiveKind,
    /// The name referred to; the option letter for an option query; empty
    /// for an expression.
    pub name: Vec<char>,
    /// The arguments given between parentheses.
    pub args: Vec<Vec<char>>,
    /// The text after the colon of a braced directive, or between the
    /// brackets of an expression.
    pub alt: Option<Vec<char>>,
    /// The index in the text of the first character of `alt`; 0 without one.
    pub alt_start: usize,
}

/// The mathematical value of a [`Directive`].
pub struct DirectiveView {
    pub kind: DirectiveKind,
    pub name: Seq<char>,
    pub args: Seq<Seq<char>>,
    pub alt: Option<Seq<char>>,
    pub alt_start: int,
}

impl View for Directive {
    type V = DirectiveView;

    open spec fn view(&self) -> DirectiveView {
        DirectiveView {
            kind: self.kind,
            name: self.name@,
            args: texts(self.args@),
            alt: match self.alt {
                Some(a) => Some(a@),
                None => None,
            },
            alt_start: self.alt_start as int,
        }
    }
}

/// A token: a span of literal text, or a directive.
#[derive(Debug, Clone, PartialEq, Eq)]
pub enum Token {
    Literal(Vec<char>),
    Directive(Directive),
}

/// The mathematical value of a [`Token`].
pub enum TokenView {
    Literal(Seq<char>),
    Directive(DirectiveView),
}

impl View for Token {
    type V = TokenView;

    open spec fn view(&self) -> TokenView {
        match self {
            Token::Literal(t) => TokenView::Literal(t@),
            Token::Directive(d) => TokenView::Directive(d@),
        }
    }
}

/// What stands at a position of a text.
pub enum Scan {
    /// The range ends here.
    End,
    /// A malformed directive starts here; `offset` is the byte offset of
    /// its `%`.
    Fault { offset: int, fault: ParseFault },
    /// A token starts here and ends before `next`.
    Found { token: TokenView, next: int },
}

/// What [`scan_token`] found.
pub enum Scanned {
    End,
    Fault(usize, ParseFault),
    Found(Token, usize),
}

impl View for Scanned {
    type V = Scan;

    open spec fn view(&self) -> Scan {
        match self {
            Scanned::End => Scan::End,
            Scanned::Fault(o, f) => Scan::Fault { offset: *o as int, fault: *f },
            Scanned::Found(t, n) => Scan::Found { token: t@, next: *n as int },
        }
    }
}

/// The number of bytes that `c` takes in UTF-8.
pub open spec fn utf8_width(c: char) -> int {
    if (c as u32) < 0x80 {
        1
    } else if (c as u32) < 0x800 {
        2
    } else if (c as u32) < 0x10000 {
        3
    } else {
        4
    }
}

/// The number of bytes that the first `n` characters of `s` take in UTF-8.
pub open spec fn byte_len(s: Seq<char>, n: int) -> int
    decreases n,
{
    if n <= 0 || n > s.len() {
        0
    } else {
        byte_len(s, n - 1) + utf8_width(s[n - 1])
    }
}

/// The byte offset of the character at index `pos` of `s`; the largest
/// `usize` where the true offset is above it.
pub open spec fn offset_at(s: Seq<char>, pos: int) -> int {
    if byte_len(s, pos) > usize::MAX {
        usize::MAX as int
    } else {
        byte_len(s, pos)
    }
}

/// The view of a directive that was read, or of the fault.
pub open spec fn read_view(r: Result<Directive, ParseFault>) -> Result<DirectiveView, ParseFault> {
    match r {
        Ok(d) => Ok(d@),
        Err(f) => Err(f),
    }
}

/// An option query, between `lo`, which holds the `-`, and `hi`: one
/// option letter, then at most a `*`.
pub open spec fn flag_query(text: Seq<char>, lo: int, hi: int) -> Result<DirectiveView, ParseFault> {
    if hi == lo + 2 && is_name_char(text[lo + 1]) {
        Ok(
            DirectiveView {
                kind: DirectiveKind::Flag,
                name: text.subrange(lo + 1, lo + 2),
                args: Seq::empty(),
                alt: None,
                alt_start: 0,
            },
        )
    } else if hi == lo + 3 && is_name_char(text[lo + 1]) && text[lo + 2] == '*' {
        Ok(
            DirectiveView {
                kind: DirectiveKind::FlagValue,
                name: text.subrange(lo + 1, lo + 2),
                args: Seq::empty(),
                alt: None,
                alt_start: 0,
            },
        )
    } else {
        Err(ParseFault::MalformedFlag)
    }
}

/// The end of a braced directive, from `a` to `hi`: nothing, or a colon
/// and the alternative text.
pub open spec fn with_alternative(
    text: Seq<char>,
    kind: DirectiveKind,
    name: Seq<char>,
    args: Seq<Seq<char>>,
    a: int,
    hi: int,
) -> Result<DirectiveView, ParseFault> {
    if a >= hi {
        Ok(DirectiveView { kind, name, args, alt: None, alt_start: 0 })
    } else if text[a] == ':' {
        Ok(DirectiveView { kind, name, args, alt: Some(text.subrange(a + 1, hi)), alt_start: a + 1 })
    } else {
        Err(ParseFault::MalformedDirective)
    }
}

/// A braced directive from its name, which starts at `n`, to `hi`: the
/// name, then arguments between parentheses if a `(` follows directly, then
/// the alternative.
pub open spec fn named_part(text: Seq<char>, kind: DirectiveKind, n: int, hi: int) -> Result<
    DirectiveView,
    ParseFault,
> {
    let e = name_end(text, n, hi);
    if e <= n {
        Err(ParseFault::EmptyName)
    } else if e < hi && text[e] == '(' {
        let c = find_char(text, e + 1, hi, ')');
        if c >= hi {
            Err(ParseFault::UnterminatedArguments)
        } else {
            with_alternative(text, kind, text.subrange(n, e), list_items(text, e + 1, c), c + 1, hi)
        }
    } else {
        with_alternative(text, kind, text.subrange(n, e), Seq::empty(), e, hi)
    }
}

/// The directive written between the braces, in `text[lo..hi)`.
pub open spec fn directive_in(text: Seq<char>, lo: int, hi: int) -> Result<DirectiveView, ParseFault> {
    if lo >= hi {
        Err(ParseFault::EmptyName)
    } else if text[lo] == '-' {
        flag_query(text, lo, hi)
    } else if text[lo] == '!' {
        if lo + 1 < hi && text[lo + 1] == '?' {
            named_part(text, DirectiveKind::WhenUndefined, lo + 2, hi)
        } else {
            Err(ParseFault::MalformedDirective)
        }
    } else if text[lo] == '?' {
        named_part(text, DirectiveKind::WhenDefined, lo + 1, hi)
    } else {
        named_part(text, DirectiveKind::Reference, lo, hi)
    }
}

/// The braced directive whose `%` is at `pos`.
pub open spec fn braced_at(text: Seq<char>, pos: int, hi: int) -> Scan {
    let c = closing(text, pos + 2, hi, '{', '}', 0);
    if c >= hi {
        Scan::Fault { offset: offset_at(text, pos), fault: ParseFault::UnterminatedBrace }
    } else {
        match directive_in(text, pos + 2, c) {
            Ok(d) => Scan::Found { token: TokenView::Directive(d), next: c + 1 },
            Err(f) => Scan::Fault { offset: offset_at(text, pos), fault: f },
        }
    }
}

/// The expression whose `%` is at `pos`.
pub open spec fn expression_at(text: Seq<char>, pos: int, hi: int) -> Scan {
    let c = closing(text, pos + 2, hi, '[', ']', 0);
    if c >= hi {
        Scan::Fault { offset: offset_at(text, pos), fault: ParseFault::UnterminatedExpression }
    } else {
        Scan::Found {
            token: TokenView::Directive(
                DirectiveView {
                    kind: DirectiveKind::Expression,
                    name: Seq::empty(),
                    args: Seq::empty(),
                    alt: Some(text.subrange(pos + 2, c)),
                    alt_start: pos + 2,
                },
            ),
            next: c + 1,
        }
    }
}

/// The bare reference whose `%` is at `pos`.
pub open spec fn bare_at(text: Seq<char>, pos: int, hi: int) -> Scan {
    let e = name_end(text, pos + 1, hi);
    if e < hi && text[e] == '(' {
        let c = find_char(text, e + 1, hi, ')');
        if c >= hi {
            Scan::Fault { offset: offset_at(text, pos), fault: ParseFault::UnterminatedArguments }
        } else {
            Scan::Found {
                token: TokenView::Directive(
                    DirectiveView {
                        kind: DirectiveKind::Reference,
                        name: text.subrange(pos + 1, e),
                        args: list_items(text, e + 1, c),
                        alt: None,
                        alt_start: 0,
                    },
                ),
                next: c + 1,
            }
        }
    } else {
        Scan::Found {
            token: TokenView::Directive(
                DirectiveView {
                    kind: DirectiveKind::Reference,
                    name: text.subrange(pos + 1, e),
                    args: Seq::empty(),
                    alt: None,
                    alt_start: 0,
                },
            ),
            next: e,
        }
    }
}

/// The token that starts at `pos` in `text[..hi)`.
pub open spec fn token_at(text: Seq<char>, pos: int, hi: int) -> Scan {
    if !(0 <= pos < hi && hi <= text.len()) {
        Scan::End
    } else if text[pos] != '%' {
        Scan::Found {
            token: TokenView::Literal(text.subrange(pos, find_char(text, pos, hi, '%'))),
            next: find_char(text, pos, hi, '%'),
        }
    } else if pos + 1 >= hi {
        Scan::Fault { offset: offset_at(text, pos), fault: ParseFault::EmptyName }
    } else if text[pos + 1] == '%' {
        Scan::Found { token: TokenView::Literal(seq!['%']), next: pos + 2 }
    } else if text[pos + 1] == '{' {
        braced_at(text, pos, hi)
    } else if text[pos + 1] == '[' {
        expression_at(text, pos, hi)
    } else if is_name_char(text[pos + 1]) {
        bare_at(text, pos, hi)
    } else {
        Scan::Fault { offset: offset_at(text, pos), fault: ParseFault::EmptyName }
    }
}

/// The alternative of a directive read between `lo` and `hi` lies between
/// them, where `alt_start` says.
pub open spec fn alt_within(text: Seq<char>, d: DirectiveView, lo: int, hi: int) -> bool {
    d.alt matches Some(a) ==> lo <= d.alt_start && d.alt_start + a.len() <= hi && a == text.subrange(
        d.alt_start,
        d.alt_start + a.len(),
    )
}

/// A token is not empty and ends inside the range; the alternative of a
/// directive lies strictly inside the directive.
pub proof fn lemma_token_bounds(text: Seq<char>, pos: int, hi: int)
    requires
        0 <= pos <= hi <= text.len(),
    ensures
        token_at(text, pos, hi) matches Scan::Found { token, next } ==> pos < next <= hi && (token matches TokenView::Directive(
            d,
        ) ==> alt_within(text, d, pos + 2, next - 1)),
        token_at(text, pos, hi) is End <==> pos == hi,
{
    if pos < hi {
        if text[pos] != '%' {
            lemma_run_end(text, pos, hi, other_than('%'));
        } else if pos + 1 < hi {
            if text[pos + 1] == '{' {
                let c = closing(text, pos + 2, hi, '{', '}', 0);
                lemma_closing_bounds(text, pos + 2, hi, '{', '}', 0);
                if c < hi {
                    lemma_directive_bounds(text, pos + 2, c);
                }
            } else if text[pos + 1] == '[' {
                lemma_closing_bounds(text, pos + 2, hi, '[', ']', 0);
            } else if is_name_char(text[pos + 1]) {
                let e = name_end(text, pos + 1, hi);
                lemma_run_end(text, pos + 1, hi, name_class());
                if e < hi {
                    lemma_run_end(text, e + 1, hi, other_than(')'));
                }
            }
        }
    }
}

/// The alternative of a directive read between braces lies between them.
pub proof fn lemma_directive_bounds(text: Seq<char>, lo: int, hi: int)
    requires
        0 <= lo <= hi <= text.len(),
    ensures
        directive_in(text, lo, hi) matches Ok(d) ==> alt_within(text, d, lo, hi),
{
    if lo < hi {
        if text[lo] == '-' {
        } else if text[lo] == '!' {
            if lo + 1 < hi && text[lo + 1] == '?' {
                lemma_named_bounds(text, DirectiveKind::WhenUndefined, lo + 2, hi);
            }
        } else if text[lo] == '?' {
            lemma_named_bounds(text, DirectiveKind::WhenDefined, lo + 1, hi);
        } else {
            lemma_named_bounds(text, DirectiveKind::Reference, lo, hi);
        }
    }
}

/// The alternative of a directive lies after its name.
pub proof fn lemma_named_bounds(text: Seq<char>, kind: DirectiveKind, n: int, hi: int)
    requires
        0 <= n <= hi <= text.len(),
    ensures
        named_part(text, kind, n, hi) matches Ok(d) ==> alt_within(text, d, n, hi) && d.kind == kind,
{
    let e = name_end(text, n, hi);
    lemma_run_end(text, n, hi, name_class());
    if e < hi {
        lemma_run_end(text, e + 1, hi, other_than(')'));
    }
}

/// Computes the number of bytes that `c` takes in UTF-8.
fn width_of(c: char) -> (r: usize)
    ensures
        r == utf8_width(c),
        1 <= r <= 4,
{
    let n: u32 = c as u32;
    if n < 0x80 {
        1
    } else if n < 0x800 {
        2
    } else if n < 0x10000 {
        3
    } else {
        4
    }
}

/// Computes the byte offset of the character at index `pos`.
pub fn byte_offset(text: &Vec<char>, pos: usize) -> (r: usize)
    requires
        pos <= text.len(),
    ensures
        r == offset_at(text@, pos as int),
{
    let mut acc: usize = 0;
    let mut i: usize = 0;
    while i < pos
        invariant
            i <= pos <= text.len(),
            acc == offset_at(text@, i as int),
            byte_len(text@, i as int) >= 0,
        decreases pos - i,
    {
        let w: usize = width_of(text[i]);
        if acc > usize::MAX - w {
            acc = usize::MAX;
        } else {
            acc += w;
        }
        i += 1;
    }
    acc
}

/// Reads the end of a braced directive.
fn read_alternative(
    text: &Vec<char>,
    kind: DirectiveKind,
    name: Vec<char>,
    args: Vec<Vec<char>>,
    a: usize,
    hi: usize,
) -> (r: Result<Directive, ParseFault>)
    requires
        a <= hi + 1,
        hi <= text.len(),
    ensures
        read_view(r) == with_alternative(text@, kind, name@, texts(args@), a as int, hi as int),
{
    if a >= hi {
        Ok(Directive { kind, name, args, alt: None, alt_start: 0 })
    } else if text[a] == ':' {
        Ok(Directive { kind, name, args, alt: Some(copy_range(text, a + 1, hi)), alt_start: a + 1 })
    } else {
        Err(ParseFault::MalformedDirective)
    }
}

/// Reads a braced directive from its name on.
fn read_named(text: &Vec<char>, kind: DirectiveKind, n: usize, hi: usize) -> (r: Result<Directive, ParseFault>)
    requires
        n <= hi <= text.len(),
    ensures
        read_view(r) == named_part(text@, kind, n as int, hi as int),
{
    let e: usize = skip_name(text, n, hi);
    if e <= n {
        Err(ParseFault::EmptyName)
    } else if e < hi && text[e] == '(' {
        let c: usize = seek_char(text, e + 1, hi, ')');
        if c >= hi {
            Err(ParseFault::UnterminatedArguments)
        } else {
            read_alternative(text, kind, copy_range(text, n, e), read_list(text, e + 1, c), c + 1, hi)
        }
    } else {
        let none: Vec<Vec<char>> = Vec::new();
        assert(texts(none@) =~= Seq::<Seq<char>>::empty());
        read_alternative(text, kind, copy_range(text, n, e), none, e, hi)
    }
}

/// Reads an option query.
fn read_flag(text: &Vec<char>, lo: usize, hi: usize) -> (r: Result<Directive, ParseFault>)
    requires
        lo < hi <= text.len(),
    ensures
        read_view(r) == flag_query(text@, lo as int, hi as int),
{
    let none: Vec<Vec<char>> = Vec::new();
    assert(texts(none@) =~= Seq::<Seq<char>>::empty());
    if hi - lo == 2 && name_char(text[lo + 1]) {
        Ok(
            Directive {
                kind: DirectiveKind::Flag,
                name: copy_range(text, lo + 1, lo + 2),
                args: none,
                alt: None,
                alt_start: 0,
            },
        )
    } else if hi - lo == 3 && name_char(text[lo + 1]) && text[lo + 2] == '*' {
        Ok(
            Directive {
                kind: DirectiveKind::FlagValue,
                name: copy_range(text, lo + 1, lo + 2),
                args: none,
                alt: None,
                alt_start: 0,
            },
        )
    } else {
        Err(ParseFault::MalformedFlag)
    }
}

/// Reads the directive written in `text[lo..hi)`.
pub fn read_directive(text: &Vec<char>, lo: usize, hi: usize) -> (r: Result<Directive, ParseFault>)
    requires
        lo <= hi <= text.len(),
    ensures
        read_view(r) == directive_in(text@, lo as int, hi as int),
{
    if lo >= hi {
        Err(ParseFault::EmptyName)
    } else if text[lo] == '-' {
        read_flag(text, lo, hi)
    } else if text[lo] == '!' {
        if lo + 1 < hi && text[lo + 1] == '?' {
            read_named(text, DirectiveKind::WhenUndefined, lo + 2, hi)
        } else {
            Err(ParseFault::MalformedDirective)
        }
    } else if text[lo] == '?' {
        read_named(text, DirectiveKind::WhenDefined, lo + 1, hi)
    } else {
        read_named(text, DirectiveKind::Reference, lo, hi)
    }
}

/// Reads the braced directive whose `%` is at `pos`.
fn read_braced(text: &Vec<char>, pos: usize, hi: usize) -> (r: Scanned)
    requires
        pos + 2 <= hi <= text.len(),
    ensures
        r@ == braced_at(text@, pos as int, hi as int),
{
    let c: usize = seek_closing(text, pos + 2, hi, '{', '}');
    if c >= hi {
        Scanned::Fault(byte_offset(text, pos), ParseFault::UnterminatedBrace)
    } else {
        match read_directive(text, pos + 2, c) {
            Ok(d) => Scanned::Found(Token::Directive(d), c + 1),
            Err(f) => Scanned::Fault(byte_offset(text, pos), f),
        }
    }
}

/// Reads the expression whose `%` is at `pos`.
fn read_expression(text: &Vec<char>, pos: usize, hi: usize) -> (r: Scanned)
    requires
        pos + 2 <= hi <= text.len(),
    ensures
        r@ == expression_at(text@, pos as int, hi as int),
{
    let c: usize = seek_closing(text, pos + 2, hi, '[', ']');
    if c >= hi {
        Scanned::Fault(byte_offset(text, pos), ParseFault::UnterminatedExpression)
    } else {
        let none: Vec<Vec<char>> = Vec::new();
        assert(texts(none@) =~= Seq::<Seq<char>>::empty());
        let name: Vec<char> = Vec::new();
        assert(name@ =~= Seq::<char>::empty());
        Scanned::Found(
            Token::Directive(
                Directive {
                    kind: DirectiveKind::Expression,
                    name,
                    args: none,
                    alt: Some(copy_range(text, pos + 2, c)),
                    alt_start: pos + 2,
                },
            ),
            c + 1,
        )
    }
}

/// Reads the bare reference whose `%` is at `pos`.
fn read_bare(text: &Vec<char>, pos: usize, hi: usize) -> (r: Scanned)
    requires
        pos + 2 <= hi <= text.len(),
    ensures
        r@ == bare_at(text@, pos as int, hi as int),
{
    let e: usize = skip_name(text, pos + 1, hi);
    if e < hi && text[e] == '(' {
        let c: usize = seek_char(text, e + 1, hi, ')');
        if c >= hi {
            Scanned::Fault(byte_offset(text, pos), ParseFault::UnterminatedArguments)
        } else {
            Scanned::Found(
                Token::Directive(
                    Directive {
                        kind: DirectiveKind::Reference,
                        name: copy_range(text, pos + 1, e),
                        args: read_list(text, e + 1, c),
                        alt: None,
                        alt_start: 0,
                    },
                ),
                c + 1,
            )
        }
    } else {
        let none: Vec<Vec<char>> = Vec::new();
        assert(texts(none@) =~= Seq::<Seq<char>>::empty());
        Scanned::Found(
            Token::Directive(
                Directive {
                    kind: DirectiveKind::Reference,
                    name: copy_range(text, pos + 1, e),
                    args: none,
                    alt: None,
                    alt_start: 0,
                },
            ),
            e,
        )
    }
}

/// Reads the token that starts at `pos` in `text[..hi)`.
pub fn scan_token(text: &Vec<char>, pos: usize, hi: usize) -> (r: Scanned)
    requires
        pos <= hi <= text.len(),
    ensures
        r@ == token_at(text@, pos as int, hi as int),
        r matches Scanned::Found(_, next) ==> pos < next <= hi,
{
    proof {
        lemma_token_bounds(text@, pos as int, hi as int);
    }
    if pos >= hi {
        Scanned::End
    } else if text[pos] != '%' {
        let e: usize = seek_char(text, pos, hi, '%');
        Scanned::Found(Token::Literal(copy_range(text, pos, e)), e)
    } else if pos + 1 >= hi {
        Scanned::Fault(byte_offset(text, pos), ParseFault::EmptyName)
    } else if text[pos + 1] == '%' {
        let mut one: Vec<char> = Vec::new();
        one.push('%');
        assert(one@ =~= seq!['%']);
        Scanned::Found(Token::Literal(one), pos + 2)
    } else if text[pos + 1] == '{' {
        read_braced(text, pos, hi)
    } else if text[pos + 1] == '[' {
        read_expression(text, pos, hi)
    } else if name_char(text[pos + 1]) {
        read_bare(text, pos, hi)
    } else {
        Scanned::Fault(byte_offset(text, pos), ParseFault::EmptyName)
    }
}

/// The views of a sequence of tokens.
pub open spec fn token_views(v: Seq<Token>) -> Seq<TokenView> {
    Seq::new(v.len(), |i: int| v[i]@)
}

/// The tokens of `text` from `pos` on, or the first fault met.
pub open spec fn tokens_from(text: Seq<char>, pos: int) -> Result<Seq<TokenView>, ErrorView>
    decreases text.len() - pos,
{
    match token_at(text, pos, text.len() as int) {
        Scan::End => Ok(Seq::empty()),
        Scan::Fault { offset, fault } => Err(ErrorView::Parse(offset, fault)),
        Scan::Found { token, next } => {
            proof {
                lemma_token_bounds(text, pos, text.len() as int);
            }
            match tokens_from(text, next) {
                Ok(rest) => Ok(seq![token] + rest),
                Err(e) => Err(e),
            }
        },
    }
}

/// The mathematical value of what [`tokenize`] gave.
pub open spec fn tokens_result_view(r: Result<Vec<Token>, Error>) -> Result<Seq<TokenView>, ErrorView> {
    match r {
        Ok(v) => Ok(token_views(v@)),
        Err(e) => Err(e@),
    }
}

/// Putting tokens in front of what follows, where that is no fault.
pub open spec fn tokens_before(done: Seq<TokenView>, rest: Result<Seq<TokenView>, ErrorView>) -> Result<
    Seq<TokenView>,
    ErrorView,
> {
    match rest {
        Ok(r) => Ok(done + r),
        Err(e) => Err(e),
    }
}

/// A tokenizer over one text. It hands out the tokens one by one, stops
/// for good at the first fault, and can be set back to the start.
pub struct Tokenizer {
    text: Vec<char>,
    pos: usize,
}

impl Tokenizer {
    /// The text being read.
    pub closed spec fn text(&self) -> Seq<char> {
        self.text@
    }

    /// The index of the next character to read.
    pub closed spec fn position(&self) -> int {
        self.pos as int
    }

    #[verifier::type_invariant]
    spec fn inv(&self) -> bool {
        self.pos <= self.text@.len()
    }

    /// A tokenizer at the start of `text`.
    pub fn new(text: &str) -> (r: Tokenizer)
        ensures
            r.text() == text@,
            r.position() == 0,
    {
        Tokenizer { text: text_of(text), pos: 0 }
    }

    /// Sets the tokenizer back to the start of its text.
    pub fn restart(&mut self)
        ensures
            final(self).text() == old(self).text(),
            final(self).position() == 0,
    {
        self.pos = 0;
    }

    /// The next token: `None` at the end of the text, the fault where the
    /// text is malformed. After a fault the tokenizer is at the end.
    pub fn next_token(&mut self) -> (r: Option<Result<Token, Error>>)
        ensures
            final(self).text() == old(self).text(),
            0 <= old(self).position() <= old(self).text().len(),
            match token_at(old(self).text(), old(self).position(), old(self).text().len() as int) {
                Scan::End => r is None && final(self).position() == old(self).position(),
                Scan::Fault { offset, fault } => r == Some(Err::<Token, Error>(Error::Parse(offset as usize, fault)))
                    && offset == offset as usize && final(self).position() == old(self).text().len(),
                Scan::Found { token, next } => final(self).position() == next && (r matches Some(Ok(t)) && t@
                    == token),
            },
    {
        proof {
            use_type_invariant(&*self);
        }
        let len: usize = self.text.len();
        match scan_token(&self.text, self.pos, len) {
            Scanned::End => None,
            Scanned::Fault(o, f) => {
                self.pos = len;
                Some(Err(Error::Parse(o, f)))
            },
            Scanned::Found(t, next) => {
                self.pos = next;
                Some(Ok(t))
            },
        }
    }
}

/// Reads all the tokens of `text`.
pub fn tokenize(text: &str) -> (r: Result<Vec<Token>, Error>)
    ensures
        tokens_result_view(r) == tokens_from(text@, 0),
{
    let chars = text_of(text);
    let len: usize = chars.len();
    let mut out: Vec<Token> = Vec::new();
    let mut pos: usize = 0;
    loop
        invariant
            pos <= len == chars@.len(),
            chars@ == text@,
            tokens_from(text@, 0) == tokens_before(token_views(out@), tokens_from(text@, pos as int)),
        decreases len - pos,
    {
        let ghost before = token_views(out@);
        match scan_token(&chars, pos, len) {
            Scanned::End => {
                assert(before + Seq::<TokenView>::empty() =~= before);
                return Ok(out);
            },
            Scanned::Fault(o, f) => {
                return Err(Error::Parse(o, f));
            },
            Scanned::Found(t, next) => {
                let ghost tv = t@;
                out.push(t);
                proof {
                    assert(token_views(out@) =~= before.push(tv));
                    match tokens_from(text@, next as int) {
                        Ok(rest) => {
                            assert(before + (seq![tv] + rest) =~= before.push(tv) + rest);
                        },
                        Err(_) => {},
                    }
                }
                pos = next;
            },
        }
    }
}

} // verus!
