//! The context: one macro table with its expansion policy. It is the
//! surface through which macros are defined, removed and expanded.

use vstd::prelude::*;
use crate::convert::{string_of, text_of};
use crate::definition::{definition_of, string_views, ContextId, DefinitionView, MacroDefinition};
use crate::error::{Error, ErrorView};
use crate::expand::{expand_text_range, expansion_of, Env, Expansion, ExpansionFrame};
use crate::table::{first_refused, lookup_in, top_index, with_definitions, without_top, MacroTable};

verus! {

/// The depth to which macros may be nested unless a context says otherwise.
pub const DEFAULT_MAX_DEPTH: usize = 64;

/// The scope number kept for the context that a process shares.
pub const DEFAULT_SCOPE: u64 = 0;

/// Scopes in which macros are defined.
pub struct MacroContext {
    table: MacroTable,
    strict: bool,
    max_depth: usize,
}

/// The mathematical value of a [`MacroContext`].
pub struct ContextView {
    /// The definitions, oldest first.
    pub table: Seq<DefinitionView>,
    /// Whether a reference to an undefined name is an error.
    pub strict: bool,
    /// How deep macros may be nested.
    pub max_depth: nat,
    /// The number of the context.
    pub scope: u64,
}

impl ContextView {
    /// What expansion depends on.
    pub open spec fn env(self) -> Env {
        Env { table: self.table, strict: self.strict }
    }
}

impl View for MacroContext {
    type V = ContextView;

    closed spec fn view(&self) -> ContextView {
        ContextView {
            table: self.table@,
            strict: self.strict,
            max_depth: self.max_depth as nat,
            scope: self.table.scope_id(),
        }
    }
}

/// The mathematical value of what an expansion to a string gave.
pub open spec fn string_expansion_view(r: Result<String, Error>) -> Expansion {
    match r {
        Ok(s) => Ok(s@),
        Err(e) => Err(e@),
    }
}

impl MacroContext {
    /// The invariant of a context: that of its table.
    pub open spec fn wf(&self) -> bool {
        MacroTable::sound(self@.table, self@.scope)
    }

    /// An empty context numbered `id`: undefined references expand to
    /// nothing, and macros nest to the default depth.
    pub fn new(id: ContextId) -> (r: MacroContext)
        ensures
            r@ == (ContextView {
                table: Seq::empty(),
                strict: false,
                max_depth: DEFAULT_MAX_DEPTH as nat,
                scope: id.0,
            }),
            r.wf(),
    {
        MacroContext { table: MacroTable::new(id), strict: false, max_depth: DEFAULT_MAX_DEPTH }
    }

    /// An empty context numbered `id` with the given policy.
    pub fn with_policy(id: ContextId, strict: bool, max_depth: usize) -> (r: MacroContext)
        ensures
            r@ == (ContextView { table: Seq::empty(), strict, max_depth: max_depth as nat, scope: id.0 }),
            r.wf(),
    {
        MacroContext { table: MacroTable::new(id), strict, max_depth }
    }

    /// The number of the context.
    pub fn id(&self) -> (r: ContextId)
        ensures
            r.0 == self@.scope,
    {
        self.table.scope()
    }

    /// Whether a reference to an undefined name is an error.
    pub fn is_strict(&self) -> (r: bool)
        ensures
            r == self@.strict,
    {
        self.strict
    }

    /// How deep macros may be nested.
    pub fn max_depth(&self) -> (r: usize)
        ensures
            r == self@.max_depth,
    {
        self.max_depth
    }

    /// The number of definitions in the context.
    pub fn len(&self) -> (r: usize)
        ensures
            r == self@.table.len(),
    {
        self.table.len()
    }

    /// Chooses whether a reference to an undefined name is an error.
    pub fn set_strict(&mut self, strict: bool)
        ensures
            final(self)@ == (ContextView { strict, ..old(self)@ }),
    {
        self.strict = strict;
    }

    /// Chooses how deep macros may be nested.
    pub fn set_max_depth(&mut self, max_depth: usize)
        ensures
            final(self)@ == (ContextView { max_depth: max_depth as nat, ..old(self)@ }),
    {
        self.max_depth = max_depth;
    }

    /// Define a macro in this context. Macros take the form:
    ///
    /// `<name>[(<parameter>,..)] <body>`
    ///
    /// The new definition shadows the earlier ones of the same name.
    /// `level` is recorded with it. A string that is refused leaves the
    /// context as it was.
    pub fn define(&mut self, macro_string: &str, level: isize) -> (r: Result<(), Error>)
        ensures
            old(self).wf() ==> final(self).wf(),
            match definition_of(macro_string@, level as int, old(self)@.scope) {
                Ok(d) => r is Ok && final(self)@ == (ContextView { table: old(self)@.table.push(d), ..old(self)@ }),
                Err(f) => r == Err::<(), Error>(Error::Config(f)) && final(self)@ == old(self)@,
            },
    {
        self.table.define(macro_string, level)
    }

    /// Defines, in order and at level 0, the macros that the definition
    /// strings describe, up to the first string that is refused. Gives the
    /// number of macros defined; or, for a string that is refused, its index
    /// and the error, the definitions before it staying in place.
    pub fn define_all(&mut self, definitions: &Vec<String>) -> (r: Result<usize, (usize, Error)>)
        ensures
            old(self).wf() ==> final(self).wf(),
            match first_refused(string_views(definitions@), 0, old(self)@.scope, 0) {
                None => r == Ok::<usize, (usize, Error)>(definitions@.len() as usize) && final(self)@ == (ContextView {
                    table: with_definitions(
                        old(self)@.table,
                        string_views(definitions@),
                        0,
                        old(self)@.scope,
                        definitions@.len() as int,
                    ),
                    ..old(self)@
                }),
                Some(i) => definition_of(string_views(definitions@)[i], 0, old(self)@.scope) matches Err(f) && r
                    == Err::<usize, (usize, Error)>((i as usize, Error::Config(f))) && final(self)@ == (ContextView {
                    table: with_definitions(old(self)@.table, string_views(definitions@), 0, old(self)@.scope, i),
                    ..old(self)@
                }),
            },
    {
        self.table.define_all(definitions)
    }

    /// Removes the definition of `name` that is in force, so that the one
    /// made before it, if any, is in force again. Fails, and leaves the
    /// context as it was, where `name` has no definition.
    pub fn pop(&mut self, name: &str) -> (r: Result<(), Error>)
        ensures
            old(self).wf() ==> final(self).wf(),
            final(self)@ == (ContextView { table: without_top(old(self)@.table, name@), ..old(self)@ }),
            match top_index(old(self)@.table, name@) {
                Some(i) => r is Ok,
                None => r matches Err(e) && e@ == ErrorView::NotFound(name@),
            },
    {
        self.table.pop(name)
    }

    /// Delete a macro from this context: the same as [`MacroContext::pop`].
    pub fn delete(&mut self, name: &str) -> (r: Result<(), Error>)
        ensures
            old(self).wf() ==> final(self).wf(),
            final(self)@ == (ContextView { table: without_top(old(self)@.table, name@), ..old(self)@ }),
            match top_index(old(self)@.table, name@) {
                Some(i) => r is Ok,
                None => r matches Err(e) && e@ == ErrorView::NotFound(name@),
            },
    {
        self.table.pop(name)
    }

    /// The definition of `name` that is in force.
    pub fn lookup(&self, name: &str) -> (r: Option<&MacroDefinition>)
        ensures
            lookup_in(self@.table, name@) == match r {
                Some(d) => Some(d@),
                None => None,
            },
            self.wf() ==> (r matches Some(d) ==> d@.valid()),
    {
        self.table.lookup(name)
    }

    /// Expands `input`, macros nesting no deeper than the context allows.
    pub fn expand(&self, input: &str) -> (r: Result<String, Error>)
        ensures
            string_expansion_view(r) == expansion_of(self@.env(), input@, self@.max_depth),
    {
        expand(self, input, self.max_depth)
    }
}

/// Expands `input` against `context`, macros nesting no deeper than
/// `max_depth`.
pub fn expand(context: &MacroContext, input: &str, max_depth: usize) -> (r: Result<String, Error>)
    ensures
        string_expansion_view(r) == expansion_of(context@.env(), input@, max_depth as nat),
{
    let text = text_of(input);
    let none: Vec<Vec<char>> = Vec::new();
    let frame = ExpansionFrame { formals: None, args: &none };
    assert(frame@.args =~= Seq::<Seq<char>>::empty());
    match expand_text_range(&context.table, context.strict, &frame, &text, 0, text.len(), max_depth) {
        Ok(v) => Ok(string_of(&v)),
        Err(e) => Err(e),
    }
}

} // verus!
