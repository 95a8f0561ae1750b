//! The macro table: every definition made and not yet removed, oldest
//! first. The definitions of one name form a stack inside it; the one made
//! last shadows the others until it is removed.

use vstd::prelude::*;
use crate::convert::{string_of, text_of};
use crate::definition::{
    definition_of, parse_definition, string_views, ContextId, DefinitionView, MacroDefinition,
};
use crate::error::{Error, ErrorView};
use crate::text::same_text;

verus! {

/// The index of the last definition of `name` among the first `n` entries.
pub open spec fn top_below(t: Seq<DefinitionView>, name: Seq<char>, n: int) -> Option<int>
    decreases n,
{
    if n <= 0 || n > t.len() {
        None
    } else if t[n - 1].name == name {
        Some(n - 1)
    } else {
        top_below(t, name, n - 1)
    }
}

/// The index of the definition of `name` that is in force: the last one.
pub open spec fn top_index(t: Seq<DefinitionView>, name: Seq<char>) -> Option<int> {
    top_below(t, name, t.len() as int)
}

/// The definition of `name` that is in force.
pub open spec fn lookup_in(t: Seq<DefinitionView>, name: Seq<char>) -> Option<DefinitionView> {
    match top_index(t, name) {
        Some(i) => Some(t[i]),
        None => None,
    }
}

/// The table without the definition of `name` that is in force.
pub open spec fn without_top(t: Seq<DefinitionView>, name: Seq<char>) -> Seq<DefinitionView> {
    match top_index(t, name) {
        Some(i) => t.remove(i),
        None => t,
    }
}

/// The index of the first definition string at or after `from` that is
/// refused.
pub open spec fn first_refused(strings: Seq<Seq<char>>, level: int, scope: u64, from: int) -> Option<int>
    decreases strings.len() - from,
{
    if !(0 <= from < strings.len()) {
        None
    } else if definition_of(strings[from], level, scope) is Err {
        Some(from)
    } else {
        first_refused(strings, level, scope, from + 1)
    }
}

/// The table `t` with what the first `n` definition strings define put on
/// top, in order; a string that is refused adds nothing.
pub open spec fn with_definitions(
    t: Seq<DefinitionView>,
    strings: Seq<Seq<char>>,
    level: int,
    scope: u64,
    n: int,
) -> Seq<DefinitionView>
    decreases n,
{
    if n <= 0 || n > strings.len() {
        t
    } else {
        match definition_of(strings[n - 1], level, scope) {
            Ok(d) => with_definitions(t, strings, level, scope, n - 1).push(d),
            Err(_) => with_definitions(t, strings, level, scope, n - 1),
        }
    }
}

/// What `top_below` finds is an entry of that name below `n`, and no entry
/// between it and `n` has the name; it finds nothing only if no entry below
/// `n` has the name.
pub proof fn lemma_top_below(t: Seq<DefinitionView>, name: Seq<char>, n: int)
    requires
        0 <= n <= t.len(),
    ensures
        match top_below(t, name, n) {
            Some(i) => 0 <= i < n && t[i].name == name && forall|j: int| i < j < n ==> (#[trigger] t[j]).name != name,
            None => forall|j: int| 0 <= j < n ==> (#[trigger] t[j]).name != name,
        },
    decreases n,
{
    if n > 0 && t[n - 1].name != name {
        lemma_top_below(t, name, n - 1);
    }
}

/// Entries at `n` and above do not change what `top_below` finds below `n`.
pub proof fn lemma_top_below_prefix(t: Seq<DefinitionView>, u: Seq<DefinitionView>, name: Seq<char>, n: int)
    requires
        0 <= n <= t.len(),
        n <= u.len(),
        forall|j: int| 0 <= j < n ==> t[j] == u[j],
    ensures
        top_below(t, name, n) == top_below(u, name, n),
    decreases n,
{
    if n > 0 {
        lemma_top_below_prefix(t, u, name, n - 1);
    }
}

/// The predicate "is a definition of `name`".
pub open spec fn named(name: Seq<char>) -> spec_fn(DefinitionView) -> bool {
    |d: DefinitionView| d.name == name
}

/// The stack of `name`: its definitions, oldest first.
pub open spec fn stack_of(t: Seq<DefinitionView>, name: Seq<char>) -> Seq<DefinitionView> {
    t.filter(named(name))
}

/// The definition in force is the top of the name's stack; a name with an
/// empty stack has none.
pub proof fn lemma_lookup_is_stack_top(t: Seq<DefinitionView>, name: Seq<char>)
    ensures
        lookup_in(t, name) == if stack_of(t, name).len() > 0 {
            Some(stack_of(t, name).last())
        } else {
            None
        },
    decreases t.len(),
{
    if t.len() == 0 {
        t.lemma_filter_len(named(name));
    } else {
        let rest = t.drop_last();
        assert(t =~= rest.push(t.last()));
        rest.lemma_filter_push(t.last(), named(name));
        if t.last().name != name {
            lemma_top_below_prefix(t, rest, name, rest.len() as int);
            lemma_top_below(rest, name, rest.len() as int);
            lemma_lookup_is_stack_top(rest, name);
        }
    }
}

/// Defining pushes on the stack of the name defined and leaves the other
/// stacks alone.
pub proof fn lemma_define_pushes(t: Seq<DefinitionView>, d: DefinitionView, name: Seq<char>)
    ensures
        stack_of(t.push(d), name) == if d.name == name {
            stack_of(t, name).push(d)
        } else {
            stack_of(t, name)
        },
{
    t.lemma_filter_push(d, named(name));
}

/// Removing pops the stack of the name removed and leaves the other stacks
/// alone.
pub proof fn lemma_pop_pops(t: Seq<DefinitionView>, name: Seq<char>, other: Seq<char>)
    ensures
        other != name ==> stack_of(without_top(t, name), other) == stack_of(t, other),
        top_index(t, name) is Some ==> stack_of(without_top(t, name), name) == stack_of(t, name).drop_last(),
        top_index(t, name) is None ==> without_top(t, name) == t && stack_of(t, name).len() == 0,
    decreases t.len(),
{
    lemma_lookup_is_stack_top(t, name);
    if t.len() > 0 {
        let rest = t.drop_last();
        let last = t.last();
        assert(t =~= rest.push(last));
        rest.lemma_filter_push(last, named(name));
        rest.lemma_filter_push(last, named(other));
        if last.name == name {
            assert(t.remove(t.len() - 1) =~= rest);
            assert(stack_of(rest, name).push(last).drop_last() =~= stack_of(rest, name));
        } else {
            lemma_top_below_prefix(t, rest, name, rest.len() as int);
            lemma_top_below(rest, name, rest.len() as int);
            lemma_pop_pops(rest, name, other);
            match top_index(rest, name) {
                Some(i) => {
                    assert(t.remove(i) =~= rest.remove(i).push(last));
                    rest.remove(i).lemma_filter_push(last, named(name));
                    rest.remove(i).lemma_filter_push(last, named(other));
                },
                None => {},
            }
        }
    }
}

/// A table of macro definitions.
pub struct MacroTable {
    entries: Vec<MacroDefinition>,
    scope: ContextId,
}

impl View for MacroTable {
    type V = Seq<DefinitionView>;

    closed spec fn view(&self) -> Seq<DefinitionView> {
        Seq::new(self.entries@.len(), |i: int| self.entries@[i]@)
    }
}

impl MacroTable {
    /// The number of the context that owns the table.
    pub closed spec fn scope_id(&self) -> u64 {
        self.scope.0
    }

    /// Every definition in a table is valid and carries the table's scope.
    pub open spec fn sound(t: Seq<DefinitionView>, scope: u64) -> bool {
        forall|i: int| 0 <= i < t.len() ==> (#[trigger] t[i]).valid() && t[i].scope == scope
    }

    /// The invariant of a table. Every table that this module hands out
    /// has it, and every operation keeps it.
    pub open spec fn wf(&self) -> bool {
        Self::sound(self@, self.scope_id())
    }

    /// An empty table for the context `scope`.
    pub fn new(scope: ContextId) -> (r: MacroTable)
        ensures
            r@ == Seq::<DefinitionView>::empty(),
            r.scope_id() == scope.0,
            r.wf(),
    {
        let r = MacroTable { entries: Vec::new(), scope };
        assert(r@ =~= Seq::<DefinitionView>::empty());
        r
    }

    /// The context that owns the table.
    pub fn scope(&self) -> (r: ContextId)
        ensures
            r.0 == self.scope_id(),
    {
        self.scope
    }

    /// The number of definitions in the table.
    pub fn len(&self) -> (r: usize)
        ensures
            r == self@.len(),
    {
        self.entries.len()
    }

    /// Whether the table holds no definition.
    pub fn is_empty(&self) -> (r: bool)
        ensures
            r == (self@.len() == 0),
    {
        self.entries.len() == 0
    }

    /// Finds the position of the definition of `name` that is in force.
    fn position(&self, name: &Vec<char>) -> (r: Option<usize>)
        ensures
            top_index(self@, name@) == match r {
                Some(i) => Some(i as int),
                None => None,
            },
            r matches Some(i) ==> i < self.entries.len(),
    {
        let mut n: usize = self.entries.len();
        while n > 0
            invariant
                n <= self.entries.len(),
                top_index(self@, name@) == top_below(self@, name@, n as int),
            decreases n,
        {
            if same_text(&self.entries[n - 1].name, name) {
                return Some(n - 1);
            }
            n -= 1;
        }
        None
    }

    /// The definition of `name` that is in force, for a name given as
    /// characters.
    pub fn find(&self, name: &Vec<char>) -> (r: Option<&MacroDefinition>)
        ensures
            lookup_in(self@, name@) == match r {
                Some(d) => Some(d@),
                None => None,
            },
            self.wf() ==> (r matches Some(d) ==> d@.valid()),
    {
        proof {
            lemma_top_below(self@, name@, self@.len() as int);
        }
        match self.position(name) {
            Some(i) => Some(&self.entries[i]),
            None => None,
        }
    }

    /// The definition of `name` that is in force: the one made last and
    /// not yet removed.
    pub fn lookup(&self, name: &str) -> (r: Option<&MacroDefinition>)
        ensures
            lookup_in(self@, name@) == match r {
                Some(d) => Some(d@),
                None => None,
            },
            self.wf() ==> (r matches Some(d) ==> d@.valid()),
    {
        let chars = text_of(name);
        self.find(&chars)
    }

    /// Whether `name` has a definition.
    pub fn is_defined(&self, name: &str) -> (r: bool)
        ensures
            r == top_index(self@, name@).is_some(),
    {
        let chars = text_of(name);
        self.position(&chars).is_some()
    }

    /// Reads the definition string and puts the definition on top of the
    /// table. A string that is refused leaves the table as it was.
    pub fn define(&mut self, macro_string: &str, level: isize) -> (r: Result<(), Error>)
        ensures
            final(self).scope_id() == old(self).scope_id(),
            old(self).wf() ==> final(self).wf(),
            match definition_of(macro_string@, level as int, old(self).scope_id()) {
                Ok(d) => r is Ok && final(self)@ == old(self)@.push(d),
                Err(f) => r == Err::<(), Error>(Error::Config(f)) && final(self)@ == old(self)@,
            },
    {
        let chars = text_of(macro_string);
        match parse_definition(&chars, level, self.scope) {
            Ok(d) => {
                let ghost before = self@;
                self.entries.push(d);
                assert(self@ =~= before.push(d@));
                Ok(())
            },
            Err(f) => Err(Error::Config(f)),
        }
    }

    /// Defines, in order and at level 0, the macros that the definition
    /// strings describe, up to the first string that is refused. Gives the
    /// number of macros defined; or, for a string that is refused, its index
    /// and the error, the definitions before it staying in place.
    pub fn define_all(&mut self, definitions: &Vec<String>) -> (r: Result<usize, (usize, Error)>)
        ensures
            final(self).scope_id() == old(self).scope_id(),
            old(self).wf() ==> final(self).wf(),
            match first_refused(string_views(definitions@), 0, old(self).scope_id(), 0) {
                None => r == Ok::<usize, (usize, Error)>(definitions@.len() as usize) && final(self)@
                    == with_definitions(
                    old(self)@,
                    string_views(definitions@),
                    0,
                    old(self).scope_id(),
                    definitions@.len() as int,
                ),
                Some(i) => definition_of(string_views(definitions@)[i], 0, old(self).scope_id()) matches Err(f) && r
                    == Err::<usize, (usize, Error)>((i as usize, Error::Config(f))) && final(self)@
                    == with_definitions(old(self)@, string_views(definitions@), 0, old(self).scope_id(), i),
            },
    {
        let ghost start = self@;
        let ghost scope = self.scope_id();
        let ghost sound_at_start = self.wf();
        let ghost strings = string_views(definitions@);
        let mut i: usize = 0;
        while i < definitions.len()
            invariant
                i <= definitions.len(),
                strings == string_views(definitions@),
                start == old(self)@,
                scope == old(self).scope_id(),
                sound_at_start == old(self).wf(),
                self.scope_id() == scope,
                sound_at_start ==> self.wf(),
                first_refused(strings, 0, scope, 0) == first_refused(strings, 0, scope, i as int),
                self@ == with_definitions(start, strings, 0, scope, i as int),
            decreases definitions.len() - i,
        {
            assert(strings[i as int] == definitions@[i as int]@);
            match self.define(definitions[i].as_str(), 0) {
                Ok(()) => {},
                Err(e) => {
                    return Err((i, e));
                },
            }
            i += 1;
        }
        Ok(i)
    }

    /// Removes the definition of `name` that is in force, so that the one
    /// made before it, if any, is in force again. Fails, and leaves the
    /// table as it was, where `name` has no definition.
    pub fn pop(&mut self, name: &str) -> (r: Result<(), Error>)
        ensures
            final(self).scope_id() == old(self).scope_id(),
            old(self).wf() ==> final(self).wf(),
            final(self)@ == without_top(old(self)@, name@),
            match top_index(old(self)@, name@) {
                Some(i) => r is Ok,
                None => r matches Err(e) && e@ == ErrorView::NotFound(name@),
            },
    {
        let chars = text_of(name);
        match self.position(&chars) {
            Some(i) => {
                let ghost before = self@;
                self.entries.remove(i);
                assert(self@ =~= before.remove(i as int));
                Ok(())
            },
            None => Err(Error::NotFound(string_of(&chars))),
        }
    }
}

} // verus!
