//! Macro definitions and the grammar of definition strings:
//! `<name>[(<parameter>,..)] <body>`.

use vstd::prelude::*;
use crate::convert::string_of;
use crate::error::ConfigFault;
use crate::text::{
    blank, blank_end, check_name, copy_range, digit, find_char, is_blank, is_digit,
    is_name, lemma_run_end, list_items, name_class, name_end, read_list, seek_char, skip_blanks,
    skip_name, texts,
};

verus! {

/// Names the context that a definition was made in.
#[derive(Debug, Clone, Copy, PartialEq, Eq, Hash)]
pub struct ContextId(pub u64);

/// One definition of a macro.
#[derive(Debug, Clone, PartialEq, Eq)]
pub struct MacroDefinition {
    /// The macro's name.
    pub name: Vec<char>,
    /// The names of the formal parameters, where the definition has a
    /// parameter list.
    pub parameters: Option<Vec<Vec<char>>>,
    /// The text that a reference to the macro stands for.
    pub body: Vec<char>,
    /// The level that the definition was made at.
    pub level: isize,
    /// The context that the definition was made in.
    pub scope: ContextId,
}

/// The mathematical value of a [`MacroDefinition`].
pub struct DefinitionView {
    pub name: Seq<char>,
    pub parameters: Option<Seq<Seq<char>>>,
    pub body: Seq<char>,
    pub level: int,
    pub scope: u64,
}

impl View for MacroDefinition {
    type V = DefinitionView;

    open spec fn view(&self) -> DefinitionView {
        DefinitionView {
            name: self.name@,
            parameters: match self.parameters {
                Some(p) => Some(texts(p@)),
                None => None,
            },
            body: self.body@,
            level: self.level as int,
            scope: self.scope.0,
        }
    }
}

/// The views of a sequence of strings.
pub open spec fn string_views(v: Seq<String>) -> Seq<Seq<char>> {
    Seq::new(v.len(), |i: int| v[i]@)
}

impl MacroDefinition {
    /// The macro's name, as a string.
    pub fn name_string(&self) -> (r: String)
        ensures
            r@ == self@.name,
    {
        string_of(&self.name)
    }

    /// The macro's body, as a string.
    pub fn body_string(&self) -> (r: String)
        ensures
            r@ == self@.body,
    {
        string_of(&self.body)
    }

    /// The names of the parameters, as strings, where the definition has
    /// a parameter list.
    pub fn parameter_strings(&self) -> (r: Option<Vec<String>>)
        ensures
            self@.parameters == match r {
                Some(v) => Some(string_views(v@)),
                None => None,
            },
    {
        match &self.parameters {
            None => None,
            Some(p) => {
                let mut out: Vec<String> = Vec::new();
                let mut i: usize = 0;
                while i < p.len()
                    invariant
                        i <= p.len(),
                        string_views(out@) == texts(p@).take(i as int),
                    decreases p.len() - i,
                {
                    let ghost before = out@;
                    out.push(string_of(&p[i]));
                    assert(string_views(out@) =~= string_views(before).push(p@[i as int]@));
                    assert(texts(p@).take(i as int + 1) =~= texts(p@).take(i as int).push(p@[i as int]@));
                    i += 1;
                }
                assert(texts(p@).take(p@.len() as int) =~= texts(p@));
                Some(out)
            },
        }
    }
}

/// Every item is a name.
pub open spec fn all_names(items: Seq<Seq<char>>) -> bool {
    forall|i: int| 0 <= i < items.len() ==> is_name(#[trigger] items[i])
}

impl DefinitionView {
    /// The invariant of a definition: its name and its parameters are names.
    pub open spec fn valid(self) -> bool {
        &&& is_name(self.name)
        &&& self.parameters matches Some(p) ==> all_names(p)
    }
}

/// Where the body starts, given that the name and the parameter list end
/// at `head`: at the end of the blanks that follow, which must be there
/// unless the string ends at `head`.
pub open spec fn body_start(s: Seq<char>, head: int) -> Option<int> {
    if head >= s.len() {
        Some(s.len() as int)
    } else if is_blank(s[head]) {
        Some(blank_end(s, head, s.len() as int))
    } else {
        None
    }
}

/// What a definition string defines, or why it is refused.
///
/// The name is the longest run of name characters at the start. A `(`
/// directly after it opens the list of parameters, names separated by
/// commas, which ends at the first `)`. Blanks separate this head from the
/// body, which is the rest of the string; a string that ends after the
/// head has an empty body.
pub open spec fn definition_of(s: Seq<char>, level: int, scope: u64) -> Result<DefinitionView, ConfigFault> {
    let len = s.len() as int;
    let n = name_end(s, 0, len);
    if n <= 0 {
        Err(ConfigFault::EmptyName)
    } else if is_digit(s[0]) {
        Err(ConfigFault::MalformedName)
    } else if n < len && s[n] == '(' {
        let c = find_char(s, n + 1, len, ')');
        if c >= len {
            Err(ConfigFault::UnbalancedParameters)
        } else if !all_names(list_items(s, n + 1, c)) {
            Err(ConfigFault::MalformedParameter)
        } else {
            match body_start(s, c + 1) {
                None => Err(ConfigFault::MissingSeparator),
                Some(b) => Ok(
                    DefinitionView {
                        name: s.subrange(0, n),
                        parameters: Some(list_items(s, n + 1, c)),
                        body: s.subrange(b, len),
                        level,
                        scope,
                    },
                ),
            }
        }
    } else {
        match body_start(s, n) {
            None => Err(ConfigFault::MalformedName),
            Some(b) => Ok(
                DefinitionView { name: s.subrange(0, n), parameters: None, body: s.subrange(b, len), level, scope },
            ),
        }
    }
}

/// A definition that a definition string gives is valid.
pub proof fn lemma_definition_valid(s: Seq<char>, level: int, scope: u64)
    ensures
        definition_of(s, level, scope) matches Ok(d) ==> d.valid(),
{
    let len = s.len() as int;
    lemma_run_end(s, 0, len, name_class());
}

/// Tests whether every item is a name.
fn check_names(items: &Vec<Vec<char>>) -> (r: bool)
    ensures
        r == all_names(texts(items@)),
{
    let mut i: usize = 0;
    while i < items.len()
        invariant
            i <= items.len(),
            forall|j: int| 0 <= j < i ==> is_name(#[trigger] texts(items@)[j]),
        decreases items.len() - i,
    {
        if !check_name(&items[i]) {
            assert(!is_name(texts(items@)[i as int]));
            return false;
        }
        i += 1;
    }
    true
}

/// Finds where the body starts after a head that ends at `head`.
fn find_body(s: &Vec<char>, head: usize) -> (r: Option<usize>)
    requires
        head <= s.len(),
    ensures
        body_start(s@, head as int) == match r {
            Some(b) => Some(b as int),
            None => None,
        },
        r matches Some(b) ==> b <= s.len(),
{
    if head >= s.len() {
        Some(s.len())
    } else if blank(s[head]) {
        Some(skip_blanks(s, head, s.len()))
    } else {
        None
    }
}

/// Reads a definition string.
pub fn parse_definition(s: &Vec<char>, level: isize, scope: ContextId) -> (r: Result<MacroDefinition, ConfigFault>)
    ensures
        match r {
            Ok(d) => definition_of(s@, level as int, scope.0) == Ok::<DefinitionView, ConfigFault>(d@) && d@.valid(),
            Err(f) => definition_of(s@, level as int, scope.0) == Err::<DefinitionView, ConfigFault>(f),
        },
{
    proof {
        lemma_definition_valid(s@, level as int, scope.0);
    }
    let len: usize = s.len();
    let n: usize = skip_name(s, 0, len);
    if n == 0 {
        return Err(ConfigFault::EmptyName);
    }
    if digit(s[0]) {
        return Err(ConfigFault::MalformedName);
    }
    if n < len && s[n] == '(' {
        let c: usize = seek_char(s, n + 1, len, ')');
        if c >= len {
            return Err(ConfigFault::UnbalancedParameters);
        }
        let items = read_list(s, n + 1, c);
        if !check_names(&items) {
            return Err(ConfigFault::MalformedParameter);
        }
        match find_body(s, c + 1) {
            None => Err(ConfigFault::MissingSeparator),
            Some(b) => Ok(
                MacroDefinition {
                    name: copy_range(s, 0, n),
                    parameters: Some(items),
                    body: copy_range(s, b, len),
                    level,
                    scope,
                },
            ),
        }
    } else {
        match find_body(s, n) {
            None => Err(ConfigFault::MalformedName),
            Some(b) => Ok(
                MacroDefinition { name: copy_range(s, 0, n), parameters: None, body: copy_range(s, b, len), level, scope },
            ),
        }
    }
}

} // verus!
