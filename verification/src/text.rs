//! Character classes and the scanning primitives that the grammars are
//! built from. Every scan works on a range `[from, to)` of a text and
//! never looks outside it.

use vstd::prelude::*;

verus! {

/// An ASCII letter.
pub open spec fn is_letter(c: char) -> bool {
    ('a' <= c && c <= 'z') || ('A' <= c && c <= 'Z')
}

/// An ASCII decimal digit.
pub open spec fn is_digit(c: char) -> bool {
    '0' <= c && c <= '9'
}

/// A character that may stand in a name: a letter, a digit or an underscore.
pub open spec fn is_name_char(c: char) -> bool {
    is_letter(c) || is_digit(c) || c == '_'
}

/// A space or a tab.
pub open spec fn is_blank(c: char) -> bool {
    c == ' ' || c == '\t'
}

/// A macro name: not empty, made of name characters, not starting with a digit.
pub open spec fn is_name(s: Seq<char>) -> bool {
    &&& s.len() > 0
    &&& !is_digit(s[0])
    &&& forall|i: int| 0 <= i < s.len() ==> is_name_char(#[trigger] s[i])
}

/// The class of name characters, as a predicate.
pub open spec fn name_class() -> spec_fn(char) -> bool {
    |c: char| is_name_char(c)
}

/// The class of blanks, as a predicate.
pub open spec fn blank_class() -> spec_fn(char) -> bool {
    |c: char| is_blank(c)
}

/// The class of every character but `c`, as a predicate.
pub open spec fn other_than(c: char) -> spec_fn(char) -> bool {
    |x: char| x != c
}

/// The end of the longest run of characters in class `p` that starts at
/// `from` and stays below `to`: the first index in `[from, to)` whose
/// character is outside `p`, or `to` when there is none.
pub open spec fn run_end(s: Seq<char>, from: int, to: int, p: spec_fn(char) -> bool) -> int
    decreases to - from,
{
    if 0 <= from < to && from < s.len() && p(s[from]) {
        run_end(s, from + 1, to, p)
    } else {
        from
    }
}

/// Where the name that starts at `from` ends.
pub open spec fn name_end(s: Seq<char>, from: int, to: int) -> int {
    run_end(s, from, to, name_class())
}

/// Where the blanks that start at `from` end.
pub open spec fn blank_end(s: Seq<char>, from: int, to: int) -> int {
    run_end(s, from, to, blank_class())
}

/// The first index in `[from, to)` that holds `c`, or `to` when none does.
pub open spec fn find_char(s: Seq<char>, from: int, to: int, c: char) -> int {
    run_end(s, from, to, other_than(c))
}

/// The index in `[from, to)` of the `close` that matches an `open` which was
/// read just before `from`, `depth` further ones being open; `to` when the
/// range ends first.
pub open spec fn closing(s: Seq<char>, from: int, to: int, open: char, close: char, depth: nat) -> int
    decreases to - from,
{
    if !(0 <= from < to && from < s.len()) {
        to
    } else if s[from] == close {
        if depth == 0 {
            from
        } else {
            closing(s, from + 1, to, open, close, (depth - 1) as nat)
        }
    } else if s[from] == open {
        closing(s, from + 1, to, open, close, depth + 1)
    } else {
        closing(s, from + 1, to, open, close, depth)
    }
}

/// The pieces of `s[from..to)` between occurrences of `sep`. There is always
/// at least one piece; an empty range gives one empty piece.
pub open spec fn split_at(s: Seq<char>, from: int, to: int, sep: char) -> Seq<Seq<char>>
    decreases to - from,
{
    let i = find_char(s, from, to, sep);
    if from <= i < to {
        seq![s.subrange(from, i)] + split_at(s, i + 1, to, sep)
    } else {
        seq![s.subrange(from, to)]
    }
}

/// The items of a comma-separated list in `s[from..to)`: none for an empty
/// range, else the pieces between the commas.
pub open spec fn list_items(s: Seq<char>, from: int, to: int) -> Seq<Seq<char>> {
    if from >= to {
        Seq::empty()
    } else {
        split_at(s, from, to, ',')
    }
}

/// The views of a sequence of texts.
pub open spec fn texts(v: Seq<Vec<char>>) -> Seq<Seq<char>> {
    Seq::new(v.len(), |i: int| v[i]@)
}

/// A run ends inside its range, everything before its end is in the class,
/// and the character at its end, if any, is not.
pub proof fn lemma_run_end(s: Seq<char>, from: int, to: int, p: spec_fn(char) -> bool)
    requires
        0 <= from <= to <= s.len(),
    ensures
        from <= run_end(s, from, to, p) <= to,
        forall|i: int| from <= i < run_end(s, from, to, p) ==> p(#[trigger] s[i]),
        run_end(s, from, to, p) < to ==> !p(s[run_end(s, from, to, p)]),
    decreases to - from,
{
    if from < to && p(s[from]) {
        lemma_run_end(s, from + 1, to, p);
    }
}

/// A run that is known to hold the class up to `end`, and to stop there,
/// ends at `end`.
pub proof fn lemma_run_end_is(s: Seq<char>, from: int, to: int, p: spec_fn(char) -> bool, end: int)
    requires
        0 <= from <= end <= to <= s.len(),
        forall|i: int| from <= i < end ==> p(#[trigger] s[i]),
        end < to ==> !p(s[end]),
    ensures
        run_end(s, from, to, p) == end,
    decreases end - from,
{
    if from < end {
        lemma_run_end_is(s, from + 1, to, p, end);
    }
}

/// The matching `close`, if found, lies inside the range.
pub proof fn lemma_closing_bounds(s: Seq<char>, from: int, to: int, open: char, close: char, depth: nat)
    requires
        0 <= from <= to <= s.len(),
    ensures
        from <= closing(s, from, to, open, close, depth) <= to,
        closing(s, from, to, open, close, depth) < to ==> s[closing(s, from, to, open, close, depth)] == close,
    decreases to - from,
{
    if from < to {
        if s[from] == close {
            if depth != 0 {
                lemma_closing_bounds(s, from + 1, to, open, close, (depth - 1) as nat);
            }
        } else if s[from] == open {
            lemma_closing_bounds(s, from + 1, to, open, close, depth + 1);
        } else {
            lemma_closing_bounds(s, from + 1, to, open, close, depth);
        }
    }
}

/// Where nothing between `from` and `end` opens or closes, and `end`
/// holds a `close`, that is the matching one.
pub proof fn lemma_closing_is(s: Seq<char>, from: int, to: int, open: char, close: char, end: int)
    requires
        0 <= from <= end < to <= s.len(),
        forall|i: int| from <= i < end ==> #[trigger] s[i] != open && s[i] != close,
        s[end] == close,
    ensures
        closing(s, from, to, open, close, 0) == end,
    decreases end - from,
{
    if from < end {
        lemma_closing_is(s, from + 1, to, open, close, end);
    }
}

/// Tests whether `c` is a decimal digit.
pub fn digit(c: char) -> (r: bool)
    ensures
        r == is_digit(c),
{
    '0' <= c && c <= '9'
}

/// Tests whether `c` may stand in a name.
pub fn name_char(c: char) -> (r: bool)
    ensures
        r == is_name_char(c),
{
    ('a' <= c && c <= 'z') || ('A' <= c && c <= 'Z') || ('0' <= c && c <= '9') || c == '_'
}

/// Tests whether `c` is a space or a tab.
pub fn blank(c: char) -> (r: bool)
    ensures
        r == is_blank(c),
{
    c == ' ' || c == '\t'
}

/// Tests whether `s` is a macro name.
pub fn check_name(s: &Vec<char>) -> (r: bool)
    ensures
        r == is_name(s@),
{
    if s.len() == 0 || digit(s[0]) {
        return false;
    }
    let mut i: usize = 0;
    while i < s.len()
        invariant
            i <= s.len(),
            forall|j: int| 0 <= j < i ==> is_name_char(#[trigger] s@[j]),
        decreases s.len() - i,
    {
        if !name_char(s[i]) {
            return false;
        }
        i += 1;
    }
    true
}

/// Finds where the name that starts at `from` ends.
pub fn skip_name(s: &Vec<char>, from: usize, to: usize) -> (end: usize)
    requires
        from <= to <= s.len(),
    ensures
        end == name_end(s@, from as int, to as int),
        from <= end <= to,
{
    let mut i: usize = from;
    while i < to && name_char(s[i])
        invariant
            from <= i <= to <= s.len(),
            run_end(s@, from as int, to as int, name_class()) == run_end(s@, i as int, to as int, name_class()),
        decreases to - i,
    {
        i += 1;
    }
    i
}

/// Finds where the blanks that start at `from` end.
pub fn skip_blanks(s: &Vec<char>, from: usize, to: usize) -> (end: usize)
    requires
        from <= to <= s.len(),
    ensures
        end == blank_end(s@, from as int, to as int),
        from <= end <= to,
{
    let mut i: usize = from;
    while i < to && blank(s[i])
        invariant
            from <= i <= to <= s.len(),
            run_end(s@, from as int, to as int, blank_class()) == run_end(s@, i as int, to as int, blank_class()),
        decreases to - i,
    {
        i += 1;
    }
    i
}

/// Finds the first `c` in `[from, to)`; gives `to` when there is none.
pub fn seek_char(s: &Vec<char>, from: usize, to: usize, c: char) -> (end: usize)
    requires
        from <= to <= s.len(),
    ensures
        end == find_char(s@, from as int, to as int, c),
        from <= end <= to,
        end < to ==> s@[end as int] == c,
{
    let mut i: usize = from;
    while i < to && s[i] != c
        invariant
            from <= i <= to <= s.len(),
            run_end(s@, from as int, to as int, other_than(c)) == run_end(s@, i as int, to as int, other_than(c)),
        decreases to - i,
    {
        i += 1;
    }
    i
}

/// Finds the `close` that matches an `open` read just before `from`; gives
/// `to` when the range ends first.
pub fn seek_closing(s: &Vec<char>, from: usize, to: usize, open: char, close: char) -> (end: usize)
    requires
        from <= to <= s.len(),
    ensures
        end == closing(s@, from as int, to as int, open, close, 0),
        from <= end <= to,
        end < to ==> s@[end as int] == close,
{
    let mut i: usize = from;
    let mut depth: usize = 0;
    while i < to
        invariant
            from <= i <= to <= s.len(),
            depth <= i - from,
            closing(s@, from as int, to as int, open, close, 0) == closing(s@, i as int, to as int, open, close, depth as nat),
        decreases to - i,
    {
        let c = s[i];
        if c == close {
            if depth == 0 {
                return i;
            }
            depth -= 1;
        } else if c == open {
            depth += 1;
        }
        i += 1;
    }
    i
}

/// Copies `s[from..to)`.
pub fn copy_range(s: &Vec<char>, from: usize, to: usize) -> (r: Vec<char>)
    requires
        from <= to <= s.len(),
    ensures
        r@ == s@.subrange(from as int, to as int),
{
    let mut r: Vec<char> = Vec::new();
    let mut i: usize = from;
    while i < to
        invariant
            from <= i <= to <= s.len(),
            r@ == s@.subrange(from as int, i as int),
        decreases to - i,
    {
        r.push(s[i]);
        i += 1;
    }
    r
}

/// Copies `s`.
pub fn copy_text(s: &Vec<char>) -> (r: Vec<char>)
    ensures
        r@ == s@,
{
    let r = copy_range(s, 0, s.len());
    assert(s@.subrange(0, s@.len() as int) =~= s@);
    r
}

/// Appends `piece` to `out`.
pub fn append_text(out: &mut Vec<char>, piece: &Vec<char>)
    ensures
        final(out)@ == old(out)@ + piece@,
{
    let mut i: usize = 0;
    while i < piece.len()
        invariant
            i <= piece.len(),
            out@ == old(out)@ + piece@.subrange(0, i as int),
        decreases piece.len() - i,
    {
        out.push(piece[i]);
        i += 1;
    }
    assert(piece@.subrange(0, piece.len() as int) == piece@);
}

/// Tests whether two texts are equal.
pub fn same_text(a: &Vec<char>, b: &Vec<char>) -> (r: bool)
    ensures
        r == (a@ == b@),
{
    if a.len() != b.len() {
        return false;
    }
    let mut i: usize = 0;
    while i < a.len()
        invariant
            i <= a.len(),
            a.len() == b.len(),
            forall|j: int| 0 <= j < i ==> a@[j] == b@[j],
        decreases a.len() - i,
    {
        if a[i] != b[i] {
            return false;
        }
        i += 1;
    }
    assert(a@ =~= b@);
    true
}

/// Splits `s[from..to)` at each `sep`.
pub fn split_range(s: &Vec<char>, from: usize, to: usize, sep: char) -> (r: Vec<Vec<char>>)
    requires
        from <= to <= s.len(),
    ensures
        texts(r@) == split_at(s@, from as int, to as int, sep),
{
    let mut r: Vec<Vec<char>> = Vec::new();
    let mut start: usize = from;
    loop
        invariant
            from <= start <= to <= s.len(),
            split_at(s@, from as int, to as int, sep) == texts(r@) + split_at(s@, start as int, to as int, sep),
        decreases to - start,
    {
        let i = seek_char(s, start, to, sep);
        let piece = copy_range(s, start, if i < to { i } else { to });
        let ghost before = r@;
        r.push(piece);
        assert(texts(r@) =~= texts(before).push(piece@));
        if i < to {
            assert(texts(r@) + split_at(s@, i as int + 1, to as int, sep) =~= texts(before) + split_at(
                s@,
                start as int,
                to as int,
                sep,
            ));
            start = i + 1;
        } else {
            assert(texts(r@) =~= texts(before) + split_at(s@, start as int, to as int, sep));
            return r;
        }
    }
}

/// Reads the comma-separated list in `s[from..to)`.
pub fn read_list(s: &Vec<char>, from: usize, to: usize) -> (r: Vec<Vec<char>>)
    requires
        from <= to <= s.len(),
    ensures
        texts(r@) == list_items(s@, from as int, to as int),
{
    if from >= to {
        let r: Vec<Vec<char>> = Vec::new();
        assert(texts(r@) =~= Seq::<Seq<char>>::empty());
        r
    } else {
        split_range(s, from, to, ',')
    }
}

} // verus!
