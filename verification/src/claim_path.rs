use crate::error::Error;
use crate::text::chars_of;
use crate::text::copy_string;
use vstd::prelude::*;

verus! {

/// One step of a claim path as a mathematical value: the name of a field of a
/// mapping, or a zero-based position in a sequence.
pub enum Step {
    Field(Seq<char>),
    Index(nat),
}

/// One step of a claim path.
#[derive(Debug, PartialEq, Eq)]
pub enum PathSegment {
    /// A field of a mapping, by name.
    Field(String),
    /// An element of a sequence, by zero-based position.
    Index(u64),
}

impl View for PathSegment {
    type V = Step;

    open spec fn view(&self) -> Step {
        match self {
            PathSegment::Field(name) => Step::Field(name@),
            PathSegment::Index(position) => Step::Index(*position as nat),
        }
    }
}

/// The steps that a sequence of segments stands for.
pub open spec fn steps_of(segments: Seq<PathSegment>) -> Seq<Step> {
    Seq::new(segments.len(), |i: int| segments[i]@)
}

/// A location in a claim tree: the steps that lead to it from the root.
#[derive(Debug, PartialEq, Eq)]
pub struct ClaimPath {
    pub segments: Vec<PathSegment>,
}

impl View for ClaimPath {
    type V = Seq<Step>;

    open spec fn view(&self) -> Seq<Step> {
        steps_of(self.segments@)
    }
}

/// A character that may stand in a name: any but the three separators.
pub open spec fn is_name_char(c: char) -> bool {
    c != '.' && c != '[' && c != ']'
}

/// A name: one or more name characters.
pub open spec fn is_name(s: Seq<char>) -> bool {
    s.len() > 0 && forall|i: int| 0 <= i < s.len() ==> is_name_char(#[trigger] s[i])
}

/// A decimal digit.
pub open spec fn is_digit(c: char) -> bool {
    '0' <= c && c <= '9'
}

/// The value of a decimal digit.
pub open spec fn digit_value(c: char) -> nat {
    (c as u32 - '0' as u32) as nat
}

/// The number that a string of decimal digits writes.
pub open spec fn decimal_value(digits: Seq<char>) -> nat
    decreases digits.len(),
{
    if digits.len() == 0 {
        0
    } else {
        decimal_value(digits.drop_last()) * 10 + digit_value(digits.last())
    }
}

/// An index: one or more decimal digits whose value fits in 64 bits.
pub open spec fn is_index(s: Seq<char>) -> bool {
    &&& s.len() > 0
    &&& forall|i: int| 0 <= i < s.len() ==> is_digit(#[trigger] s[i])
    &&& decimal_value(s) <= u64::MAX
}

/// The first position at or after `from` where `s` holds `c`, or the length
/// of `s` where there is none.
pub open spec fn find_from(s: Seq<char>, c: char, from: int) -> int
    decreases s.len() - from,
{
    if from < 0 || from >= s.len() {
        s.len() as int
    } else if s[from] == c {
        from
    } else {
        find_from(s, c, from + 1)
    }
}

/// What one segment of a path string stands for: `name` is one field step,
/// `name[index]` a field step and then an index step. Anything else is no
/// segment.
pub open spec fn parse_segment(s: Seq<char>) -> Option<Seq<Step>> {
    let open = find_from(s, '[', 0);
    let name = s.subrange(0, open);
    if !is_name(name) {
        None
    } else if open == s.len() {
        Some(seq![Step::Field(name)])
    } else if open + 1 < s.len() - 1 && s.last() == ']' && is_index(
        s.subrange(open + 1, s.len() - 1),
    ) {
        Some(seq![Step::Field(name), Step::Index(decimal_value(s.subrange(open + 1, s.len() - 1)))])
    } else {
        None
    }
}

/// What the part of a path string from position `from` on stands for: its
/// segments, separated by single dots, each parsed in turn.
pub open spec fn parse_from(s: Seq<char>, from: int) -> Option<Seq<Step>>
    decreases s.len() - from,
    when 0 <= from
    via parse_from_terminates
{
    let dot = find_from(s, '.', from);
    match parse_segment(s.subrange(from, dot)) {
        None => None,
        Some(first) => if dot >= s.len() {
            Some(first)
        } else {
            match parse_from(s, dot + 1) {
                None => None,
                Some(rest) => Some(first + rest),
            }
        },
    }
}

#[via_fn]
proof fn parse_from_terminates(s: Seq<char>, from: int) {
    lemma_find_from_bounds(s, '.', from);
}

/// What a path string stands for, where it follows the path grammar.
pub open spec fn parse_path(s: Seq<char>) -> Option<Seq<Step>> {
    parse_from(s, 0)
}

/// `find_from` answers with a position between `from` and the length, and
/// nothing before that position is `c`.
pub proof fn lemma_find_from_bounds(s: Seq<char>, c: char, from: int)
    requires
        0 <= from,
    ensures
        from <= s.len() ==> from <= find_from(s, c, from) <= s.len(),
        find_from(s, c, from) < s.len() ==> s[find_from(s, c, from)] == c,
        forall|i: int| from <= i < find_from(s, c, from) ==> s[i] != c,
    decreases s.len() - from,
{
    if from < s.len() && s[from] != c {
        lemma_find_from_bounds(s, c, from + 1);
    }
}

/// The value of a prefix of a digit string is at most the value of the whole.
pub proof fn lemma_decimal_prefix(digits: Seq<char>, n: int)
    requires
        0 <= n <= digits.len(),
    ensures
        decimal_value(digits.take(n)) <= decimal_value(digits),
    decreases digits.len() - n,
{
    if n == digits.len() {
        assert(digits.take(n) =~= digits);
    } else {
        lemma_decimal_prefix(digits, n + 1);
        assert(digits.take(n + 1).drop_last() =~= digits.take(n));
    }
}

/// Where nothing from `from` up to `at` is `c`, and `at` is the end of `s` or
/// holds `c`, the search from `from` stops at `at`.
pub proof fn lemma_find_from_is(s: Seq<char>, c: char, from: int, at: int)
    requires
        0 <= from <= at <= s.len(),
        forall|i: int| from <= i < at ==> s[i] != c,
        at < s.len() ==> s[at] == c,
    ensures
        find_from(s, c, from) == at,
    decreases at - from,
{
    if from < at {
        lemma_find_from_is(s, c, from + 1, at);
    }
}

/// Text that is written before a string moves what is found in it, and
/// nothing else.
pub proof fn lemma_find_from_after(before: Seq<char>, s: Seq<char>, c: char, from: int)
    requires
        0 <= from <= s.len(),
    ensures
        find_from(before + s, c, before.len() + from) == before.len() + find_from(s, c, from),
    decreases s.len() - from,
{
    if from < s.len() && s[from] != c {
        lemma_find_from_after(before, s, c, from + 1);
    }
}

/// What stands from a position on in a string stands for the same steps
/// whatever is written before the string.
pub proof fn lemma_parse_from_after(before: Seq<char>, s: Seq<char>, from: int)
    requires
        0 <= from <= s.len(),
    ensures
        parse_from(before + s, before.len() + from) == parse_from(s, from),
    decreases s.len() - from,
{
    let whole = before + s;
    let dot = find_from(s, '.', from);
    lemma_find_from_after(before, s, '.', from);
    lemma_find_from_bounds(s, '.', from);
    assert(whole.subrange(before.len() + from, before.len() + dot) =~= s.subrange(from, dot));
    if dot < s.len() {
        lemma_parse_from_after(before, s, dot + 1);
    }
}

/// A name and a dot before a path string add one field step before its
/// steps: `name.rest` stands for the field `name` and then for what `rest`
/// stands for.
pub proof fn lemma_parse_after_name(name: Seq<char>, rest: Seq<char>)
    requires
        is_name(name),
    ensures
        parse_path(name + seq!['.'] + rest) == match parse_path(rest) {
            Some(steps) => Some(seq![Step::Field(name)] + steps),
            None => None,
        },
{
    let before = name + seq!['.'];
    let whole = before + rest;
    assert forall|i: int| 0 <= i < name.len() implies whole[i] != '.' by {
        assert(is_name_char(name[i]));
    }
    lemma_find_from_is(whole, '.', 0, name.len() as int);
    assert(whole.subrange(0, name.len() as int) =~= name);
    assert forall|i: int| 0 <= i < name.len() implies name[i] != '[' by {
        assert(is_name_char(name[i]));
    }
    lemma_find_from_is(name, '[', 0, name.len() as int);
    assert(name.subrange(0, name.len() as int) =~= name);
    assert(parse_segment(name) == Some(seq![Step::Field(name)]));
    lemma_parse_from_after(before, rest, 0);
}

/// Whether every field of `path` is a name of the path grammar.
pub open spec fn has_names(path: Seq<Step>) -> bool {
    forall|k: int|
        0 <= k < path.len() ==> (#[trigger] path[k] matches Step::Field(name) ==> is_name(name))
}

/// The fields of what a path string stands for are names.
pub proof fn lemma_parsed_fields_are_names(s: Seq<char>, from: int)
    requires
        0 <= from <= s.len(),
    ensures
        parse_from(s, from) matches Some(steps) ==> has_names(steps),
    decreases s.len() - from,
{
    let dot = find_from(s, '.', from);
    lemma_find_from_bounds(s, '.', from);
    match parse_segment(s.subrange(from, dot)) {
        None => {},
        Some(first) => {
            assert(has_names(first));
            if dot < s.len() {
                lemma_parsed_fields_are_names(s, dot + 1);
                match parse_from(s, dot + 1) {
                    None => {},
                    Some(rest) => {
                        let steps = first + rest;
                        assert forall|k: int| 0 <= k < steps.len() implies (
                        #[trigger] steps[k] matches Step::Field(name) ==> is_name(name)) by {
                            if k < first.len() {
                                assert(steps[k] == first[k]);
                            } else {
                                assert(steps[k] == rest[k - first.len()]);
                            }
                        }
                    },
                }
            }
        },
    }
}

impl PathSegment {
    /// A copy of this segment.
    pub fn duplicate(&self) -> (out: PathSegment)
        ensures
            out@ == self@,
    {
        match self {
            PathSegment::Field(name) => PathSegment::Field(copy_string(name)),
            PathSegment::Index(position) => PathSegment::Index(*position),
        }
    }

    /// Whether two segments are the same step.
    pub fn same_as(&self, other: &PathSegment) -> (same: bool)
        ensures
            same == (self@ == other@),
    {
        match (self, other) {
            (PathSegment::Field(a), PathSegment::Field(b)) => *a == *b,
            (PathSegment::Index(a), PathSegment::Index(b)) => *a == *b,
            _ => false,
        }
    }
}

impl ClaimPath {
    /// The number of steps.
    pub fn len(&self) -> (n: usize)
        ensures
            n == self@.len(),
    {
        self.segments.len()
    }

    /// A copy of this path.
    pub fn duplicate(&self) -> (out: ClaimPath)
        ensures
            out@ == self@,
    {
        let mut segments: Vec<PathSegment> = Vec::new();
        let mut i: usize = 0;
        while i < self.segments.len()
            invariant
                i <= self.segments.len(),
                segments.len() == i,
                forall|j: int| 0 <= j < i ==> segments@[j]@ == self.segments@[j]@,
            decreases self.segments.len() - i,
        {
            segments.push(self.segments[i].duplicate());
            i += 1;
        }
        let out = ClaimPath { segments };
        assert(out@ =~= self@);
        out
    }

    /// Whether this path leads to `other` or to a location above it: whether
    /// its steps are the first steps of `other`.
    pub fn is_prefix_of(&self, other: &ClaimPath) -> (yes: bool)
        ensures
            yes == self@.is_prefix_of(other@),
    {
        if self.segments.len() > other.segments.len() {
            return false;
        }
        let mut i: usize = 0;
        while i < self.segments.len()
            invariant
                self.segments.len() <= other.segments.len(),
                i <= self.segments.len(),
                forall|j: int| 0 <= j < i ==> self@[j] == other@[j],
            decreases self.segments.len() - i,
        {
            if !self.segments[i].same_as(&other.segments[i]) {
                assert(self@[i as int] != other@[i as int]);
                assert(other@.subrange(0, self@.len() as int)[i as int] == other@[i as int]);
                return false;
            }
            i += 1;
        }
        assert(other@.subrange(0, self@.len() as int) =~= self@);
        true
    }
}

/// Copies the characters of `chars` from `from` up to `end`.
fn copy_range(chars: &Vec<char>, from: usize, end: usize) -> (out: Vec<char>)
    requires
        from <= end <= chars.len(),
    ensures
        out@ == chars@.subrange(from as int, end as int),
{
    let mut out: Vec<char> = Vec::new();
    let mut i: usize = from;
    while i < end
        invariant
            from <= i <= end <= chars.len(),
            out@ == chars@.subrange(from as int, i as int),
        decreases end - i,
    {
        out.push(chars[i]);
        assert(out@ =~= chars@.subrange(from as int, i + 1));
        i += 1;
    }
    out
}

/// The first position at or after `from` where `chars` holds `c`, or the
/// length of `chars` where there is none.
pub fn find_char(chars: &Vec<char>, c: char, from: usize) -> (at: usize)
    requires
        from <= chars.len(),
    ensures
        at == find_from(chars@, c, from as int),
        from <= at <= chars.len(),
{
    let mut i: usize = from;
    while i < chars.len() && chars[i] != c
        invariant
            from <= i <= chars.len(),
            find_from(chars@, c, from as int) == find_from(chars@, c, i as int),
        decreases chars.len() - i,
    {
        i += 1;
    }
    i
}

/// Whether the first `end` characters of `chars` make a name.
fn is_name_prefix(chars: &Vec<char>, end: usize) -> (yes: bool)
    requires
        end <= chars.len(),
    ensures
        yes == is_name(chars@.subrange(0, end as int)),
{
    let ghost name = chars@.subrange(0, end as int);
    if end == 0 {
        return false;
    }
    let mut i: usize = 0;
    while i < end
        invariant
            i <= end <= chars.len(),
            name == chars@.subrange(0, end as int),
            forall|j: int| 0 <= j < i ==> is_name_char(#[trigger] name[j]),
        decreases end - i,
    {
        let c = chars[i];
        if c == '.' || c == '[' || c == ']' {
            assert(!is_name_char(name[i as int]));
            return false;
        }
        i += 1;
    }
    true
}

/// Reads the decimal digits of `chars` from `from` up to `end` as an index.
pub fn read_index(chars: &Vec<char>, from: usize, end: usize) -> (out: Option<u64>)
    requires
        from <= end <= chars.len(),
    ensures
        out is Some == is_index(chars@.subrange(from as int, end as int)),
        out matches Some(v) ==> v == decimal_value(chars@.subrange(from as int, end as int)),
{
    let ghost digits = chars@.subrange(from as int, end as int);
    if from == end {
        return None;
    }
    let mut value: u64 = 0;
    let mut i: usize = from;
    while i < end
        invariant
            from <= i <= end <= chars.len(),
            digits == chars@.subrange(from as int, end as int),
            forall|j: int| 0 <= j < i - from ==> is_digit(#[trigger] digits[j]),
            value == decimal_value(digits.take(i - from)),
        decreases end - i,
    {
        let c = chars[i];
        if c < '0' || c > '9' {
            assert(!is_digit(digits[i - from]));
            return None;
        }
        let digit: u64 = (c as u32 - '0' as u32) as u64;
        proof {
            lemma_decimal_prefix(digits, i - from + 1);
            assert(digits.take(i - from + 1).drop_last() =~= digits.take(i - from));
            assert(digits.take(i - from + 1).last() == c);
            assert(digit == digit_value(c));
        }
        let scaled = match value.checked_mul(10) {
            Some(v) => v,
            None => {
                return None;
            },
        };
        value = match scaled.checked_add(digit) {
            Some(v) => v,
            None => {
                return None;
            },
        };
        i += 1;
    }
    assert(digits.take(end - from) =~= digits);
    Some(value)
}

/// Parses the segment that `chars` holds from `from` up to `end` and appends
/// its steps to `out`. Answers whether it is a segment; where it is not,
/// `out` is left as it was.
fn read_segment(path: &str, chars: &Vec<char>, from: usize, end: usize, out: &mut Vec<
    PathSegment,
>) -> (ok: bool)
    requires
        path@ == chars@,
        from <= end <= chars.len(),
    ensures
        ok == parse_segment(chars@.subrange(from as int, end as int)) is Some,
        ok ==> steps_of(final(out)@) == steps_of(old(out)@) + parse_segment(
            chars@.subrange(from as int, end as int),
        )->Some_0,
        !ok ==> final(out)@ == old(out)@,
{
    let segment = copy_range(chars, from, end);
    let open = find_char(&segment, '[', 0);
    proof {
        lemma_find_from_bounds(segment@, '[', 0);
    }
    if !is_name_prefix(&segment, open) {
        return false;
    }
    let name_text = path.substring_char(from, from + open);
    assert(name_text@ =~= segment@.subrange(0, open as int));
    if open == segment.len() {
        out.push(PathSegment::Field(copy_str(name_text)));
        assert(steps_of(out@) =~= steps_of(old(out)@) + seq![Step::Field(name_text@)]);
        return true;
    }
    let last = segment.len() - 1;
    if open + 1 >= last || segment[last] != ']' {
        return false;
    }
    match read_index(&segment, open + 1, last) {
        None => false,
        Some(position) => {
            out.push(PathSegment::Field(copy_str(name_text)));
            out.push(PathSegment::Index(position));
            assert(steps_of(out@) =~= steps_of(old(out)@) + seq![
                Step::Field(name_text@),
                Step::Index(position as nat),
            ]);
            true
        },
    }
}

/// An owned copy of a string slice.
fn copy_str(s: &str) -> (out: String)
    ensures
        out@ == s@,
{
    s.to_owned()
}

/// Parses a path string: segments separated by single dots, each a name or a
/// name followed by one index in square brackets.
///
/// Fails with `MalformedPath` on an empty segment, on an index that is not a
/// string of decimal digits or does not fit in 64 bits, and on brackets that
/// do not match.
pub fn parse(path: &str) -> (out: Result<ClaimPath, Error>)
    ensures
        match parse_path(path@) {
            Some(steps) => out matches Ok(p) && p@ == steps,
            None => out == Err::<ClaimPath, Error>(Error::MalformedPath),
        },
{
    let chars = chars_of(path);
    let mut segments: Vec<PathSegment> = Vec::new();
    let mut from: usize = 0;
    loop
        invariant
            path@ == chars@,
            from <= chars.len(),
            match parse_from(chars@, from as int) {
                Some(rest) => parse_path(chars@) == Some(steps_of(segments@) + rest),
                None => parse_path(chars@) is None,
            },
        decreases chars.len() - from,
    {
        let dot = find_char(&chars, '.', from);
        let ghost before = steps_of(segments@);
        if !read_segment(path, &chars, from, dot, &mut segments) {
            return Err(Error::MalformedPath);
        }
        if dot >= chars.len() {
            return Ok(ClaimPath { segments });
        }
        proof {
            let first = parse_segment(chars@.subrange(from as int, dot as int))->Some_0;
            match parse_from(chars@, dot + 1) {
                Some(rest) => {
                    assert(before + (first + rest) =~= (before + first) + rest);
                },
                None => {},
            }
        }
        from = dot + 1;
    }
}

} // verus!
