use crate::claim_path::decimal_value;
use crate::claim_path::find_char;
use crate::claim_path::find_from;
use crate::claim_path::is_index;
use crate::claim_path::lemma_find_from_bounds;
use crate::claim_path::parse;
use crate::claim_path::parse_path;
use crate::claim_path::read_index;
use crate::claim_path::ClaimPath;
use crate::claim_path::PathSegment;
use crate::claim_path::Step;
use crate::error::Error;
use crate::text::chars_of;
use crate::text::copy_string;
use vstd::prelude::*;

verus! {

/// Whether a leaf name may go on at `pos` with a further step, or ends
/// there: the position is the end of the name, or holds the dot before a
/// field or the bracket that opens an index.
pub open spec fn is_boundary(name: Seq<char>, pos: int) -> bool {
    pos == name.len() || (0 <= pos < name.len() && (name[pos] == '.' || name[pos] == '['))
}

/// Where `step` ends in a leaf name in which it starts at `pos`, if the name
/// takes that step there. A field is its name, after a dot unless the leaf
/// name starts with it; an index is a decimal number of that value in square
/// brackets.
pub open spec fn step_end(name: Seq<char>, pos: int, step: Step) -> Option<int> {
    match step {
        Step::Field(field) => {
            let start = if pos == 0 {
                0
            } else {
                pos + 1
            };
            if field.len() > 0 && (pos == 0 || (0 < pos < name.len() && name[pos] == '.')) && start
                + field.len() <= name.len() && name.subrange(start, start + field.len()) == field {
                Some(start + field.len())
            } else {
                None
            }
        },
        Step::Index(index) => {
            let close = find_from(name, ']', pos + 1);
            if 0 < pos < name.len() && name[pos] == '[' && close < name.len() && is_index(
                name.subrange(pos + 1, close),
            ) && decimal_value(name.subrange(pos + 1, close)) == index {
                Some(close + 1)
            } else {
                None
            }
        },
    }
}

/// Where the steps of `path` from the `k`-th on end in a leaf name in which
/// they start at `pos`, if the name takes them one after the other.
pub open spec fn walk(name: Seq<char>, path: Seq<Step>, k: int, pos: int) -> Option<int>
    decreases path.len() - k,
{
    if k < 0 || k >= path.len() {
        Some(pos)
    } else {
        match step_end(name, pos, path[k]) {
            Some(next) => walk(name, path, k + 1, next),
            None => None,
        }
    }
}

/// Whether a leaf of this name lies at `path` or below it: the name takes
/// every step of the path from its start on, and ends there or goes on with
/// a further step. Every run of indexes and every field that the name goes
/// on with is below the path, whatever it is.
pub open spec fn leads_into(name: Seq<char>, path: Seq<Step>) -> bool {
    path.len() > 0 && (walk(name, path, 0, 0) matches Some(end) && is_boundary(name, end))
}

/// Whether leaf `i` is the first to bear its name. A proof artifact hides a
/// claim by its name, so a leaf that repeats an earlier name cannot be told
/// from it and has no address.
pub open spec fn is_first(names: Seq<Seq<char>>, i: int) -> bool {
    forall|j: int| 0 <= j < i ==> names[j] != names[i]
}

/// Whether leaf `i` lies at `path` or below it.
pub open spec fn is_under(names: Seq<Seq<char>>, i: int, path: Seq<Step>) -> bool {
    is_first(names, i) && leads_into(names[i], path)
}

/// Whether `path` exists in the tree: whether it leads to a leaf, or to a
/// mapping or a sequence that holds one.
pub open spec fn path_exists(names: Seq<Seq<char>>, path: Seq<Step>) -> bool {
    exists|i: int| 0 <= i < names.len() && is_under(names, i, path)
}

/// Whether `found` lists, in rising order, exactly the leaves at or below
/// `path`.
pub open spec fn is_location(names: Seq<Seq<char>>, path: Seq<Step>, found: Seq<usize>) -> bool {
    &&& forall|k: int|
        0 <= k < found.len() ==> (#[trigger] found[k]) < names.len() && is_under(
            names,
            found[k] as int,
            path,
        )
    &&& forall|k: int, l: int| 0 <= k < l < found.len() ==> found[k] < found[l]
    &&& forall|i: int|
        0 <= i < names.len() && #[trigger] is_under(names, i, path) ==> exists|k: int|
            0 <= k < found.len() && found[k] == i
}

/// A step that a name takes ends after where it starts.
pub proof fn lemma_step_advances(name: Seq<char>, pos: int, step: Step)
    requires
        0 <= pos,
        step_end(name, pos, step) is Some,
    ensures
        pos < step_end(name, pos, step)->Some_0 <= name.len(),
{
    match step {
        Step::Field(_) => {},
        Step::Index(_) => {
            lemma_find_from_bounds(name, ']', pos + 1);
        },
    }
}

/// A name that takes the steps of a path takes its first `m` steps, and ends
/// them where it goes on with the rest.
pub proof fn lemma_walk_prefix(name: Seq<char>, path: Seq<Step>, m: int, k: int, pos: int)
    requires
        0 <= k <= m <= path.len(),
        0 <= pos,
        walk(name, path, k, pos) is Some,
    ensures
        walk(name, path.take(m), k, pos) matches Some(mid) && pos <= mid && (k < m ==> pos < mid)
            && walk(name, path, m, mid) == walk(name, path, k, pos),
    decreases m - k,
{
    if k < m {
        lemma_step_advances(name, pos, path[k]);
        assert(path.take(m)[k] == path[k]);
        lemma_walk_prefix(name, path, m, k + 1, step_end(name, pos, path[k])->Some_0);
    }
}

/// A leaf that lies at a path or below it lies below every location on the
/// way: below the first `m` steps of the path, for every `m` from one on.
pub proof fn lemma_leads_into_prefix(name: Seq<char>, path: Seq<Step>, m: int)
    requires
        leads_into(name, path),
        0 < m <= path.len(),
    ensures
        leads_into(name, path.take(m)),
{
    lemma_walk_prefix(name, path, m, 0, 0);
    let mid = walk(name, path.take(m), 0, 0)->Some_0;
    if m < path.len() {
        assert(step_end(name, mid, path[m]) is Some);
    }
}

/// One leaf of a claim tree: its name in the artifact, the characters of
/// the name, and whether it is the first leaf of that name.
struct ClaimLeaf {
    name: String,
    chars: Vec<char>,
    first: bool,
}

/// The shape of a claim tree: its leaves in document order, each under the
/// name that spells the path to it from the root. Mappings and sequences are
/// what leaves share the first steps of their paths with. The values of the
/// leaves stay with the artifact, position by position.
pub struct ClaimTree {
    leaves: Vec<ClaimLeaf>,
}

impl View for ClaimTree {
    type V = Seq<Seq<char>>;

    /// The names of the leaves, in order.
    closed spec fn view(&self) -> Seq<Seq<char>> {
        Seq::new(self.leaves@.len(), |i: int| self.leaves@[i].name@)
    }
}

/// Whether `chars` holds the characters of `text` from `start` on.
fn holds_at(chars: &Vec<char>, start: usize, text: &Vec<char>) -> (yes: bool)
    requires
        start <= chars.len(),
    ensures
        yes == (start + text.len() <= chars.len() && chars@.subrange(
            start as int,
            start + text.len(),
        ) == text@),
{
    if chars.len() - start < text.len() {
        return false;
    }
    let mut j: usize = 0;
    while j < text.len()
        invariant
            j <= text.len(),
            start + text.len() <= chars.len(),
            forall|l: int| 0 <= l < j ==> chars@[start + l] == text@[l],
        decreases text.len() - j,
    {
        if chars[start + j] != text[j] {
            assert(chars@.subrange(start as int, start + text.len())[j as int] != text@[j as int]);
            return false;
        }
        j += 1;
    }
    assert(chars@.subrange(start as int, start + text.len()) =~= text@);
    true
}

/// Where `step` ends in the name `chars` in which it starts at `pos`.
fn take_step(chars: &Vec<char>, pos: usize, step: &PathSegment) -> (out: Option<usize>)
    requires
        pos <= chars.len(),
    ensures
        out matches Some(next) ==> step_end(chars@, pos as int, step@) == Some(next as int) && next
            <= chars.len(),
        out is None ==> step_end(chars@, pos as int, step@) is None,
{
    match step {
        PathSegment::Field(field) => {
            let text = chars_of(field.as_str());
            if text.len() == 0 {
                return None;
            }
            let start = if pos == 0 {
                0
            } else {
                if pos >= chars.len() || chars[pos] != '.' {
                    return None;
                }
                pos + 1
            };
            if holds_at(chars, start, &text) {
                Some(start + text.len())
            } else {
                None
            }
        },
        PathSegment::Index(index) => {
            if pos == 0 || pos >= chars.len() || chars[pos] != '[' {
                return None;
            }
            let close = find_char(chars, ']', pos + 1);
            if close >= chars.len() {
                return None;
            }
            match read_index(chars, pos + 1, close) {
                Some(value) => if value == *index {
                    Some(close + 1)
                } else {
                    None
                },
                None => None,
            }
        },
    }
}

/// Whether a leaf of the name `chars` lies at `path` or below it.
fn name_leads_into(chars: &Vec<char>, path: &ClaimPath) -> (yes: bool)
    ensures
        yes == leads_into(chars@, path@),
{
    if path.segments.len() == 0 {
        return false;
    }
    let mut pos: usize = 0;
    let mut k: usize = 0;
    while k < path.segments.len()
        invariant
            k <= path.segments.len(),
            pos <= chars.len(),
            walk(chars@, path@, 0, 0) == walk(chars@, path@, k as int, pos as int),
        decreases path.segments.len() - k,
    {
        assert(path@[k as int] == path.segments@[k as int]@);
        match take_step(chars, pos, &path.segments[k]) {
            Some(next) => {
                pos = next;
            },
            None => {
                return false;
            },
        }
        k += 1;
    }
    pos == chars.len() || chars[pos] == '.' || chars[pos] == '['
}

impl ClaimTree {
    /// Every leaf holds the characters of its name, and the mark of being
    /// the first leaf of that name.
    pub closed spec fn wf(&self) -> bool {
        forall|i: int|
            0 <= i < self.leaves@.len() ==> (#[trigger] self.leaves@[i]).chars@
                == self.leaves@[i].name@ && self.leaves@[i].first == is_first(self@, i)
    }

    /// The tree whose leaves bear these names, in this order.
    pub fn from_names(names: Vec<String>) -> (tree: ClaimTree)
        ensures
            tree.wf(),
            tree@ == names.deep_view(),
    {
        let mut leaves: Vec<ClaimLeaf> = Vec::new();
        let ghost all = names.deep_view();
        let count = names.len();
        let mut i: usize = 0;
        while i < count
            invariant
                i <= count,
                count == names.len(),
                all == names.deep_view(),
                leaves.len() == i,
                forall|j: int| 0 <= j < i ==> (#[trigger] leaves@[j]).name@ == all[j],
                forall|j: int|
                    0 <= j < i ==> (#[trigger] leaves@[j]).chars@ == leaves@[j].name@
                        && leaves@[j].first == is_first(all, j),
            decreases count - i,
        {
            let name = copy_string(&names[i]);
            assert(name@ == all[i as int]);
            let mut repeated = false;
            let mut j: usize = 0;
            while j < i
                invariant
                    j <= i,
                    i < count,
                    all.len() == count,
                    leaves.len() == i,
                    name@ == all[i as int],
                    forall|k: int| 0 <= k < i ==> (#[trigger] leaves@[k]).name@ == all[k],
                    repeated == exists|k: int| 0 <= k < j && all[k] == all[i as int],
                decreases i - j,
            {
                if leaves[j].name == name {
                    repeated = true;
                }
                j += 1;
            }
            let chars = chars_of(name.as_str());
            leaves.push(ClaimLeaf { name, chars, first: !repeated });
            i += 1;
        }
        let tree = ClaimTree { leaves };
        assert(tree@ =~= all);
        tree
    }

    /// The number of leaves.
    pub fn len(&self) -> (n: usize)
        ensures
            n == self@.len(),
    {
        self.leaves.len()
    }

    /// The name of leaf `i`.
    pub fn name(&self, i: usize) -> (name: &String)
        requires
            i < self@.len(),
        ensures
            name@ == self@[i as int],
    {
        &self.leaves[i].name
    }

    /// Whether leaf `i` lies at `path` or below it.
    pub fn leaf_is_under(&self, i: usize, path: &ClaimPath) -> (yes: bool)
        requires
            self.wf(),
            i < self@.len(),
        ensures
            yes == is_under(self@, i as int, path@),
    {
        self.leaves[i].first && name_leads_into(&self.leaves[i].chars, path)
    }

    /// Walks the tree along `path`. Answers with the leaves at or below the
    /// location, in document order, however deep they lie; fails with
    /// `PathNotFound` where the path leads nowhere: where a step names a
    /// field that is absent, or does not fit what it is applied to.
    pub fn locate(&self, path: &ClaimPath) -> (out: Result<Vec<usize>, Error>)
        requires
            self.wf(),
        ensures
            path_exists(self@, path@) ==> (out matches Ok(found) && found@.len() > 0
                && is_location(self@, path@, found@)),
            !path_exists(self@, path@) ==> out == Err::<Vec<usize>, Error>(Error::PathNotFound),
    {
        let mut found: Vec<usize> = Vec::new();
        let mut i: usize = 0;
        while i < self.leaves.len()
            invariant
                self.wf(),
                i <= self.leaves.len(),
                self.leaves.len() == self@.len(),
                forall|k: int|
                    0 <= k < found.len() ==> (#[trigger] found@[k]) < i && is_under(
                        self@,
                        found@[k] as int,
                        path@,
                    ),
                forall|k: int, l: int| 0 <= k < l < found.len() ==> found@[k] < found@[l],
                forall|j: int|
                    0 <= j < i && #[trigger] is_under(self@, j, path@) ==> exists|k: int|
                        0 <= k < found.len() && found@[k] == j,
            decreases self.leaves.len() - i,
        {
            if self.leaf_is_under(i, path) {
                let ghost before = found@;
                found.push(i);
                assert(found@[before.len() as int] == i);
                assert forall|j: int|
                    0 <= j < i + 1 && #[trigger] is_under(self@, j, path@) implies exists|k: int|
                    0 <= k < found.len() && found@[k] == j by {
                    if j < i {
                        let k = choose|k: int| 0 <= k < before.len() && before[k] == j;
                        assert(found@[k] == j);
                    }
                }
            }
            i += 1;
        }
        if found.len() == 0 {
            assert(!path_exists(self@, path@)) by {
                if path_exists(self@, path@) {
                    let j = choose|j: int| 0 <= j < self@.len() && is_under(self@, j, path@);
                    assert(exists|k: int| 0 <= k < found.len() && found@[k] == j);
                }
            }
            Err(Error::PathNotFound)
        } else {
            assert(is_under(self@, found@[0] as int, path@));
            Ok(found)
        }
    }

    /// Parses `path` and walks the tree along it. Succeeds exactly where the
    /// string is a path and the path exists in the tree.
    pub fn resolve(&self, path: &str) -> (out: Result<Vec<usize>, Error>)
        requires
            self.wf(),
        ensures
            match parse_path(path@) {
                None => out == Err::<Vec<usize>, Error>(Error::MalformedPath),
                Some(p) => if path_exists(self@, p) {
                    out matches Ok(found) && found@.len() > 0 && is_location(self@, p, found@)
                } else {
                    out == Err::<Vec<usize>, Error>(Error::PathNotFound)
                },
            },
    {
        match parse(path) {
            Err(_) => Err(Error::MalformedPath),
            Ok(p) => self.locate(&p),
        }
    }
}

} // verus!
