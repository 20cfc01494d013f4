//! Subroutine numbering: the table of subroutines that the lexer declares as
//! it goes, and the scan of a source file's label lines that resolves calls
//! to subroutines declared further down.

use vstd::prelude::*;
use crate::text::{chars_of, string_of, strip_trailing, trim, trim_bounds};

verus! {

/// The position of the first occurrence of `name` in `names`.
pub open spec fn position_of(names: Seq<Seq<char>>, name: Seq<char>) -> Option<int>
    decreases names.len(),
{
    if names.len() == 0 {
        None
    } else {
        match position_of(names.drop_last(), name) {
            Some(i) => Some(i),
            None => if names.last() == name {
                Some(names.len() - 1)
            } else {
                None
            },
        }
    }
}

/// The number a table gives a subroutine: one more than its position.
pub open spec fn id_in(names: Seq<Seq<char>>, name: Seq<char>) -> Option<int> {
    match position_of(names, name) {
        Some(i) => Some(i + 1),
        None => None,
    }
}

/// No name occurs twice.
pub open spec fn distinct_names(names: Seq<Seq<char>>) -> bool {
    forall|i: int, j: int| 0 <= i < j < names.len() ==> names[i] != names[j]
}

/// The subroutines declared so far, in the order of their declaration. The
/// subroutine at position `i` has the number `i + 1`.
pub struct SubroutineTable {
    names: Vec<String>,
}

impl View for SubroutineTable {
    type V = Seq<Seq<char>>;

    closed spec fn view(&self) -> Seq<Seq<char>> {
        self.names@.map_values(|s: String| s@)
    }
}

impl SubroutineTable {
    /// The table's invariant: no name twice, and every number fits in a `u32`.
    pub open spec fn wf(&self) -> bool {
        &&& distinct_names(self@)
        &&& self@.len() < u32::MAX
    }

    /// An empty table: the next subroutine declared gets the number 1.
    pub fn new() -> (t: Self)
        ensures
            t@ == Seq::<Seq<char>>::empty(),
            t.wf(),
    {
        let t = SubroutineTable { names: Vec::new() };
        assert(t@ =~= Seq::<Seq<char>>::empty());
        t
    }

    /// The number of subroutines declared.
    pub fn len(&self) -> (n: usize)
        ensures
            n == self@.len(),
    {
        self.names.len()
    }

    /// The name of the subroutine at position `i` (numbered `i + 1`).
    pub fn name_at(&self, i: usize) -> (s: &String)
        requires
            i < self@.len(),
        ensures
            s@ == self@[i as int],
    {
        &self.names[i]
    }

    /// The position of `name` in the table, if it is there.
    pub fn position(&self, name: &String) -> (r: Option<usize>)
        ensures
            r matches Some(i) ==> position_of(self@, name@) == Some(i as int),
            r is None ==> position_of(self@, name@) is None,
    {
        let mut k: usize = 0;
        while k < self.names.len()
            invariant
                k <= self.names@.len(),
                position_of(self@.take(k as int), name@) is None,
            decreases self.names@.len() - k,
        {
            assert(self@.take(k + 1).drop_last() =~= self@.take(k as int));
            if self.names[k] == *name {
                proof {
                    lemma_position_prefix(self@, name@, k + 1);
                }
                return Some(k);
            }
            k = k + 1;
        }
        assert(self@.take(k as int) =~= self@);
        None
    }

    /// The number of `name`, if it has been declared.
    pub fn id_of(&self, name: &String) -> (r: Option<u32>)
        requires
            self.wf(),
        ensures
            r matches Some(n) ==> id_in(self@, name@) == Some(n as int),
            r is None ==> id_in(self@, name@) is None,
    {
        proof {
            lemma_position_bound(self@, name@);
        }
        match self.position(name) {
            Some(i) => Some((i + 1) as u32),
            None => None,
        }
    }

    /// Declares `name`, which must be new: it gets the next number.
    pub(crate) fn declare(&mut self, name: String)
        requires
            old(self).wf(),
            position_of(old(self)@, name@) is None,
            old(self)@.len() + 1 < u32::MAX,
        ensures
            final(self)@ == old(self)@.push(name@),
            final(self).wf(),
    {
        let ghost old_view = self@;
        proof {
            lemma_absent_not_contained(old_view, name@);
        }
        self.names.push(name);
        assert(self@ =~= old_view.push(name@));
    }
}

/// `position_of` finds the first `i` with `names[i] == name`.
pub proof fn lemma_position_bound(names: Seq<Seq<char>>, name: Seq<char>)
    ensures
        position_of(names, name) matches Some(i) ==> 0 <= i < names.len() && names[i] == name,
        position_of(names, name) is None ==> !names.contains(name),
    decreases names.len(),
{
    if names.len() > 0 {
        lemma_position_bound(names.drop_last(), name);
        if position_of(names.drop_last(), name) is None && names.last() != name {
            assert forall|k: int| 0 <= k < names.len() implies names[k] != name by {
                if k < names.len() - 1 {
                    assert(names.drop_last()[k] == names[k]);
                }
            }
        }
    }
}

/// Subroutine numbers are positions plus one: in a table without repeated
/// names, the subroutine at position `k` has the number `k + 1`, and every
/// number the table gives lies in `1..=len` and belongs to the name at that place.
pub proof fn lemma_numbers_are_positions(names: Seq<Seq<char>>)
    requires
        distinct_names(names),
    ensures
        forall|k: int| 0 <= k < names.len() ==> #[trigger] id_in(names, names[k]) == Some(k + 1),
        forall|n: Seq<char>|
            #[trigger] id_in(names, n) matches Some(v) ==> 1 <= v <= names.len() && names[v - 1] == n,
{
    assert forall|k: int| 0 <= k < names.len() implies #[trigger] id_in(names, names[k]) == Some(
        k + 1,
    ) by {
        lemma_position_bound(names, names[k]);
        assert(names.contains(names[k]));
    }
    assert forall|n: Seq<char>| #[trigger] id_in(names, n) is Some implies 1 <= id_in(names, n)->0
        <= names.len() && names[id_in(names, n)->0 - 1] == n by {
        lemma_position_bound(names, n);
    }
}

/// A name that `position_of` does not find is not in the sequence.
proof fn lemma_absent_not_contained(names: Seq<Seq<char>>, name: Seq<char>)
    requires
        position_of(names, name) is None,
    ensures
        forall|k: int| 0 <= k < names.len() ==> names[k] != name,
{
    lemma_position_bound(names, name);
    assert forall|k: int| 0 <= k < names.len() implies names[k] != name by {
        if names[k] == name {
            assert(names.contains(name));
        }
    }
}

/// Finding `name` at the end of a prefix where it was absent before.
proof fn lemma_position_prefix(names: Seq<Seq<char>>, name: Seq<char>, k: int)
    requires
        0 < k <= names.len(),
        position_of(names.take(k - 1), name) is None,
        names[k - 1] == name,
    ensures
        position_of(names, name) == Some(k - 1),
    decreases names.len(),
{
    if k == names.len() {
        assert(names.drop_last() =~= names.take(k - 1));
    } else {
        assert(names.drop_last().take(k - 1) =~= names.take(k - 1));
        lemma_position_prefix(names.drop_last(), name, k);
    }
}

// ---------------------------------------------------------------------------
// Label lines of a source file.
// ---------------------------------------------------------------------------

/// The part of a line before its first `;` (the whole line when it has none).
pub open spec fn before_comment(line: Seq<char>) -> Seq<char>
    decreases line.len(),
{
    if line.len() == 0 {
        line
    } else if line[0] == ';' {
        Seq::<char>::empty()
    } else {
        seq![line[0]] + before_comment(line.drop_first())
    }
}

/// The label a source line declares: the text before its comment, when it
/// ends with `:`, with every trailing `:` and the surrounding whitespace removed.
pub open spec fn label_of_line(line: Seq<char>) -> Option<Seq<char>> {
    let code = before_comment(line);
    if code.len() > 0 && code.last() == ':' {
        Some(trim(strip_trailing(code, ':')))
    } else {
        None
    }
}

/// The number of label lines in `lines[i..]`.
pub open spec fn labels_from(lines: Seq<Seq<char>>, i: int) -> nat
    decreases lines.len() - i,
{
    if i < 0 || i >= lines.len() {
        0
    } else {
        (if label_of_line(lines[i]) is Some {
            1nat
        } else {
            0nat
        }) + labels_from(lines, i + 1)
    }
}

/// The number of label lines in a source file.
pub open spec fn label_count(lines: Seq<Seq<char>>) -> nat {
    labels_from(lines, 0)
}

/// The number that the scan of `lines[i..]` gives `name`: label lines are
/// numbered from `counter` on, and a later line with the same label replaces
/// an earlier one's number.
pub open spec fn scan_from(
    lines: Seq<Seq<char>>,
    name: Seq<char>,
    i: int,
    counter: int,
    found: Option<int>,
) -> Option<int>
    decreases lines.len() - i,
{
    if i < 0 || i >= lines.len() {
        found
    } else {
        match label_of_line(lines[i]) {
            Some(l) => scan_from(
                lines,
                name,
                i + 1,
                counter + 1,
                if l == name {
                    Some(counter)
                } else {
                    found
                },
            ),
            None => scan_from(lines, name, i + 1, counter, found),
        }
    }
}

/// The number the label lines of a source file give `name`: the number of
/// the last label line that declares it, label lines counted from 1.
pub open spec fn hoisted_id(lines: Seq<Seq<char>>, name: Seq<char>) -> Option<int> {
    scan_from(lines, name, 0, 1, None)
}

/// The views of a sequence of strings.
pub open spec fn lines_view(v: Seq<String>) -> Seq<Seq<char>> {
    v.map_values(|s: String| s@)
}

/// The label a source line declares, if any.
pub fn label_of(line: &String) -> (r: Option<String>)
    ensures
        r matches Some(s) ==> label_of_line(line@) == Some(s@),
        r is None ==> label_of_line(line@) is None,
{
    let v = chars_of(line.as_str());
    let mut k: usize = 0;
    assert(v@.subrange(0, 0) =~= Seq::<char>::empty());
    assert(v@.subrange(0, v@.len() as int) =~= v@);
    while k < v.len() && v[k] != ';'
        invariant
            k <= v@.len(),
            before_comment(v@) == v@.subrange(0, k as int) + before_comment(
                v@.subrange(k as int, v@.len() as int),
            ),
        decreases v@.len() - k,
    {
        let ghost rest = v@.subrange(k as int, v@.len() as int);
        assert(rest.drop_first() =~= v@.subrange(k + 1, v@.len() as int));
        assert(v@.subrange(0, k + 1) =~= v@.subrange(0, k as int) + seq![v@[k as int]]);
        k = k + 1;
    }
    assert(before_comment(v@) =~= v@.subrange(0, k as int)) by {
        if k < v.len() {
            assert(v@.subrange(k as int, v@.len() as int)[0] == ';');
        } else {
            assert(v@.subrange(k as int, v@.len() as int) =~= Seq::<char>::empty());
        }
    }
    if k == 0 || v[k - 1] != ':' {
        return None;
    }
    let mut e = k;
    while e > 0 && v[e - 1] == ':'
        invariant
            e <= k <= v@.len(),
            strip_trailing(v@.subrange(0, k as int), ':') == strip_trailing(
                v@.subrange(0, e as int),
                ':',
            ),
        decreases e,
    {
        assert(v@.subrange(0, e as int).drop_last() =~= v@.subrange(0, e - 1));
        e = e - 1;
    }
    let (a, b) = trim_bounds(&v, 0, e);
    Some(string_of(&v, a, b))
}

/// The number of label lines in a source file.
pub fn count_labels(lines: &Vec<String>) -> (n: usize)
    ensures
        n == label_count(lines_view(lines@)),
{
    let ghost lv = lines_view(lines@);
    let len = lines.len();
    let mut i = len;
    let mut n: usize = 0;
    while i > 0
        invariant
            len == lines@.len(),
            i <= lines@.len(),
            lv == lines_view(lines@),
            n == labels_from(lv, i as int),
            n <= lines@.len() - i,
        decreases i,
    {
        i = i - 1;
        let l = label_of(&lines[i]);
        if l.is_some() {
            n = n + 1;
        }
    }
    n
}

/// The number the label lines of `lines` give `name`, as a 16-bit value.
pub fn hoisted_lookup(lines: &Vec<String>, name: &String) -> (r: Option<i16>)
    requires
        label_count(lines_view(lines@)) < 32767,
    ensures
        r matches Some(v) ==> hoisted_id(lines_view(lines@), name@) == Some(v as int),
        r is None ==> hoisted_id(lines_view(lines@), name@) is None,
{
    let ghost lv = lines_view(lines@);
    let mut i: usize = 0;
    let mut counter: i16 = 1;
    let mut found: Option<i16> = None;
    while i < lines.len()
        invariant
            i <= lines@.len(),
            lv == lines_view(lines@),
            labels_from(lv, 0) < 32767,
            counter as int == 1 + labels_from(lv, 0) - labels_from(lv, i as int),
            hoisted_id(lv, name@) == scan_from(
                lv,
                name@,
                i as int,
                counter as int,
                match found {
                    Some(v) => Some(v as int),
                    None => None,
                },
            ),
        decreases lines@.len() - i,
    {
        proof {
            lemma_labels_from_bound(lv, i as int);
        }
        match label_of(&lines[i]) {
            Some(l) => {
                if l == *name {
                    found = Some(counter);
                }
                counter = counter + 1;
            },
            None => {},
        }
        i = i + 1;
    }
    found
}

/// `labels_from` decreases along the lines.
proof fn lemma_labels_from_bound(lines: Seq<Seq<char>>, i: int)
    requires
        0 <= i,
    ensures
        labels_from(lines, i) <= labels_from(lines, 0),
    decreases i,
{
    if i > 0 {
        lemma_labels_from_bound(lines, i - 1);
    }
}

} // verus!
