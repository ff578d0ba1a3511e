//! An ordered list of notes and the three edits on it, addressed by 1-based
//! positions with a default target when no position is given.

use vstd::prelude::*;

use crate::error::NoteError;
use crate::text::{join_lines, lines_of_text, split_lines, text_of_lines, views};

verus! {

/// The list after inserting `value`: at the end when no position is given,
/// else so that it stands at 1-based `index`, anywhere from 1 to one past
/// the end.
pub open spec fn inserted(notes: Seq<Seq<char>>, value: Seq<char>, index: Option<usize>) -> Result<
    Seq<Seq<char>>,
    NoteError,
> {
    if value.len() == 0 {
        Err(NoteError::MissingValue)
    } else {
        match index {
            None => Ok(notes.push(value)),
            Some(i) => if 1 <= i && i <= notes.len() + 1 {
                Ok(notes.insert(i - 1, value))
            } else {
                Err(NoteError::InvalidIndex(i))
            },
        }
    }
}

/// The list after replacing the entry at 1-based `index`, or the last entry
/// when no position is given, by `value`.
pub open spec fn changed(notes: Seq<Seq<char>>, value: Seq<char>, index: Option<usize>) -> Result<
    Seq<Seq<char>>,
    NoteError,
> {
    if value.len() == 0 {
        Err(NoteError::MissingValue)
    } else if notes.len() == 0 {
        Err(NoteError::EmptyList)
    } else {
        match index {
            None => Ok(notes.update(notes.len() - 1, value)),
            Some(i) => if 1 <= i && i <= notes.len() {
                Ok(notes.update(i - 1, value))
            } else {
                Err(NoteError::InvalidIndex(i))
            },
        }
    }
}

/// Whether the 1-based position `pos` is among `indices`.
pub open spec fn marked(indices: Seq<usize>, pos: int) -> bool {
    exists|j: int| 0 <= j < indices.len() && indices[j] as int == pos
}

/// The entries whose 1-based positions are not among `indices`, in their order.
pub open spec fn kept(notes: Seq<Seq<char>>, indices: Seq<usize>) -> Seq<Seq<char>>
    decreases notes.len(),
{
    if notes.len() == 0 {
        Seq::empty()
    } else {
        let rest = kept(notes.drop_last(), indices);
        if marked(indices, notes.len() as int) {
            rest
        } else {
            rest.push(notes.last())
        }
    }
}

/// Whether `i` is no 1-based position of a list of `len` entries.
pub open spec fn out_of_range(i: usize, len: nat) -> bool {
    i == 0 || i > len
}

/// The indices that name no entry of a list of `len` entries, each once, in
/// the order of their first appearance.
pub open spec fn skipped(indices: Seq<usize>, len: nat) -> Seq<usize>
    decreases indices.len(),
{
    if indices.len() == 0 {
        Seq::empty()
    } else {
        let earlier = skipped(indices.drop_last(), len);
        let i = indices.last();
        if out_of_range(i, len) && !earlier.contains(i) {
            earlier.push(i)
        } else {
            earlier
        }
    }
}

/// The list after a delete, with the indices that were skipped: no indices
/// remove the last entry; otherwise every entry whose position is listed goes,
/// and the indices that name no entry are skipped.
pub open spec fn deleted(notes: Seq<Seq<char>>, indices: Seq<usize>) -> Result<
    (Seq<Seq<char>>, Seq<usize>),
    NoteError,
> {
    if indices.len() == 0 {
        if notes.len() == 0 {
            Err(NoteError::EmptyList)
        } else {
            Ok((notes.drop_last(), Seq::empty()))
        }
    } else {
        Ok((kept(notes, indices), skipped(indices, notes.len())))
    }
}

fn contains_index(v: &Vec<usize>, x: usize) -> (r: bool)
    ensures
        r == v@.contains(x),
{
    let n = v.len();
    let mut i: usize = 0;
    while i < n
        invariant
            i <= n,
            n == v@.len(),
            forall|j: int| 0 <= j < i ==> v@[j] != x,
        decreases n - i,
    {
        if v[i] == x {
            return true;
        }
        i = i + 1;
    }
    false
}

/// An ordered list of notes; its view is the text of each entry.
pub struct NoteList {
    lines: Vec<String>,
}

impl View for NoteList {
    type V = Seq<Seq<char>>;

    closed spec fn view(&self) -> Seq<Seq<char>> {
        views(self.lines@)
    }
}

impl NoteList {
    /// A list with no entries.
    pub fn new() -> (r: NoteList)
        ensures
            r@ == Seq::<Seq<char>>::empty(),
    {
        let r = NoteList { lines: Vec::new() };
        assert(r@ =~= Seq::<Seq<char>>::empty());
        r
    }

    /// A list holding the given entries, in order.
    pub fn from_lines(lines: Vec<String>) -> (r: NoteList)
        ensures
            r@ == views(lines@),
    {
        NoteList { lines }
    }

    /// The list that stored text holds.
    pub fn from_text(text: &str) -> (r: NoteList)
        ensures
            r@ == lines_of_text(text@),
    {
        NoteList { lines: split_lines(text) }
    }

    /// The stored text of this list.
    pub fn to_text(&self) -> (r: String)
        ensures
            r@ == text_of_lines(self@),
    {
        join_lines(&self.lines)
    }

    /// The entries, in order.
    pub fn lines(&self) -> (r: &Vec<String>)
        ensures
            views(r@) == self@,
    {
        &self.lines
    }

    /// The number of entries.
    pub fn len(&self) -> (r: usize)
        ensures
            r == self@.len(),
    {
        self.lines.len()
    }

    /// Whether the list has no entries.
    pub fn is_empty(&self) -> (r: bool)
        ensures
            r == (self@.len() == 0),
    {
        self.lines.len() == 0
    }

    /// Inserts `value` at 1-based `index`, or at the end when no position is
    /// given; on an error the list is left as it was.
    pub fn insert(&mut self, value: String, index: Option<usize>) -> (r: Result<(), NoteError>)
        ensures
            match inserted(old(self)@, value@, index) {
                Ok(l) => r is Ok && final(self)@ == l,
                Err(e) => r == Err::<(), NoteError>(e) && final(self)@ == old(self)@,
            },
    {
        if value.as_str().is_empty() {
            return Err(NoteError::MissingValue);
        }
        let ghost v = value@;
        match index {
            None => {
                self.lines.push(value);
                assert(self@ =~= old(self)@.push(v));
                Ok(())
            },
            Some(i) => {
                if i == 0 || i - 1 > self.lines.len() {
                    return Err(NoteError::InvalidIndex(i));
                }
                self.lines.insert(i - 1, value);
                assert(self@ =~= old(self)@.insert(i - 1, v));
                Ok(())
            },
        }
    }

    /// Replaces the entry at 1-based `index`, or the last entry when no
    /// position is given, by `value`; on an error the list is left as it was.
    pub fn change(&mut self, value: String, index: Option<usize>) -> (r: Result<(), NoteError>)
        ensures
            match changed(old(self)@, value@, index) {
                Ok(l) => r is Ok && final(self)@ == l,
                Err(e) => r == Err::<(), NoteError>(e) && final(self)@ == old(self)@,
            },
    {
        if value.as_str().is_empty() {
            return Err(NoteError::MissingValue);
        }
        let n = self.lines.len();
        if n == 0 {
            return Err(NoteError::EmptyList);
        }
        let target = match index {
            None => n - 1,
            Some(i) => {
                if i == 0 || i > n {
                    return Err(NoteError::InvalidIndex(i));
                }
                i - 1
            },
        };
        let ghost v = value@;
        self.lines.set(target, value);
        assert(self@ =~= old(self)@.update(target as int, v));
        Ok(())
    }

    /// Deletes the entries at the given 1-based positions, or the last entry
    /// when none is given, and returns the indices that named no entry and
    /// were skipped; on an error the list is left as it was.
    pub fn delete(&mut self, indices: &Vec<usize>) -> (r: Result<Vec<usize>, NoteError>)
        ensures
            match deleted(old(self)@, indices@) {
                Ok((l, s)) => r is Ok && r->Ok_0@ == s && final(self)@ == l,
                Err(e) => r == Err::<Vec<usize>, NoteError>(e) && final(self)@ == old(self)@,
            },
    {
        let n = self.lines.len();
        if indices.len() == 0 {
            if n == 0 {
                return Err(NoteError::EmptyList);
            }
            self.lines.pop();
            assert(self@ =~= old(self)@.drop_last());
            return Ok(Vec::new());
        }
        let mut rest: Vec<String> = Vec::new();
        let mut k: usize = 0;
        while k < n
            invariant
                k <= n,
                n == self.lines@.len(),
                self@ == old(self)@,
                views(rest@) == kept(self@.take(k as int), indices@),
            decreases n - k,
        {
            let ghost before = self@.take(k as int);
            assert(self@.take(k + 1).drop_last() =~= before);
            assert(self@.take(k + 1).last() == self@[k as int]);
            if !contains_index(indices, k + 1) {
                assert(!marked(indices@, k + 1)) by {
                    if marked(indices@, k + 1) {
                        let j = choose|j: int| 0 <= j < indices@.len() && indices@[j] as int == k + 1;
                        assert(indices@[j] == k + 1);
                    }
                }
                let line = self.lines[k].clone();
                rest.push(line);
                assert(views(rest@) =~= kept(before, indices@).push(self@[k as int]));
            } else {
                assert(marked(indices@, k + 1));
            }
            k = k + 1;
        }
        assert(self@.take(n as int) =~= self@);
        let mut gone: Vec<usize> = Vec::new();
        let m = indices.len();
        let mut j: usize = 0;
        while j < m
            invariant
                j <= m,
                m == indices@.len(),
                n == self@.len(),
                gone@ == skipped(indices@.take(j as int), n as nat),
            decreases m - j,
        {
            assert(indices@.take(j + 1).drop_last() =~= indices@.take(j as int));
            let i = indices[j];
            if (i == 0 || i > n) && !contains_index(&gone, i) {
                gone.push(i);
            }
            j = j + 1;
        }
        assert(indices@.take(m as int) =~= indices@);
        self.lines = rest;
        Ok(gone)
    }
}

/// The 0-based positions of the entries that a delete of `indices` keeps in
/// a list of `len` entries, in increasing order.
pub open spec fn kept_positions(len: nat, indices: Seq<usize>) -> Seq<int>
    decreases len,
{
    if len == 0 {
        Seq::empty()
    } else {
        let rest = kept_positions((len - 1) as nat, indices);
        if marked(indices, len as int) {
            rest
        } else {
            rest.push(len - 1)
        }
    }
}

proof fn lemma_kept_layout(notes: Seq<Seq<char>>, indices: Seq<usize>)
    ensures
        kept(notes, indices).len() == kept_positions(notes.len(), indices).len(),
        forall|j: int|
            0 <= j < kept(notes, indices).len() ==> 0 <= #[trigger] kept_positions(
                notes.len(),
                indices,
            )[j] < notes.len() && kept(notes, indices)[j] == notes[kept_positions(
                notes.len(),
                indices,
            )[j]],
        forall|a: int, b: int|
            0 <= a < b < kept_positions(notes.len(), indices).len() ==> #[trigger] kept_positions(
                notes.len(),
                indices,
            )[a] < #[trigger] kept_positions(notes.len(), indices)[b],
        forall|p: int|
            0 <= p < notes.len() ==> (#[trigger] kept_positions(notes.len(), indices).contains(p)
                <==> !marked(indices, p + 1)),
    decreases notes.len(),
{
    if notes.len() > 0 {
        let n = notes.len();
        let shorter = notes.drop_last();
        lemma_kept_layout(shorter, indices);
        let pos = kept_positions(n, indices);
        let pos0 = kept_positions((n - 1) as nat, indices);
        assert(shorter.len() == n - 1);
        assert forall|p: int| 0 <= p < n implies (#[trigger] pos.contains(p) <==> !marked(
            indices,
            p + 1,
        )) by {
            if p < n - 1 {
                assert(pos0.contains(p) <==> !marked(indices, p + 1));
                if pos0.contains(p) {
                    let j = choose|j: int| 0 <= j < pos0.len() && pos0[j] == p;
                    assert(pos[j] == p);
                }
                if pos.contains(p) {
                    let j = choose|j: int| 0 <= j < pos.len() && pos[j] == p;
                    if j < pos0.len() {
                        assert(pos0[j] == p);
                    }
                }
            } else {
                if !marked(indices, n as int) {
                    assert(pos[pos.len() - 1] == p);
                } else if pos.contains(p) {
                    let j = choose|j: int| 0 <= j < pos.len() && pos[j] == p;
                    assert(pos0[j] < n - 1);
                }
            }
        }
    }
}

proof fn lemma_skipped_members(indices: Seq<usize>, len: nat)
    ensures
        forall|i: usize|
            #[trigger] skipped(indices, len).contains(i) <==> (indices.contains(i) && out_of_range(
                i,
                len,
            )),
        skipped(indices, len).no_duplicates(),
    decreases indices.len(),
{
    if indices.len() > 0 {
        let earlier = indices.drop_last();
        lemma_skipped_members(earlier, len);
        let s0 = skipped(earlier, len);
        let s = skipped(indices, len);
        let last = indices.last();
        assert forall|i: usize| #[trigger] s.contains(i) <==> (indices.contains(i) && out_of_range(
            i,
            len,
        )) by {
            if indices.contains(i) {
                let j = choose|j: int| 0 <= j < indices.len() && indices[j] == i;
                if j < earlier.len() {
                    assert(earlier[j] == i);
                }
            }
            if earlier.contains(i) {
                let j = choose|j: int| 0 <= j < earlier.len() && earlier[j] == i;
                assert(indices[j] == i);
            }
            if s0.contains(i) {
                let j = choose|j: int| 0 <= j < s0.len() && s0[j] == i;
                assert(s[j] == i);
            }
            if s.contains(i) && s != s0 {
                let j = choose|j: int| 0 <= j < s.len() && s[j] == i;
                if j < s0.len() {
                    assert(s0[j] == i);
                }
            }
            if i == last && out_of_range(i, len) && !s0.contains(i) {
                assert(s[s.len() - 1] == i);
            }
            assert(indices[indices.len() - 1] == last);
        }
    }
}

/// An insert without a position appends the value at the end.
pub proof fn lemma_insert_default_appends(notes: Seq<Seq<char>>, value: Seq<char>)
    requires
        value.len() > 0,
    ensures
        inserted(notes, value, None) == Ok::<Seq<Seq<char>>, NoteError>(notes.push(value)),
{
}

/// An insert at a position from 1 to one past the end adds one entry, the
/// value, at that position, and leaves the other entries in their order.
pub proof fn lemma_insert_at_position(notes: Seq<Seq<char>>, value: Seq<char>, i: usize)
    requires
        value.len() > 0,
        1 <= i <= notes.len() + 1,
    ensures
        inserted(notes, value, Some(i)) is Ok,
        inserted(notes, value, Some(i))->Ok_0.len() == notes.len() + 1,
        inserted(notes, value, Some(i))->Ok_0[i - 1] == value,
        inserted(notes, value, Some(i))->Ok_0.remove(i - 1) == notes,
{
    let r = notes.insert(i - 1, value);
    assert(r.remove(i - 1) =~= notes);
}

/// A change without a position on a non-empty list replaces the last entry
/// only and keeps the length.
pub proof fn lemma_change_default_last(notes: Seq<Seq<char>>, value: Seq<char>)
    requires
        value.len() > 0,
        notes.len() > 0,
    ensures
        changed(notes, value, None) is Ok,
        changed(notes, value, None)->Ok_0.len() == notes.len(),
        changed(notes, value, None)->Ok_0.last() == value,
        forall|j: int|
            0 <= j < notes.len() - 1 ==> #[trigger] changed(notes, value, None)->Ok_0[j]
                == notes[j],
{
}

/// A change at a position from 1 to the length replaces that entry only and
/// keeps the length.
pub proof fn lemma_change_at_position(notes: Seq<Seq<char>>, value: Seq<char>, i: usize)
    requires
        value.len() > 0,
        1 <= i <= notes.len(),
    ensures
        changed(notes, value, Some(i)) is Ok,
        changed(notes, value, Some(i))->Ok_0.len() == notes.len(),
        changed(notes, value, Some(i))->Ok_0[i - 1] == value,
        forall|j: int|
            0 <= j < notes.len() && j != i - 1 ==> #[trigger] changed(notes, value, Some(i))->Ok_0[j]
                == notes[j],
{
}

/// A delete without indices removes exactly the last entry of a non-empty
/// list, and fails with `EmptyList` on an empty one.
pub proof fn lemma_delete_default_last(notes: Seq<Seq<char>>)
    ensures
        notes.len() > 0 ==> deleted(notes, Seq::empty()) is Ok && deleted(
            notes,
            Seq::empty(),
        )->Ok_0.0 == notes.take(notes.len() - 1) && deleted(notes, Seq::empty())->Ok_0.1.len()
            == 0,
        notes.len() == 0 ==> deleted(notes, Seq::empty()) == Err::<
            (Seq<Seq<char>>, Seq<usize>),
            NoteError,
        >(NoteError::EmptyList),
{
    assert(notes.drop_last() =~= notes.take(notes.len() - 1));
}

/// A delete of a set of indices keeps exactly the entries whose 1-based
/// positions are not listed, in their original order, and reports each
/// listed index that names no entry once; the indices that do name an
/// entry are applied all the same.
pub proof fn lemma_delete_positions(notes: Seq<Seq<char>>, indices: Seq<usize>)
    requires
        indices.len() > 0,
    ensures
        deleted(notes, indices) is Ok,
        ({
            let (rest, gone) = deleted(notes, indices)->Ok_0;
            let pos = kept_positions(notes.len(), indices);
            &&& rest.len() == pos.len()
            &&& forall|j: int|
                0 <= j < rest.len() ==> 0 <= #[trigger] pos[j] < notes.len() && rest[j]
                    == notes[pos[j]]
            &&& forall|a: int, b: int| 0 <= a < b < pos.len() ==> #[trigger] pos[a] < #[trigger] pos[b]
            &&& forall|p: int|
                0 <= p < notes.len() ==> (#[trigger] pos.contains(p) <==> !marked(indices, p + 1))
            &&& forall|i: usize|
                #[trigger] gone.contains(i) <==> (indices.contains(i) && out_of_range(i, notes.len()))
            &&& gone.no_duplicates()
        }),
{
    lemma_kept_layout(notes, indices);
    lemma_skipped_members(indices, notes.len());
}

} // verus!
