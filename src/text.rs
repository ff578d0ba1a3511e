//! The file format of a note list: one entry per line, each line ended by a
//! line feed, and nothing at all for an empty list.

use vstd::prelude::*;
use vstd::string::StringExecFns;

verus! {

/// Relies on `String::push`: the character is appended at the end.
#[verifier::external_body]
pub(crate) fn push_char(s: &mut String, c: char)
    ensures
        final(s)@ == old(s)@.push(c),
{
    s.push(c);
}

/// The character sequences that a sequence of strings holds.
pub open spec fn views(v: Seq<String>) -> Seq<Seq<char>> {
    v.map_values(|l: String| l@)
}

/// Whether `s` holds no line feed.
pub open spec fn single_line(s: Seq<char>) -> bool {
    forall|i: int| 0 <= i < s.len() ==> #[trigger] s[i] != '\n'
}

/// Whether no entry of `lines` holds a line feed.
pub open spec fn all_single_line(lines: Seq<Seq<char>>) -> bool {
    forall|i: int| 0 <= i < lines.len() ==> single_line(#[trigger] lines[i])
}

/// The pieces of `s` between line feeds: one more than it has line feeds.
pub open spec fn split_on_newlines(s: Seq<char>) -> Seq<Seq<char>>
    decreases s.len(),
{
    if s.len() == 0 {
        seq![Seq::empty()]
    } else {
        let init = split_on_newlines(s.drop_last());
        if s.last() == '\n' {
            init.push(Seq::empty())
        } else {
            init.update(init.len() - 1, init.last().push(s.last()))
        }
    }
}

/// The entries that stored text holds: its pieces between line feeds, where
/// a line feed at the very end ends the last entry and starts none.
pub open spec fn lines_of_text(s: Seq<char>) -> Seq<Seq<char>> {
    if s.len() == 0 {
        Seq::empty()
    } else if s.last() == '\n' {
        split_on_newlines(s.drop_last())
    } else {
        split_on_newlines(s)
    }
}

/// The stored text of a list: each entry followed by a line feed.
pub open spec fn text_of_lines(lines: Seq<Seq<char>>) -> Seq<char>
    decreases lines.len(),
{
    if lines.len() == 0 {
        Seq::empty()
    } else {
        text_of_lines(lines.drop_last()) + lines.last() + seq!['\n']
    }
}

proof fn lemma_split_shape(s: Seq<char>)
    ensures
        split_on_newlines(s).len() >= 1,
        all_single_line(split_on_newlines(s)),
    decreases s.len(),
{
    if s.len() > 0 {
        lemma_split_shape(s.drop_last());
        let init = split_on_newlines(s.drop_last());
        if s.last() != '\n' {
            let l = init.last().push(s.last());
            assert(single_line(init.last()));
            assert(single_line(l)) by {
                assert forall|i: int| 0 <= i < l.len() implies #[trigger] l[i] != '\n' by {
                    if i < l.len() - 1 {
                        assert(l[i] == init.last()[i]);
                    }
                }
            }
        }
    }
}

/// Every entry read from stored text is a single line.
pub proof fn lemma_lines_are_single(s: Seq<char>)
    ensures
        all_single_line(lines_of_text(s)),
{
    if s.len() > 0 {
        if s.last() == '\n' {
            lemma_split_shape(s.drop_last());
        } else {
            lemma_split_shape(s);
        }
    }
}

proof fn lemma_split_extend(p: Seq<char>, x: Seq<char>)
    requires
        single_line(x),
    ensures
        split_on_newlines(p + x) == split_on_newlines(p).update(
            split_on_newlines(p).len() - 1,
            split_on_newlines(p).last() + x,
        ),
    decreases x.len(),
{
    lemma_split_shape(p);
    let sp = split_on_newlines(p);
    if x.len() == 0 {
        assert(p + x =~= p);
        assert(sp.last() + x =~= sp.last());
        assert(sp.update(sp.len() - 1, sp.last() + x) =~= sp);
    } else {
        let y = x.drop_last();
        assert(single_line(y)) by {
            assert forall|i: int| 0 <= i < y.len() implies #[trigger] y[i] != '\n' by {
                assert(y[i] == x[i]);
            }
        }
        lemma_split_extend(p, y);
        assert((p + x).drop_last() =~= p + y);
        assert((p + x).last() == x.last());
        assert(x.last() != '\n') by {
            assert(x[x.len() - 1] != '\n');
        }
        lemma_split_shape(p + y);
        assert((sp.last() + y).push(x.last()) =~= sp.last() + x);
        assert(split_on_newlines(p + x) =~= sp.update(sp.len() - 1, sp.last() + x));
    }
}

/// Reading back the text of a list of single-line entries gives that list.
pub proof fn lemma_read_written(lines: Seq<Seq<char>>)
    requires
        all_single_line(lines),
    ensures
        lines_of_text(text_of_lines(lines)) == lines,
    decreases lines.len(),
{
    if lines.len() > 0 {
        let rest = lines.drop_last();
        let last = lines.last();
        assert(all_single_line(rest)) by {
            assert forall|i: int| 0 <= i < rest.len() implies single_line(#[trigger] rest[i]) by {
                assert(rest[i] == lines[i]);
            }
        }
        assert(single_line(last)) by {
            assert(last == lines[lines.len() - 1]);
        }
        let t = text_of_lines(lines);
        let tr = text_of_lines(rest);
        assert(t.drop_last() =~= tr + last);
        assert(t.last() == '\n');
        lemma_split_extend(tr, last);
        if rest.len() == 0 {
            assert(tr =~= Seq::<char>::empty());
            assert(split_on_newlines(tr) =~= seq![Seq::<char>::empty()]);
            assert(Seq::<char>::empty() + last =~= last);
            assert(lines_of_text(t) =~= lines);
        } else {
            lemma_read_written(rest);
            assert(tr.len() > 0);
            assert(tr.last() == '\n');
            assert(split_on_newlines(tr) == split_on_newlines(tr.drop_last()).push(Seq::empty()));
            assert(split_on_newlines(tr) =~= rest.push(Seq::empty()));
            assert(Seq::<char>::empty() + last =~= last);
            assert(lines_of_text(t) =~= lines);
        }
    }
}

/// Writing what was read, and then doing so once more, changes nothing the
/// second time: the stored text settles after one pass.
pub proof fn lemma_rewrite_is_stable(s: Seq<char>)
    ensures
        text_of_lines(lines_of_text(text_of_lines(lines_of_text(s)))) == text_of_lines(
            lines_of_text(s),
        ),
        lines_of_text(text_of_lines(lines_of_text(s))) == lines_of_text(s),
{
    lemma_lines_are_single(s);
    lemma_read_written(lines_of_text(s));
}

/// Reads stored text into its entries: the pieces between line feeds, with
/// no entry after a final line feed.
pub fn split_lines(text: &str) -> (lines: Vec<String>)
    ensures
        views(lines@) == lines_of_text(text@),
{
    let mut lines: Vec<String> = Vec::new();
    let mut current = String::new();
    let ghost mut count: int = 0;
    for c in it: text.chars()
        invariant
            count == it.index(),
            it.seq() == text@,
            split_on_newlines(text@.take(count)) == views(lines@).push(current@),
    {
        let ghost before = text@.take(count);
        assert(text@.take(count + 1).drop_last() =~= before);
        if c == '\n' {
            lines.push(current);
            current = String::new();
            assert(views(lines@) =~= split_on_newlines(before).drop_last().push(
                split_on_newlines(before).last(),
            ));
        } else {
            push_char(&mut current, c);
        }
        proof {
            count = count + 1;
        }
        assert(split_on_newlines(text@.take(count)) =~= views(lines@).push(current@));
    }
    assert(text@.take(count) =~= text@);
    if text.is_empty() {
        return Vec::new();
    }
    if current.as_str().is_empty() {
        assert(text@.last() == '\n') by {
            if text@.last() != '\n' {
                lemma_split_shape(text@.drop_last());
                assert(split_on_newlines(text@).last().len() > 0);
            }
        }
        assert(split_on_newlines(text@) == split_on_newlines(text@.drop_last()).push(Seq::empty()));
        assert(views(lines@) =~= split_on_newlines(text@).drop_last());
        assert(views(lines@) =~= split_on_newlines(text@.drop_last()));
        lines
    } else {
        assert(text@.last() != '\n') by {
            if text@.last() == '\n' {
                assert(split_on_newlines(text@).last() =~= Seq::<char>::empty());
            }
        }
        lines.push(current);
        assert(views(lines@) =~= split_on_newlines(text@));
        lines
    }
}

/// Writes entries as stored text: each one followed by a line feed, so an
/// empty list gives empty text.
pub fn join_lines(lines: &Vec<String>) -> (text: String)
    ensures
        text@ == text_of_lines(views(lines@)),
{
    let mut text = String::new();
    let n = lines.len();
    let mut i: usize = 0;
    while i < n
        invariant
            i <= n,
            n == lines@.len(),
            text@ == text_of_lines(views(lines@.take(i as int))),
        decreases n - i,
    {
        text.append(lines[i].as_str());
        push_char(&mut text, '\n');
        assert(views(lines@.take(i + 1)).drop_last() =~= views(lines@.take(i as int)));
        i = i + 1;
    }
    assert(lines@.take(n as int) =~= lines@);
    text
}

} // verus!
