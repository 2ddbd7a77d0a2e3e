//! The line structure of a text body.
//!
//! A body is a sequence of logical lines separated by `'\n'` terminators;
//! a `'\r'` standing immediately before a `'\n'` belongs to the terminator
//! and is stripped as well. A final terminator is optional: the text after
//! the last `'\n'` forms one more line unless it is empty.

use vstd::prelude::*;

verus! {

/// A line as it is returned: the text between two terminators, with a
/// carriage return that preceded the `'\n'` stripped off.
pub open spec fn strip_cr(l: Seq<char>) -> Seq<char> {
    if l.len() > 0 && l.last() == '\r' {
        l.drop_last()
    } else {
        l
    }
}

/// Index of the first `'\n'` in `s`, or `s.len()` if there is none.
pub open spec fn first_newline(s: Seq<char>) -> int
    decreases s.len(),
{
    if s.len() == 0 {
        0
    } else if s[0] == '\n' {
        0
    } else {
        1 + first_newline(s.drop_first())
    }
}

pub proof fn lemma_first_newline(s: Seq<char>)
    ensures
        0 <= first_newline(s) <= s.len(),
        first_newline(s) < s.len() ==> s[first_newline(s)] == '\n',
        forall|j: int| 0 <= j < first_newline(s) ==> s[j] != '\n',
    decreases s.len(),
{
    if s.len() == 0 {
    } else if s[0] == '\n' {
    } else {
        lemma_first_newline(s.drop_first());
        assert forall|j: int| 0 <= j < first_newline(s) implies s[j] != '\n' by {
            if j > 0 {
                assert(s.drop_first()[j - 1] != '\n');
            }
        }
    }
}

/// `first_newline` is pinned down by its characteristic properties.
pub proof fn lemma_first_newline_is(s: Seq<char>, i: int)
    requires
        0 <= i <= s.len(),
        forall|j: int| 0 <= j < i ==> s[j] != '\n',
        i < s.len() ==> s[i] == '\n',
    ensures
        first_newline(s) == i,
    decreases s.len(),
{
    if s.len() == 0 {
    } else if s[0] == '\n' {
        assert(i == 0);
    } else {
        assert(i >= 1) by {
            if i == 0 {
                assert(s[0] == '\n');
            }
        }
        let t = s.drop_first();
        assert forall|j: int| 0 <= j < i - 1 implies t[j] != '\n' by {
            assert(s[j + 1] != '\n');
        }
        assert(i - 1 < t.len() ==> t[i - 1] == '\n');
        lemma_first_newline_is(t, i - 1);
    }
}

/// The logical lines of a body, in order of occurrence, terminators
/// stripped. The text after the last `'\n'` counts as a line only if it
/// is non-empty, so a final terminator adds no empty line.
pub open spec fn lines_of(s: Seq<char>) -> Seq<Seq<char>>
    decreases s.len(),
    via lines_of_decreases
{
    if s.len() == 0 {
        Seq::empty()
    } else {
        let i = first_newline(s);
        if i == s.len() {
            seq![s]
        } else {
            seq![strip_cr(s.take(i))] + lines_of(s.skip(i + 1))
        }
    }
}

#[via_fn]
proof fn lines_of_decreases(s: Seq<char>) {
    lemma_first_newline(s);
}

/// Splits a body into its logical lines. Each returned `&str` borrows
/// directly from `contents`, unmodified.
pub fn split_lines<'a>(contents: &'a str) -> (r: Vec<&'a str>)
    ensures
        r.deep_view() == lines_of(contents@),
{
    let ghost s = contents@;
    let n = contents.unicode_len();
    let mut res: Vec<&'a str> = Vec::new();
    let mut pos: usize = 0;
    proof {
        assert(s.skip(0) =~= s);
        assert(res.deep_view() + lines_of(s) =~= lines_of(s));
    }
    while pos < n
        invariant
            pos <= n,
            n == s.len(),
            s == contents@,
            lines_of(s) == res.deep_view() + lines_of(s.skip(pos as int)),
        decreases n - pos,
    {
        let ghost suffix = s.skip(pos as int);
        let mut j = pos;
        while j < n && contents.get_char(j) != '\n'
            invariant
                pos <= j <= n,
                n == s.len(),
                s == contents@,
                forall|k: int| pos <= k < j ==> s[k] != '\n',
            decreases n - j,
        {
            j += 1;
        }
        proof {
            assert forall|k: int| 0 <= k < j - pos implies suffix[k] != '\n' by {
                assert(s[pos + k] != '\n');
            }
            lemma_first_newline_is(suffix, j - pos);
        }
        let ghost old_res = res.deep_view();
        if j < n {
            let end = if j > pos && contents.get_char(j - 1) == '\r' {
                j - 1
            } else {
                j
            };
            let line = contents.substring_char(pos, end);
            proof {
                assert(suffix.take(j - pos) =~= s.subrange(pos as int, j as int));
                if j > pos && s[j - 1] == '\r' {
                    assert(suffix.take(j - pos).last() == '\r');
                    assert(strip_cr(suffix.take(j - pos)) =~= s.subrange(
                        pos as int,
                        j - 1,
                    ));
                } else {
                    assert(strip_cr(suffix.take(j - pos)) == suffix.take(j - pos));
                }
                assert(line@ == strip_cr(suffix.take(j - pos)));
                assert(suffix.skip(j - pos + 1) =~= s.skip(j + 1));
                assert(lines_of(suffix) == seq![line@] + lines_of(s.skip(j + 1)));
            }
            res.push(line);
            pos = j + 1;
            proof {
                assert(res.deep_view() =~= old_res + seq![line@]);
                assert(old_res + (seq![line@] + lines_of(s.skip(pos as int))) =~= (old_res
                    + seq![line@]) + lines_of(s.skip(pos as int)));
            }
        } else {
            let line = contents.substring_char(pos, n);
            proof {
                assert(line@ =~= suffix);
                assert(lines_of(suffix) == seq![suffix]);
            }
            res.push(line);
            pos = n;
            proof {
                assert(s.skip(n as int) =~= Seq::<char>::empty());
                assert(lines_of(s.skip(pos as int)) == Seq::<Seq<char>>::empty());
                assert(res.deep_view() =~= old_res + seq![line@]);
                assert(old_res + seq![suffix] =~= res.deep_view() + Seq::<Seq<char>>::empty());
            }
        }
    }
    proof {
        assert(s.skip(pos as int) =~= Seq::<char>::empty());
        assert(lines_of(s.skip(pos as int)) == Seq::<Seq<char>>::empty());
        assert(res.deep_view() =~= res.deep_view() + Seq::<Seq<char>>::empty());
    }
    res
}

} // verus!
