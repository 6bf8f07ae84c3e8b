//! Documentation comments for generated code, written with `///` in front of
//! each line.

use vstd::prelude::*;
use vstd::std_specs::iter::IteratorSpec;
use vstd::string::*;

use crate::lines::{lines_of, split_lines, str_views};

verus! {

/// The prefix of each line of a documentation comment.
pub open spec fn doc_prefix() -> Seq<char> {
    seq!['/', '/', '/', ' ']
}

/// The lines joined into one text, separated by `sep`.
pub open spec fn join(lines: Seq<Seq<char>>, sep: Seq<char>) -> Seq<char>
    decreases lines.len(),
{
    if lines.len() == 0 {
        Seq::empty()
    } else if lines.len() == 1 {
        lines[0]
    } else {
        join(lines.drop_last(), sep) + sep + lines.last()
    }
}

/// A documentation comment: its lines, each starting with `/// `.
///
/// Generated code gets documentation written with `///` rather than with
/// `#[doc]` attributes.
#[derive(PartialEq, Debug)]
pub struct DocComment(Vec<String>);

impl View for DocComment {
    type V = Seq<Seq<char>>;

    closed spec fn view(&self) -> Seq<Seq<char>> {
        self.0@.map_values(|l: String| l@)
    }
}

impl DocComment {
    /// Creates a doc comment from the string by inserting `/// ` before each
    /// of its lines.
    pub fn from_string(comment: &str) -> (r: DocComment)
        ensures
            r@ == lines_of(comment@).map_values(|l: Seq<char>| doc_prefix() + l),
    {
        let lines = split_lines(comment);
        let mut out: Vec<String> = Vec::new();
        let mut i: usize = 0;
        proof {
            reveal_strlit("/// ");
        }
        while i < lines.len()
            invariant
                i <= lines@.len(),
                out@.len() == i,
                str_views(lines@) == lines_of(comment@),
                out@.map_values(|l: String| l@) =~= str_views(lines@).take(i as int).map_values(
                    |l: Seq<char>| doc_prefix() + l,
                ),
            decreases lines@.len() - i,
        {
            proof {
                reveal_strlit("/// ");
            }
            let line = String::from_str("/// ").concat(lines[i]);
            assert(line@ == doc_prefix() + str_views(lines@)[i as int]);
            let ghost prev = out@;
            out.push(line);
            i = i + 1;
            let ghost a = out@.map_values(|l: String| l@);
            let ghost b = str_views(lines@).take(i as int).map_values(|l: Seq<char>| doc_prefix() + l);
            let ghost old_a = prev.map_values(|l: String| l@);
            let ghost old_b = str_views(lines@).take(i - 1).map_values(
                |l: Seq<char>| doc_prefix() + l,
            );
            assert forall|k: int| 0 <= k < i implies #[trigger] a[k] == b[k] by {
                if k < i - 1 {
                    assert(a[k] == old_a[k]);
                    assert(old_a[k] == old_b[k]);
                } else {
                    assert(a[k] == line@);
                }
            }
            assert(a =~= b);
        }
        assert(str_views(lines@).take(i as int) =~= str_views(lines@));
        DocComment(out)
    }

    /// Returns an empty doc comment `///`.
    pub fn empty() -> (r: String)
        ensures
            r@ == seq!['/', '/', '/'],
    {
        proof {
            reveal_strlit("///");
        }
        String::from_str("///")
    }

    /// Gets the doc comment as a single string, with the lines separated by
    /// `\n`.
    pub fn as_string(&self) -> (r: String)
        ensures
            r@ == join(self@, seq!['\n']),
    {
        let mut s = String::new();
        let mut i: usize = 0;
        proof {
            reveal_strlit("\n");
        }
        while i < self.0.len()
            invariant
                i <= self.0@.len(),
                s@ == join(self@.take(i as int), seq!['\n']),
            decreases self.0@.len() - i,
        {
            let ghost before = self@.take(i as int);
            proof {
                reveal_strlit("\n");
            }
            if i > 0 {
                s.append("\n");
            }
            s.append(self.0[i].as_str());
            i = i + 1;
            assert(self@.take(i as int).drop_last() =~= before);
            assert(self@.take(i as int).last() == self.0@[i - 1]@);
            assert(i == 1 ==> self@.take(i as int)[0] == self.0@[0]@);
        }
        assert(self@.take(i as int) =~= self@);
        s
    }

    /// Gets an iterator over all the doc comment lines.
    pub fn lines(&self) -> (r: std::slice::Iter<'_, String>)
        ensures
            r.remaining().unref().map_values(|l: String| l@) == self@,
    {
        broadcast use vstd::std_specs::slice::axiom_spec_slice_iter;

        let r = self.0.as_slice().iter();
        assert(r.remaining().unref() =~= self.0@);
        r
    }

    /// The number of lines.
    pub fn number_lines(&self) -> (r: usize)
        ensures
            r == self@.len(),
    {
        self.0.len()
    }
}

} // verus!
