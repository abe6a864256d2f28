//! Character classes and the runs of characters they pick out of a text.

use vstd::prelude::*;

verus! {

/// Whether `c` has the Unicode property White_Space: the controls from tab
/// to carriage return, the space, the next-line control, and the spaces and
/// the line and paragraph separators beyond ASCII.
pub open spec fn white_space(c: char) -> bool {
    ||| '\u{9}' <= c && c <= '\u{d}'
    ||| c == ' '
    ||| c == '\u{85}'
    ||| c == '\u{a0}'
    ||| c == '\u{1680}'
    ||| '\u{2000}' <= c && c <= '\u{200a}'
    ||| c == '\u{2028}'
    ||| c == '\u{2029}'
    ||| c == '\u{202f}'
    ||| c == '\u{205f}'
    ||| c == '\u{3000}'
}

/// `char::is_whitespace` answers with the White_Space property of its
/// argument: it holds of the 25 characters that `white_space` lists and of
/// no other.
pub assume_specification[ char::is_whitespace ](c: char) -> (b: bool)
    ensures
        b == white_space(c),
;

/// The classes of characters that the grammar tells apart.
#[derive(Clone, Copy, Debug, PartialEq, Eq)]
pub enum Class {
    /// Unicode white space, the newline included.
    Space,
    /// The ASCII letters and digits.
    AlphaNumeric,
    /// The characters that close a statement: newline and semicolon.
    Terminator,
}

impl Class {
    /// Membership of `c` in the class.
    pub open spec fn holds(self, c: char) -> bool {
        match self {
            Class::Space => white_space(c),
            Class::AlphaNumeric => ('a' <= c && c <= 'z') || ('A' <= c && c <= 'Z') || ('0' <= c
                && c <= '9'),
            Class::Terminator => c == '\n' || c == ';',
        }
    }

    /// Decides membership of `c` in the class.
    pub fn contains(self, c: char) -> (b: bool)
        ensures
            b == self.holds(c),
    {
        match self {
            Class::Space => c.is_whitespace(),
            Class::AlphaNumeric => ('a' <= c && c <= 'z') || ('A' <= c && c <= 'Z') || ('0' <= c
                && c <= '9'),
            Class::Terminator => c == '\n' || c == ';',
        }
    }
}

/// The number of characters at the start of `s` whose membership in `class`
/// is `inside`: the length of the longest such prefix.
pub open spec fn run(s: Seq<char>, class: Class, inside: bool) -> nat
    decreases s.len(),
{
    if s.len() > 0 && class.holds(s[0]) == inside {
        1 + run(s.drop_first(), class, inside)
    } else {
        0
    }
}

/// `head` followed by `rest` is `whole`, and `head` is the longest prefix of
/// `whole` whose characters all have membership `inside` in `class`.
pub open spec fn splits_run(
    whole: Seq<char>,
    head: Seq<char>,
    rest: Seq<char>,
    class: Class,
    inside: bool,
) -> bool {
    &&& whole == head + rest
    &&& forall|k: int| 0 <= k < head.len() ==> class.holds(#[trigger] head[k]) == inside
    &&& rest.len() > 0 ==> class.holds(rest[0]) != inside
}

/// A run never exceeds the text, covers only characters of the wanted
/// membership, and stops at the first character of the other kind.
pub proof fn lemma_run(s: Seq<char>, class: Class, inside: bool)
    ensures
        run(s, class, inside) <= s.len(),
        forall|k: int| 0 <= k < run(s, class, inside) ==> class.holds(#[trigger] s[k]) == inside,
        run(s, class, inside) < s.len() ==> class.holds(s[run(s, class, inside) as int])
            != inside,
    decreases s.len(),
{
    if s.len() > 0 && class.holds(s[0]) == inside {
        let t = s.drop_first();
        lemma_run(t, class, inside);
        assert forall|k: int| 0 <= k < run(s, class, inside) implies class.holds(#[trigger] s[k])
            == inside by {
            if k > 0 {
                assert(s[k] == t[k - 1]);
            }
        }
    }
}

/// The split that `splits_run` describes is the one at `run`.
pub proof fn lemma_splits_run(
    whole: Seq<char>,
    head: Seq<char>,
    rest: Seq<char>,
    class: Class,
    inside: bool,
)
    requires
        splits_run(whole, head, rest, class, inside),
    ensures
        head.len() == run(whole, class, inside),
        head == whole.take(run(whole, class, inside) as int),
        rest == whole.skip(run(whole, class, inside) as int),
    decreases head.len(),
{
    if head.len() > 0 {
        let t = whole.drop_first();
        let h = head.drop_first();
        assert(t =~= h + rest);
        assert forall|k: int| 0 <= k < h.len() implies class.holds(#[trigger] h[k]) == inside by {
            assert(h[k] == head[k + 1]);
        }
        lemma_splits_run(t, h, rest, class, inside);
    }
}

/// The number of places at which `s` holds `c`.
pub open spec fn count(s: Seq<char>, c: char) -> nat
    decreases s.len(),
{
    if s.len() == 0 {
        0
    } else {
        count(s.drop_last(), c) + if s.last() == c {
            1nat
        } else {
            0nat
        }
    }
}

/// `s` holds `c` nowhere.
pub open spec fn lacks(s: Seq<char>, c: char) -> bool {
    forall|k: int| 0 <= k < s.len() ==> s[k] != c
}

/// Counting in two texts written one after the other adds up.
pub proof fn lemma_count_concat(a: Seq<char>, b: Seq<char>, c: char)
    ensures
        count(a + b, c) == count(a, c) + count(b, c),
    decreases b.len(),
{
    if b.len() == 0 {
    } else {
        assert((a + b).drop_last() =~= a + b.drop_last());
        lemma_count_concat(a, b.drop_last(), c);
    }
}

/// A character that a text lacks is counted zero times in it.
pub proof fn lemma_count_lacks(s: Seq<char>, c: char)
    requires
        lacks(s, c),
    ensures
        count(s, c) == 0,
    decreases s.len(),
{
    if s.len() > 0 {
        lemma_count_lacks(s.drop_last(), c);
    }
}

} // verus!
