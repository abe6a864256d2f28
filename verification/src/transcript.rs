//! What is written down for each statement, and for a whole document.

use crate::chars::{count, lacks, lemma_count_concat, lemma_count_lacks, lemma_run, run, Class};
use crate::grammar::{
    classify, lemma_category_parts, lemma_classify_consumes, lemma_rule_parts, trim_start,
    LineView,
};
use crate::scan::diagnostic;
use vstd::prelude::*;

verus! {

/// The parts of `s` that white space separates, in order. A run of white
/// space separates once, and white space at either end separates nothing.
pub open spec fn tokens(s: Seq<char>) -> Seq<Seq<char>>
    decreases s.len(),
    via tokens_decreases
{
    let t = trim_start(s);
    let n = run(t, Class::Space, false) as int;
    if n == 0 {
        Seq::empty()
    } else {
        seq![t.take(n)] + tokens(t.skip(n))
    }
}

#[via_fn]
proof fn tokens_decreases(s: Seq<char>) {
    lemma_run(s, Class::Space, true);
    lemma_run(trim_start(s), Class::Space, false);
}

/// The texts of `parts` in order, with `sep` between each two.
pub open spec fn joined(parts: Seq<Seq<char>>, sep: Seq<char>) -> Seq<char>
    decreases parts.len(),
{
    if parts.len() == 0 {
        Seq::empty()
    } else if parts.len() == 1 {
        parts[0]
    } else {
        joined(parts.drop_last(), sep) + sep + parts.last()
    }
}

impl LineView {
    /// The heading under which the line is written down: for an
    /// unrecognized line, the description of what was missing.
    pub open spec fn label(self) -> Seq<char> {
        match self {
            LineView::Category(category) => "Name: "@ + category.name + " - Items:"@,
            LineView::Rule(rule) => "Pattern: "@ + rule.pattern,
            LineView::Unrecognized(mismatch) => diagnostic(mismatch.at, mismatch.expected),
        }
    }

    /// What is written behind the heading: the items of a category, the
    /// substitution and context of a rule, nothing for an unrecognized line.
    pub open spec fn fields(self) -> Seq<Seq<char>> {
        match self {
            LineView::Category(category) => tokens(category.items),
            LineView::Rule(rule) => seq![
                "- Substitute:"@,
                rule.substitution,
                "- Context:"@,
                rule.context,
            ],
            LineView::Unrecognized(_) => Seq::empty(),
        }
    }
}

/// One entry of a transcript: a line break, the heading, a space, and the
/// fields with single spaces between them.
pub open spec fn entry(label: Seq<char>, fields: Seq<Seq<char>>) -> Seq<char> {
    "\n"@ + label + " "@ + joined(fields, " "@)
}

/// The transcript of a document: the entry of its first statement, then the
/// transcript of what that statement leaves, as long as it leaves anything.
/// Nothing follows the entry of an unrecognized line.
pub open spec fn transcript(s: Seq<char>) -> Seq<char>
    decreases s.len(),
    via transcript_decreases
{
    let line = classify(s);
    if line.remainder().len() > 0 {
        entry(line.label(), line.fields()) + transcript(line.remainder())
    } else {
        entry(line.label(), line.fields())
    }
}

#[via_fn]
proof fn transcript_decreases(s: Seq<char>) {
    lemma_classify_consumes(s);
}

/// The statements of a document, in the order of the text: the first one,
/// then those of what it leaves, as long as it leaves anything.
pub open spec fn statements(s: Seq<char>) -> Seq<LineView>
    decreases s.len(),
    via statements_decreases
{
    let line = classify(s);
    if line.remainder().len() > 0 {
        seq![line] + statements(line.remainder())
    } else {
        seq![line]
    }
}

#[via_fn]
proof fn statements_decreases(s: Seq<char>) {
    lemma_classify_consumes(s);
}

/// Every line of the document is a statement.
pub open spec fn fully_parses(s: Seq<char>) -> bool {
    forall|k: int| 0 <= k < statements(s).len() ==> !(#[trigger] statements(s)[k] is Unrecognized)
}

/// The entries of `lines`, written one after another.
pub open spec fn entries(lines: Seq<LineView>) -> Seq<char>
    decreases lines.len(),
{
    if lines.len() == 0 {
        Seq::empty()
    } else {
        entry(lines[0].label(), lines[0].fields()) + entries(lines.drop_first())
    }
}

/// `t` is not empty, holds no white space, and each of its characters is one
/// of `s`.
pub open spec fn is_item_of(t: Seq<char>, s: Seq<char>) -> bool {
    &&& t.len() > 0
    &&& forall|k: int| 0 <= k < t.len() ==> !Class::Space.holds(#[trigger] t[k]) && s.contains(t[k])
}

/// Splitting at white space never gives an empty item, nor one that holds
/// white space, nor a character that the text did not hold.
pub proof fn lemma_tokens(s: Seq<char>)
    ensures
        forall|i: int| 0 <= i < tokens(s).len() ==> is_item_of(#[trigger] tokens(s)[i], s),
    decreases s.len(),
{
    let w = run(s, Class::Space, true) as int;
    let t = trim_start(s);
    let n = run(t, Class::Space, false) as int;
    lemma_run(s, Class::Space, true);
    lemma_run(t, Class::Space, false);
    if n > 0 {
        let rest = t.skip(n);
        lemma_tokens(rest);
        assert forall|i: int| 0 <= i < tokens(s).len() implies is_item_of(
            #[trigger] tokens(s)[i],
            s,
        ) by {
            let item = tokens(s)[i];
            if i > 0 {
                assert(item == tokens(rest)[i - 1]);
                assert forall|k: int| 0 <= k < item.len() implies s.contains(
                    #[trigger] item[k],
                ) by {
                    let j = choose|j: int| 0 <= j < rest.len() && rest[j] == item[k];
                    assert(item[k] == s[w + n + j]);
                }
            } else {
                assert forall|k: int| 0 <= k < item.len() implies s.contains(
                    #[trigger] item[k],
                ) by {
                    assert(item[k] == s[w + k]);
                }
            }
        }
    }
}

/// In a category statement the name is not empty and holds nothing but
/// letters and digits, so neither white space nor a colon nor a terminator,
/// and no item is empty or holds white space or a terminator.
pub proof fn lemma_category_items(s: Seq<char>, i: int)
    requires
        classify(s) is Category,
        0 <= i < classify(s).fields().len(),
    ensures
        classify(s)->Category_0.name.len() > 0,
        forall|k: int|
            0 <= k < classify(s)->Category_0.name.len() ==> {
                let c = #[trigger] classify(s)->Category_0.name[k];
                Class::AlphaNumeric.holds(c) && !Class::Space.holds(c) && !Class::Terminator.holds(
                    c,
                ) && c != ':'
            },
        classify(s).fields()[i].len() > 0,
        forall|k: int|
            0 <= k < classify(s).fields()[i].len() ==> {
                let c = #[trigger] classify(s).fields()[i][k];
                !Class::Space.holds(c) && !Class::Terminator.holds(c)
            },
{
    lemma_category_parts(s);
    let category = classify(s)->Category_0;
    lemma_tokens(category.items);
    let item = tokens(category.items)[i];
    assert forall|k: int| 0 <= k < item.len() implies !Class::Terminator.holds(
        #[trigger] item[k],
    ) by {
        assert(category.items.contains(item[k]));
    }
}

/// A transcript is the entries of the document's statements, in their order.
pub proof fn lemma_transcript_entries(s: Seq<char>)
    ensures
        transcript(s) == entries(statements(s)),
    decreases s.len(),
{
    let line = classify(s);
    let first = entry(line.label(), line.fields());
    if line.remainder().len() > 0 {
        lemma_classify_consumes(s);
        lemma_transcript_entries(line.remainder());
        assert(statements(s).drop_first() =~= statements(line.remainder()));
    } else {
        assert(statements(s).drop_first() =~= Seq::<LineView>::empty());
        assert(first + entries(Seq::<LineView>::empty()) =~= first);
    }
}

/// Only the last line of a document can be unrecognized: nothing is read
/// behind such a line.
pub proof fn lemma_unrecognized_is_last(s: Seq<char>, k: int)
    requires
        0 <= k < statements(s).len(),
        statements(s)[k] is Unrecognized,
    ensures
        k == statements(s).len() - 1,
    decreases s.len(),
{
    let line = classify(s);
    if line.remainder().len() > 0 {
        lemma_classify_consumes(s);
        lemma_unrecognized_is_last(line.remainder(), k - 1);
    }
}

/// Where the first line of a document is unrecognized, the transcript is the
/// one entry that describes it, whatever the text holds behind that line.
pub proof fn lemma_stops_at_unrecognized(s: Seq<char>)
    requires
        classify(s) is Unrecognized,
    ensures
        statements(s) == seq![classify(s)],
        transcript(s) == "\n"@ + diagnostic(
            classify(s)->Unrecognized_0.at,
            classify(s)->Unrecognized_0.expected,
        ) + " "@,
{
    assert(transcript(s) =~= "\n"@ + diagnostic(
        classify(s)->Unrecognized_0.at,
        classify(s)->Unrecognized_0.expected,
    ) + " "@);
}

/// Joining texts that lack a character with a separator that lacks it gives
/// a text that lacks it.
pub proof fn lemma_joined_lacks(parts: Seq<Seq<char>>, sep: Seq<char>, c: char)
    requires
        forall|i: int| 0 <= i < parts.len() ==> lacks(#[trigger] parts[i], c),
        lacks(sep, c),
    ensures
        lacks(joined(parts, sep), c),
    decreases parts.len(),
{
    if parts.len() > 1 {
        let front = parts.drop_last();
        assert forall|i: int| 0 <= i < front.len() implies lacks(#[trigger] front[i], c) by {
            assert(front[i] == parts[i]);
        }
        lemma_joined_lacks(front, sep, c);
    }
}

/// The entry of a statement holds one line break: the one it starts with.
pub proof fn lemma_entry_line_break(s: Seq<char>)
    requires
        !(classify(s) is Unrecognized),
    ensures
        count(entry(classify(s).label(), classify(s).fields()), '\n') == 1,
{
    reveal_strlit("\n");
    reveal_strlit(" ");
    reveal_strlit("Name: ");
    reveal_strlit(" - Items:");
    reveal_strlit("Pattern: ");
    reveal_strlit("- Substitute:");
    reveal_strlit("- Context:");
    let line = classify(s);
    let label = line.label();
    let fields = line.fields();
    match line {
        LineView::Category(category) => {
            lemma_category_parts(s);
            lemma_tokens(category.items);
            assert forall|i: int| 0 <= i < fields.len() implies lacks(
                #[trigger] fields[i],
                '\n',
            ) by {
                let item = fields[i];
                assert forall|k: int| 0 <= k < item.len() implies item[k] != '\n' by {
                    assert(category.items.contains(item[k]));
                }
            }
        },
        LineView::Rule(_) => {
            lemma_rule_parts(s);
        },
        LineView::Unrecognized(_) => {},
    }
    lemma_joined_lacks(fields, " "@, '\n');
    let list = joined(fields, " "@);
    let tail = label + " "@ + list;
    lemma_count_lacks(tail, '\n');
    assert(entry(label, fields) =~= "\n"@ + tail);
    lemma_count_concat("\n"@, tail, '\n');
    assert(count("\n"@, '\n') == 1) by {
        assert(count("\n"@.drop_last(), '\n') == 0);
    }
}

/// Where every line of a document is a statement, its transcript holds as
/// many line breaks, and so as many lines, as the document holds statements.
pub proof fn lemma_line_per_statement(s: Seq<char>)
    requires
        fully_parses(s),
    ensures
        count(transcript(s), '\n') == statements(s).len(),
    decreases s.len(),
{
    let line = classify(s);
    assert(statements(s)[0] == line);
    lemma_entry_line_break(s);
    if line.remainder().len() > 0 {
        let rest = line.remainder();
        lemma_classify_consumes(s);
        assert forall|k: int| 0 <= k < statements(rest).len() implies !(
        #[trigger] statements(rest)[k] is Unrecognized) by {
            assert(statements(rest)[k] == statements(s)[k + 1]);
        }
        lemma_line_per_statement(rest);
        lemma_count_concat(entry(line.label(), line.fields()), transcript(rest), '\n');
    }
}

} // verus!
