//! The statements of the language, as functions on sequences of characters.
//!
//! Nothing here runs: these functions say which texts are statements and
//! what they hold, and the parsers of the crate are proved against them.

use crate::chars::{count, lemma_count_concat, lemma_count_lacks, lemma_run, run, Class};
use crate::scan::Expected;
use vstd::prelude::*;

verus! {

/// A category statement: a name bound to a list of items, not yet split.
pub struct CategoryView {
    pub name: Seq<char>,
    pub items: Seq<char>,
    pub remainder: Seq<char>,
}

/// A rule statement: a pattern, what replaces it, and the environment in
/// which it does. `context` is empty where the statement names none.
pub struct RuleView {
    pub pattern: Seq<char>,
    pub substitution: Seq<char>,
    pub context: Seq<char>,
    pub remainder: Seq<char>,
}

/// A context clause: the environment it names, anchor included.
pub struct ContextView {
    pub environment: Seq<char>,
    pub remainder: Seq<char>,
}

/// Where a text stopped being a rule statement, and what was missing there.
pub struct MismatchView {
    pub at: Seq<char>,
    pub expected: Expected,
}

/// `s` without the white space it starts with.
pub open spec fn trim_start(s: Seq<char>) -> Seq<char> {
    s.skip(run(s, Class::Space, true) as int)
}

/// What follows the end of a statement that is due at the start of `s`:
/// nothing where `s` is empty, the text behind the terminator where `s`
/// starts with one. `None` where `s` starts with anything else.
pub open spec fn line_end(s: Seq<char>) -> Option<Seq<char>> {
    if s.len() == 0 {
        Some(s)
    } else if Class::Terminator.holds(s[0]) {
        Some(s.skip(1))
    } else {
        None
    }
}

/// Reads `s` as a category statement: white space, a name of letters and
/// digits, `::`, and the items up to the first terminator or the end of `s`,
/// with white space allowed around the `::`.
pub open spec fn category_line(s: Seq<char>) -> Option<CategoryView> {
    let a = trim_start(s);
    let n = run(a, Class::AlphaNumeric, true) as int;
    let b = trim_start(a.skip(n));
    if n > 0 && 2 <= b.len() && b[0] == ':' && b[1] == ':' {
        let c = trim_start(b.skip(2));
        let k = run(c, Class::Terminator, false) as int;
        Some(
            CategoryView {
                name: a.take(n),
                items: c.take(k),
                remainder: if k < c.len() {
                    c.skip(k + 1)
                } else {
                    c.skip(k)
                },
            },
        )
    } else {
        None
    }
}

/// Reads `s` as a context clause: `/`, then an environment made of letters
/// and digits, the anchor `_`, and letters and digits again, then the end of
/// the statement. Gives the environment and what follows the statement.
pub open spec fn context_clause(s: Seq<char>) -> Option<ContextView> {
    if s.len() > 0 && s[0] == '/' {
        let a = trim_start(s.skip(1));
        let n = run(a, Class::AlphaNumeric, true) as int;
        if n < a.len() && a[n] == '_' {
            let m = run(a.skip(n + 1), Class::AlphaNumeric, true) as int;
            match line_end(trim_start(a.skip(n + 1 + m))) {
                Some(rest) => Some(
                    ContextView { environment: a.take(n + 1 + m), remainder: rest },
                ),
                None => None,
            }
        } else {
            None
        }
    } else {
        None
    }
}

/// Reads `s` as a rule statement: a pattern of letters and digits, one of the
/// operators `>` and `/`, a substitution of letters and digits that may be
/// empty, then a context clause or the bare end of the statement, with white
/// space allowed between them.
pub open spec fn rule_line(s: Seq<char>) -> Result<RuleView, MismatchView> {
    let a = trim_start(s);
    let n = run(a, Class::AlphaNumeric, true) as int;
    let b = trim_start(a.skip(n));
    if n == 0 {
        Err(MismatchView { at: a, expected: Expected::AlphaNumeric })
    } else if !(b.len() > 0 && (b[0] == '>' || b[0] == '/')) {
        Err(MismatchView { at: b, expected: Expected::Tag })
    } else {
        let c = trim_start(b.skip(1));
        let m = run(c, Class::AlphaNumeric, true) as int;
        let d = trim_start(c.skip(m));
        match context_clause(d) {
            Some(clause) => Ok(
                RuleView {
                    pattern: a.take(n),
                    substitution: c.take(m),
                    context: clause.environment,
                    remainder: clause.remainder,
                },
            ),
            None => match line_end(d) {
                Some(rest) => Ok(
                    RuleView {
                        pattern: a.take(n),
                        substitution: c.take(m),
                        context: Seq::empty(),
                        remainder: rest,
                    },
                ),
                None => Err(MismatchView { at: d, expected: Expected::Eof }),
            },
        }
    }
}

/// What one statement at the start of a text was read as.
pub enum LineView {
    Category(CategoryView),
    Rule(RuleView),
    Unrecognized(MismatchView),
}

/// Reads the start of `s` as a category statement, else as a rule statement.
pub open spec fn classify(s: Seq<char>) -> LineView {
    match category_line(s) {
        Some(category) => LineView::Category(category),
        None => match rule_line(s) {
            Ok(rule) => LineView::Rule(rule),
            Err(mismatch) => LineView::Unrecognized(mismatch),
        },
    }
}

impl LineView {
    /// The text still to be read. After an unrecognized line there is none.
    pub open spec fn remainder(self) -> Seq<char> {
        match self {
            LineView::Category(category) => category.remainder,
            LineView::Rule(rule) => rule.remainder,
            LineView::Unrecognized(_) => Seq::empty(),
        }
    }
}

/// `rest` is what is left of `s` after a non-empty part of it was read.
pub open spec fn follows(rest: Seq<char>, s: Seq<char>) -> bool {
    exists|j: int| 0 < j <= s.len() && rest == #[trigger] s.skip(j)
}

/// The end of a statement hands back a part of the text.
proof fn lemma_line_end(s: Seq<char>, base: Seq<char>, j: int)
    requires
        0 <= j <= base.len(),
        s == base.skip(j),
        line_end(s) is Some,
    ensures
        exists|e: int| j <= e <= base.len() && line_end(s)->0 == #[trigger] base.skip(e),
{
    if s.len() > 0 {
        assert(s.skip(1) =~= base.skip(j + 1));
    }
}

/// The statement that `category_line` reads is not empty, and what it leaves
/// is the text behind it.
pub proof fn lemma_category_consumes(s: Seq<char>)
    requires
        category_line(s) is Some,
    ensures
        follows(category_line(s)->0.remainder, s),
{
    let a = trim_start(s);
    let w = run(s, Class::Space, true) as int;
    lemma_run(s, Class::Space, true);
    let n = run(a, Class::AlphaNumeric, true) as int;
    lemma_run(a, Class::AlphaNumeric, true);
    let a1 = a.skip(n);
    let b = trim_start(a1);
    let w1 = run(a1, Class::Space, true) as int;
    lemma_run(a1, Class::Space, true);
    let b1 = b.skip(2);
    let c = trim_start(b1);
    let w2 = run(b1, Class::Space, true) as int;
    lemma_run(b1, Class::Space, true);
    let k = run(c, Class::Terminator, false) as int;
    lemma_run(c, Class::Terminator, false);
    let e = w + n + w1 + 2 + w2 + k;
    if k < c.len() {
        assert(c.skip(k + 1) =~= s.skip(e + 1));
    } else {
        assert(c.skip(k) =~= s.skip(e));
    }
}

/// The name of a category is not empty and holds letters and digits only,
/// and its list of items holds no terminator.
pub proof fn lemma_category_parts(s: Seq<char>)
    requires
        category_line(s) is Some,
    ensures
        category_line(s)->0.name.len() > 0,
        forall|k: int|
            0 <= k < category_line(s)->0.name.len() ==> Class::AlphaNumeric.holds(
                #[trigger] category_line(s)->0.name[k],
            ),
        forall|k: int|
            0 <= k < category_line(s)->0.items.len() ==> !Class::Terminator.holds(
                #[trigger] category_line(s)->0.items[k],
            ),
{
    let a = trim_start(s);
    let n = run(a, Class::AlphaNumeric, true) as int;
    lemma_run(a, Class::AlphaNumeric, true);
    let b = trim_start(a.skip(n));
    let c = trim_start(b.skip(2));
    lemma_run(c, Class::Terminator, false);
}

/// The parts of a rule hold letters and digits only, but for the one anchor
/// `_` that a context has.
pub proof fn lemma_rule_parts(s: Seq<char>)
    requires
        rule_line(s) is Ok,
    ensures
        rule_line(s)->Ok_0.pattern.len() > 0,
        forall|k: int|
            0 <= k < rule_line(s)->Ok_0.pattern.len() ==> Class::AlphaNumeric.holds(
                #[trigger] rule_line(s)->Ok_0.pattern[k],
            ),
        forall|k: int|
            0 <= k < rule_line(s)->Ok_0.substitution.len() ==> Class::AlphaNumeric.holds(
                #[trigger] rule_line(s)->Ok_0.substitution[k],
            ),
        forall|k: int|
            0 <= k < rule_line(s)->Ok_0.context.len() ==> {
                let c = #[trigger] rule_line(s)->Ok_0.context[k];
                Class::AlphaNumeric.holds(c) || c == '_'
            },
        rule_line(s)->Ok_0.context.len() > 0 ==> count(rule_line(s)->Ok_0.context, '_') == 1,
{
    let a = trim_start(s);
    let n = run(a, Class::AlphaNumeric, true) as int;
    lemma_run(a, Class::AlphaNumeric, true);
    let b = trim_start(a.skip(n));
    let c = trim_start(b.skip(1));
    let m = run(c, Class::AlphaNumeric, true) as int;
    lemma_run(c, Class::AlphaNumeric, true);
    let d = trim_start(c.skip(m));
    if context_clause(d) is Some {
        let e = trim_start(d.skip(1));
        let p = run(e, Class::AlphaNumeric, true) as int;
        lemma_run(e, Class::AlphaNumeric, true);
        let e1 = e.skip(p + 1);
        let q = run(e1, Class::AlphaNumeric, true) as int;
        lemma_run(e1, Class::AlphaNumeric, true);
        let env = e.take(p + 1 + q);
        assert forall|k: int| 0 <= k < env.len() implies {
            let c = #[trigger] env[k];
            Class::AlphaNumeric.holds(c) || c == '_'
        } by {
            if k > p {
                assert(env[k] == e1[k - p - 1]);
            }
        }
        let before = e.take(p);
        let after = e1.take(q);
        assert(env =~= before + seq!['_'] + after);
        lemma_count_lacks(before, '_');
        lemma_count_lacks(after, '_');
        lemma_count_concat(before, seq!['_'], '_');
        lemma_count_concat(before + seq!['_'], after, '_');
        assert(count(seq!['_'].drop_last(), '_') == 0);
    }
}

/// What a context clause leaves is a part of the text it was read from.
proof fn lemma_context_consumes(s: Seq<char>, base: Seq<char>, j: int)
    requires
        0 <= j <= base.len(),
        s == base.skip(j),
        context_clause(s) is Some,
    ensures
        exists|e: int|
            j <= e <= base.len() && context_clause(s)->0.remainder == #[trigger] base.skip(e),
{
    let s1 = s.skip(1);
    let a = trim_start(s1);
    let w = run(s1, Class::Space, true) as int;
    lemma_run(s1, Class::Space, true);
    let n = run(a, Class::AlphaNumeric, true) as int;
    lemma_run(a, Class::AlphaNumeric, true);
    let a1 = a.skip(n + 1);
    let m = run(a1, Class::AlphaNumeric, true) as int;
    lemma_run(a1, Class::AlphaNumeric, true);
    let a2 = a.skip(n + 1 + m);
    let t = trim_start(a2);
    let w1 = run(a2, Class::Space, true) as int;
    lemma_run(a2, Class::Space, true);
    assert(t =~= base.skip(j + 1 + w + n + 1 + m + w1));
    lemma_line_end(t, base, j + 1 + w + n + 1 + m + w1);
}

/// The statement that `rule_line` reads is not empty, and what it leaves is
/// the text behind it.
pub proof fn lemma_rule_consumes(s: Seq<char>)
    requires
        rule_line(s) is Ok,
    ensures
        follows(rule_line(s)->Ok_0.remainder, s),
{
    let a = trim_start(s);
    let w = run(s, Class::Space, true) as int;
    lemma_run(s, Class::Space, true);
    let n = run(a, Class::AlphaNumeric, true) as int;
    lemma_run(a, Class::AlphaNumeric, true);
    let a1 = a.skip(n);
    let b = trim_start(a1);
    let w1 = run(a1, Class::Space, true) as int;
    lemma_run(a1, Class::Space, true);
    let b1 = b.skip(1);
    let c = trim_start(b1);
    let w2 = run(b1, Class::Space, true) as int;
    lemma_run(b1, Class::Space, true);
    let m = run(c, Class::AlphaNumeric, true) as int;
    lemma_run(c, Class::AlphaNumeric, true);
    let c1 = c.skip(m);
    let d = trim_start(c1);
    let w3 = run(c1, Class::Space, true) as int;
    lemma_run(c1, Class::Space, true);
    let j = w + n + w1 + 1 + w2 + m + w3;
    assert(d =~= s.skip(j));
    if context_clause(d) is Some {
        lemma_context_consumes(d, s, j);
    } else {
        lemma_line_end(d, s, j);
    }
}

/// Whatever a text is read as, what is left to read is shorter than the
/// text, and is empty or the text behind the statement.
pub proof fn lemma_classify_consumes(s: Seq<char>)
    ensures
        classify(s).remainder().len() > 0 ==> follows(classify(s).remainder(), s),
        classify(s).remainder().len() > 0 ==> classify(s).remainder().len() < s.len(),
{
    if category_line(s) is Some {
        lemma_category_consumes(s);
    } else if rule_line(s) is Ok {
        lemma_rule_consumes(s);
    }
}

} // verus!
