//! The parsers: one statement at a time, then a whole document.

use crate::chars::{lemma_run, lemma_splits_run, run, Class};
use crate::grammar::{
    category_line, context_clause, lemma_classify_consumes, line_end, rule_line, trim_start,
    CategoryView, ContextView, LineView, MismatchView, RuleView,
};
use crate::scan::{
    alphanumeric0, alphanumeric1, describe, eof, space0, tag, take_till, Expected,
};
use crate::transcript::{entry, joined, tokens, transcript};
use vstd::prelude::*;
use vstd::string::*;

verus! {

/// A category statement, its parts borrowed from the text it was read from.
#[derive(Clone, Copy, Debug, PartialEq, Eq)]
pub struct Category<'a> {
    pub name: &'a str,
    pub items: &'a str,
    pub remainder: &'a str,
}

impl<'a> View for Category<'a> {
    type V = CategoryView;

    open spec fn view(&self) -> CategoryView {
        CategoryView { name: self.name@, items: self.items@, remainder: self.remainder@ }
    }
}

/// A context clause, its parts borrowed from the text it was read from.
#[derive(Clone, Copy, Debug, PartialEq, Eq)]
pub struct Context<'a> {
    pub environment: &'a str,
    pub remainder: &'a str,
}

impl<'a> View for Context<'a> {
    type V = ContextView;

    open spec fn view(&self) -> ContextView {
        ContextView { environment: self.environment@, remainder: self.remainder@ }
    }
}

/// A rule statement, its parts borrowed from the text it was read from.
#[derive(Clone, Copy, Debug, PartialEq, Eq)]
pub struct Rule<'a> {
    pub pattern: &'a str,
    pub substitution: &'a str,
    pub context: &'a str,
    pub remainder: &'a str,
}

impl<'a> View for Rule<'a> {
    type V = RuleView;

    open spec fn view(&self) -> RuleView {
        RuleView {
            pattern: self.pattern@,
            substitution: self.substitution@,
            context: self.context@,
            remainder: self.remainder@,
        }
    }
}

/// The place where a text stopped being a rule statement, and what was
/// missing there.
#[derive(Clone, Copy, Debug, PartialEq, Eq)]
pub struct Mismatch<'a> {
    pub at: &'a str,
    pub expected: Expected,
}

impl<'a> View for Mismatch<'a> {
    type V = MismatchView;

    open spec fn view(&self) -> MismatchView {
        MismatchView { at: self.at@, expected: self.expected }
    }
}

/// Drops the white space that `i` starts with.
fn skip_space<'a>(i: &'a str) -> (rest: &'a str)
    ensures
        rest@ == trim_start(i@),
{
    let (rest, head) = space0(i).unwrap();
    proof {
        lemma_splits_run(i@, head@, rest@, Class::Space, true);
    }
    rest
}

/// Takes the letters and digits that `i` starts with, and hands back what
/// follows them and then the letters and digits themselves.
fn word<'a>(i: &'a str) -> (r: (&'a str, &'a str))
    ensures
        r.1@ == i@.take(run(i@, Class::AlphaNumeric, true) as int),
        r.0@ == i@.skip(run(i@, Class::AlphaNumeric, true) as int),
{
    let (rest, head) = alphanumeric0(i).unwrap();
    proof {
        lemma_splits_run(i@, head@, rest@, Class::AlphaNumeric, true);
    }
    (rest, head)
}

/// Reads the single character of `sign` at the start of `i`, and hands back
/// what follows it.
fn mark<'a>(i: &'a str, sign: &str) -> (r: Option<&'a str>)
    requires
        sign@.len() == 1,
    ensures
        match r {
            Some(rest) => i@.len() > 0 && i@[0] == sign@[0] && rest@ == i@.skip(1),
            None => i@.len() == 0 || i@[0] != sign@[0],
        },
{
    match tag(i, sign) {
        Some((rest, _)) => {
            assert(rest@ =~= i@.skip(1));
            Some(rest)
        },
        None => {
            assert(i@.len() > 0 && i@[0] == sign@[0] ==> sign@ =~= i@.subrange(0, 1));
            None
        },
    }
}

/// Reads the end of a statement at the start of `i`: a newline, a semicolon,
/// or the end of the text. Hands back what follows it.
fn end_of_statement<'a>(i: &'a str) -> (r: Option<&'a str>)
    ensures
        match r {
            Some(rest) => line_end(i@) == Some(rest@),
            None => line_end(i@) is None,
        },
{
    proof {
        reveal_strlit("\n");
        reveal_strlit(";");
    }
    match mark(i, "\n") {
        Some(rest) => Some(rest),
        None => match mark(i, ";") {
            Some(rest) => Some(rest),
            None => match eof(i) {
                Some((rest, _)) => Some(rest),
                None => None,
            },
        },
    }
}

/// Reads a category statement at the start of `i`.
pub fn category_parse<'a>(i: &'a str) -> (r: Option<Category<'a>>)
    ensures
        match r {
            Some(category) => category_line(i@) == Some(category@),
            None => category_line(i@) is None,
        },
{
    let a = skip_space(i);
    let (a1, name) = match alphanumeric1(a) {
        Some(found) => found,
        None => {
            return None;
        },
    };
    proof {
        lemma_splits_run(a@, name@, a1@, Class::AlphaNumeric, true);
    }
    let b = skip_space(a1);
    proof {
        reveal_strlit("::");
    }
    let (b1, _) = match tag(b, "::") {
        Some(found) => found,
        None => {
            assert(2 <= b@.len() && b@[0] == ':' && b@[1] == ':' ==> "::"@ =~= b@.subrange(0, 2));
            return None;
        },
    };
    assert(b1@ =~= b@.skip(2));
    let c = skip_space(b1);
    let (c1, items) = take_till(c, Class::Terminator).unwrap();
    proof {
        lemma_splits_run(c@, items@, c1@, Class::Terminator, false);
        lemma_run(c@, Class::Terminator, false);
    }
    let ghost k = run(c@, Class::Terminator, false) as int;
    match end_of_statement(c1) {
        Some(remainder) => {
            assert(remainder@ =~= if k < c@.len() {
                c@.skip(k + 1)
            } else {
                c@.skip(k)
            });
            Some(Category { name, items, remainder })
        },
        None => {
            assert(false);
            None
        },
    }
}

/// Reads a context clause at the start of `i`.
pub fn context_parser<'a>(i: &'a str) -> (r: Option<Context<'a>>)
    ensures
        match r {
            Some(clause) => context_clause(i@) == Some(clause@),
            None => context_clause(i@) is None,
        },
{
    proof {
        reveal_strlit("/");
        reveal_strlit("_");
    }
    let i1 = match mark(i, "/") {
        Some(rest) => rest,
        None => {
            return None;
        },
    };
    let a = skip_space(i1);
    let (a1, _) = word(a);
    let ghost n = run(a@, Class::AlphaNumeric, true) as int;
    proof {
        lemma_run(a@, Class::AlphaNumeric, true);
    }
    let a2 = match mark(a1, "_") {
        Some(rest) => rest,
        None => {
            return None;
        },
    };
    assert(a2@ =~= a@.skip(n + 1));
    let (a3, _) = word(a2);
    let ghost m = run(a2@, Class::AlphaNumeric, true) as int;
    proof {
        lemma_run(a2@, Class::AlphaNumeric, true);
    }
    assert(a3@ =~= a@.skip(n + 1 + m));
    let t = skip_space(a3);
    match end_of_statement(t) {
        Some(remainder) => {
            let whole = a.unicode_len();
            let left = a3.unicode_len();
            let environment = a.substring_char(0, whole - left);
            Some(Context { environment, remainder })
        },
        None => None,
    }
}

/// Reads a rule statement at the start of `i`. Where there is none, says
/// where the text stopped being one and what was missing there.
pub fn rule_parse<'a>(i: &'a str) -> (r: Result<Rule<'a>, Mismatch<'a>>)
    ensures
        match r {
            Ok(rule) => rule_line(i@) == Ok::<RuleView, MismatchView>(rule@),
            Err(mismatch) => rule_line(i@) == Err::<RuleView, MismatchView>(mismatch@),
        },
{
    proof {
        reveal_strlit(">");
        reveal_strlit("/");
        reveal_strlit("");
    }
    let a = skip_space(i);
    let (a1, pattern) = match alphanumeric1(a) {
        Some(found) => found,
        None => {
            proof {
                lemma_run(a@, Class::AlphaNumeric, true);
            }
            return Err(Mismatch { at: a, expected: Expected::AlphaNumeric });
        },
    };
    proof {
        lemma_splits_run(a@, pattern@, a1@, Class::AlphaNumeric, true);
    }
    let b = skip_space(a1);
    let b1 = match mark(b, ">") {
        Some(rest) => rest,
        None => match mark(b, "/") {
            Some(rest) => rest,
            None => {
                return Err(Mismatch { at: b, expected: Expected::Tag });
            },
        },
    };
    let c = skip_space(b1);
    let (c1, substitution) = word(c);
    let d = skip_space(c1);
    match context_parser(d) {
        Some(clause) => Ok(
            Rule {
                pattern,
                substitution,
                context: clause.environment,
                remainder: clause.remainder,
            },
        ),
        None => match end_of_statement(d) {
            Some(remainder) => {
                let context = "";
                assert(context@ =~= Seq::<char>::empty());
                Ok(Rule { pattern, substitution, context, remainder })
            },
            None => Err(Mismatch { at: d, expected: Expected::Eof }),
        },
    }
}

/// What the start of a text was read as.
#[derive(Clone, Copy, Debug, PartialEq, Eq)]
pub enum Line<'a> {
    Category(Category<'a>),
    Rule(Rule<'a>),
    Unrecognized(Mismatch<'a>),
}

impl<'a> View for Line<'a> {
    type V = LineView;

    open spec fn view(&self) -> LineView {
        match self {
            Line::Category(category) => LineView::Category(category@),
            Line::Rule(rule) => LineView::Rule(rule@),
            Line::Unrecognized(mismatch) => LineView::Unrecognized(mismatch@),
        }
    }
}

impl<'a> DeepView for Line<'a> {
    type V = LineView;

    open spec fn deep_view(&self) -> LineView {
        self@
    }
}

impl<'a> Line<'a> {
    /// The text that is left to read behind the line. Behind an unrecognized
    /// line there is none.
    pub fn remainder(&self) -> (rest: &'a str)
        ensures
            rest@ == self@.remainder(),
    {
        match self {
            Line::Category(category) => category.remainder,
            Line::Rule(rule) => rule.remainder,
            Line::Unrecognized(_) => {
                proof {
                    reveal_strlit("");
                }
                ""
            },
        }
    }
}

/// Reads the start of `i` as a category statement, else as a rule statement,
/// else as neither.
pub fn classify<'a>(i: &'a str) -> (line: Line<'a>)
    ensures
        line@ == crate::grammar::classify(i@),
{
    match category_parse(i) {
        Some(category) => Line::Category(category),
        None => match rule_parse(i) {
            Ok(rule) => Line::Rule(rule),
            Err(mismatch) => Line::Unrecognized(mismatch),
        },
    }
}

/// Reads the statements of the document `input`, in the order of the text.
/// Reading stops at the end of the text or behind the first line that is no
/// statement, so only the last line handed back can be unrecognized.
pub fn statements<'a>(input: &'a str) -> (lines: Vec<Line<'a>>)
    ensures
        lines.deep_view() == crate::transcript::statements(input@),
{
    let mut lines: Vec<Line<'a>> = Vec::new();
    let mut cur = input;
    loop
        invariant_except_break
            lines.deep_view() + crate::transcript::statements(cur@)
                =~= crate::transcript::statements(input@),
        ensures
            lines.deep_view() =~= crate::transcript::statements(input@),
        decreases cur@.len(),
    {
        let line = classify(cur);
        let remainder = line.remainder();
        proof {
            lemma_classify_consumes(cur@);
        }
        lines.push(line);
        if remainder.is_empty() {
            break ;
        }
        cur = remainder;
    }
    lines
}

/// Splits `s` at white space into its items.
pub fn split_items<'a>(s: &'a str) -> (items: Vec<&'a str>)
    ensures
        items.deep_view() == tokens(s@),
{
    let mut items: Vec<&'a str> = Vec::new();
    let mut cur = s;
    loop
        invariant_except_break
            tokens(s@) =~= items.deep_view() + tokens(cur@),
        ensures
            items.deep_view() =~= tokens(s@),
        decreases cur@.len(),
    {
        let t = skip_space(cur);
        let (rest, head) = take_till(t, Class::Space).unwrap();
        proof {
            lemma_splits_run(t@, head@, rest@, Class::Space, false);
            lemma_run(cur@, Class::Space, true);
        }
        if head.is_empty() {
            break ;
        }
        items.push(head);
        cur = rest;
    }
    items
}

/// Writes the texts of `parts` one after another, with `sep` between each
/// two.
pub fn join(parts: &Vec<&str>, sep: &str) -> (text: String)
    ensures
        text@ == joined(parts.deep_view(), sep@),
{
    let mut text = String::new();
    let mut k: usize = 0;
    while k < parts.len()
        invariant
            k <= parts.len(),
            text@ =~= joined(parts.deep_view().take(k as int), sep@),
        decreases parts.len() - k,
    {
        let ghost done = parts.deep_view().take(k as int);
        let ghost next = parts.deep_view().take(k + 1);
        assert(next.drop_last() =~= done);
        if k > 0 {
            text.append(sep);
        }
        text.append(parts[k]);
        k += 1;
    }
    assert(parts.deep_view().take(k as int) =~= parts.deep_view());
    text
}

/// Writes one entry of a transcript from its heading and its fields.
pub fn format_entry(label: &str, fields: &Vec<&str>) -> (text: String)
    ensures
        text@ == entry(label@, fields.deep_view()),
{
    let mut text = String::from_str("\n");
    text.append(label);
    text.append(" ");
    let list = join(fields, " ");
    text.append(list.as_str());
    text
}

/// Reads one statement at the start of `i` and hands back the heading and
/// the fields of its entry, and the text that is left to read. Where `i`
/// starts with neither kind of statement, the heading describes what was
/// missing, and no fields and no text are left.
pub fn parse<'a>(i: &'a str) -> (r: (String, Vec<&'a str>, &'a str))
    ensures
        r.0@ == crate::grammar::classify(i@).label(),
        r.1.deep_view() == crate::grammar::classify(i@).fields(),
        r.2@ == crate::grammar::classify(i@).remainder(),
{
    let line = classify(i);
    let remainder = line.remainder();
    match line {
        Line::Category(category) => {
            let mut label = String::from_str("Name: ");
            label.append(category.name);
            label.append(" - Items:");
            (label, split_items(category.items), remainder)
        },
        Line::Rule(rule) => {
            let mut label = String::from_str("Pattern: ");
            label.append(rule.pattern);
            let mut fields: Vec<&'a str> = Vec::new();
            fields.push("- Substitute:");
            fields.push(rule.substitution);
            fields.push("- Context:");
            fields.push(rule.context);
            assert(fields.deep_view() =~= seq![
                "- Substitute:"@,
                rule.substitution@,
                "- Context:"@,
                rule.context@,
            ]);
            (label, fields, remainder)
        },
        Line::Unrecognized(mismatch) => (
            describe(mismatch.at, mismatch.expected),
            Vec::new(),
            remainder,
        ),
    }
}

/// Writes the transcript of the document `input`: one entry for each
/// statement, in the order of the text. Reading stops at the end of the text
/// or behind the first line that is no statement.
pub fn process(input: &String) -> (combined: String)
    ensures
        combined@ == transcript(input@),
{
    let mut combined = String::new();
    let mut cur: &str = input.as_str();
    loop
        invariant_except_break
            combined@ + transcript(cur@) =~= transcript(input@),
        ensures
            combined@ =~= transcript(input@),
        decreases cur@.len(),
    {
        let (label, fields, remainder) = parse(cur);
        let text = format_entry(label.as_str(), &fields);
        combined.append(text.as_str());
        if remainder.is_empty() {
            break ;
        }
        proof {
            lemma_classify_consumes(cur@);
        }
        cur = remainder;
    }
    combined
}

} // verus!
