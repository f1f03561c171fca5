//! Interpolation of variables in compose documents.
use vstd::prelude::*;

use crate::compose::env::Variables;
use crate::compose::{ComposeError, ComposeErrorView, Result};
use crate::error::concat3;
use crate::text;

verus! {

/// How deeply interpolations may be nested.
pub const MAX_INTERPOLATION_DEPTH: usize = 32;

/// What an expression in braces does with its variable.
#[derive(Clone, Copy, PartialEq, Eq, Structural, Debug)]
pub enum Operator {
    /// `${name:?text}`: an empty or unset variable is an error.
    RequiredNonEmpty,
    /// `${name?text}`: an unset variable is an error.
    Required,
    /// `${name:-text}`: the text stands in for an empty or unset variable.
    DefaultNonEmpty,
    /// `${name:+text}`: the text replaces a variable that is not empty.
    AlternateNonEmpty,
    /// `${name-text}`: the text stands in for an unset variable.
    Default,
    /// `${name+text}`: the text replaces a variable that is set.
    Alternate,
}

/// An interpolation result: the text, or the error.
pub type Expansion = std::result::Result<Seq<char>, ComposeErrorView>;

/// The result with `prefix` put before its text.
pub open spec fn after_text(prefix: Seq<char>, rest: Expansion) -> Expansion {
    match rest {
        Ok(text) => Ok(prefix + text),
        Err(e) => Err(e),
    }
}

/// The position in `s` of the brace that closes an expression, past `nested` open inner ones.
pub open spec fn closing_brace(s: Seq<char>, nested: nat) -> Option<int>
    decreases s.len(),
{
    if s.len() == 0 {
        None
    } else if s[0] == '$' && s.len() > 1 && s[1] == '{' {
        match closing_brace(s.skip(2), nested + 1) {
            Some(i) => Some(i + 2),
            None => None,
        }
    } else if s[0] == '}' && nested == 0 {
        Some(0)
    } else {
        let inner = if s[0] == '}' {
            (nested - 1) as nat
        } else {
            nested
        };
        match closing_brace(s.skip(1), inner) {
            Some(i) => Some(i + 1),
            None => None,
        }
    }
}

/// The characters that can start a variable name.
pub open spec fn is_name_start(c: char) -> bool {
    c == '_' || 'a' <= c <= 'z' || 'A' <= c <= 'Z'
}

/// The characters that a variable name can hold.
pub open spec fn is_name_char(c: char) -> bool {
    is_name_start(c) || text::is_digit(c)
}

/// The length of the variable name that `s` starts with.
pub open spec fn name_len(s: Seq<char>) -> nat
    decreases s.len(),
{
    if s.len() > 0 && is_name_char(s[0]) {
        1 + name_len(s.skip(1))
    } else {
        0
    }
}

/// The operator of an expression, with the text on its two sides. The operators are tried in a
/// fixed order, each at its first occurrence.
pub open spec fn split_operator(expr: Seq<char>) -> Option<(Operator, Seq<char>, Seq<char>)> {
    if let Some((name, extra)) = text::split_once_text(expr, ":?"@) {
        Some((Operator::RequiredNonEmpty, name, extra))
    } else if let Some((name, extra)) = text::split_once_text(expr, "?"@) {
        Some((Operator::Required, name, extra))
    } else if let Some((name, extra)) = text::split_once_text(expr, ":-"@) {
        Some((Operator::DefaultNonEmpty, name, extra))
    } else if let Some((name, extra)) = text::split_once_text(expr, ":+"@) {
        Some((Operator::AlternateNonEmpty, name, extra))
    } else if let Some((name, extra)) = text::split_once_text(expr, "-"@) {
        Some((Operator::Default, name, extra))
    } else if let Some((name, extra)) = text::split_once_text(expr, "+"@) {
        Some((Operator::Alternate, name, extra))
    } else {
        None
    }
}

/// The value of a variable; empty where it is unset.
pub open spec fn value_or_empty(
    values: Map<Seq<char>, Seq<char>>,
    name: Seq<char>,
) -> Seq<char> {
    if values.contains_key(name) {
        values[name]
    } else {
        seq![]
    }
}

/// Whether an operator uses its text rather than the value of its variable.
pub open spec fn uses_extra(
    op: Operator,
    values: Map<Seq<char>, Seq<char>>,
    name: Seq<char>,
) -> bool {
    let set = values.contains_key(name);
    let non_empty = set && values[name].len() > 0;
    match op {
        Operator::RequiredNonEmpty => !non_empty,
        Operator::Required => !set,
        Operator::DefaultNonEmpty => !non_empty,
        Operator::AlternateNonEmpty => non_empty,
        Operator::Default => !set,
        Operator::Alternate => set,
    }
}

/// The text that an expression stands for, with `levels` levels of nesting left.
pub open spec fn expand_expression(
    expr: Seq<char>,
    values: Map<Seq<char>, Seq<char>>,
    levels: nat,
) -> Expansion
    decreases levels, expr.len(), 2nat,
    when levels > 0
{
    match split_operator(expr) {
        Some((op, name, extra)) => if uses_extra(op, values, name) {
            match expand(extra, values, (levels - 1) as nat) {
                Ok(text) => if op == Operator::RequiredNonEmpty || op == Operator::Required {
                    Err(
                        ComposeErrorView::InvalidInput(
                            "compose variable `"@ + name + "` is required: "@ + text,
                        ),
                    )
                } else {
                    Ok(text)
                },
                Err(e) => Err(e),
            }
        } else {
            Ok(value_or_empty(values, name))
        },
        None => Ok(value_or_empty(values, expr)),
    }
}

/// The text that `s` stands for, with `levels` levels of nesting left: `$$` is a dollar sign,
/// `${..}` and `$name` are variables, and any other dollar sign stands for itself.
pub open spec fn expand_chars(
    s: Seq<char>,
    values: Map<Seq<char>, Seq<char>>,
    levels: nat,
) -> Expansion
    decreases levels, s.len(), 0nat,
    when levels > 0
    via expand_chars_shrinks
{
    if s.len() == 0 {
        Ok(seq![])
    } else if s[0] != '$' {
        after_text(seq![s[0]], expand_chars(s.skip(1), values, levels))
    } else if s.len() == 1 {
        Ok(seq!['$'])
    } else if s[1] == '$' {
        after_text(seq!['$'], expand_chars(s.skip(2), values, levels))
    } else if s[1] == '{' {
        match closing_brace(s.skip(2), 0) {
            Some(end) => match expand_expression(s.subrange(2, 2 + end), values, levels) {
                Ok(text) => after_text(text, expand_chars(s.skip(3 + end), values, levels)),
                Err(e) => Err(e),
            },
            None => Err(
                ComposeErrorView::InvalidInput("unterminated compose variable interpolation"@),
            ),
        }
    } else if is_name_start(s[1]) {
        let n = name_len(s.skip(1)) as int;
        match expand_expression(s.subrange(1, 1 + n), values, levels) {
            Ok(text) => after_text(text, expand_chars(s.skip(1 + n), values, levels)),
            Err(e) => Err(e),
        }
    } else {
        after_text(seq!['$'], expand_chars(s.skip(1), values, levels))
    }
}

/// The text that `s` stands for; with no level of nesting left, an error.
pub open spec fn expand(
    s: Seq<char>,
    values: Map<Seq<char>, Seq<char>>,
    levels: nat,
) -> Expansion
    decreases levels, s.len(), 1nat,
{
    if levels == 0 {
        Err(ComposeErrorView::InvalidInput("compose variable interpolation is nested too deeply"@))
    } else {
        expand_chars(s, values, levels)
    }
}

#[via_fn]
proof fn expand_chars_shrinks(s: Seq<char>, values: Map<Seq<char>, Seq<char>>, levels: nat) {
    if s.len() > 1 {
        lemma_closing_brace(s.skip(2), 0);
        lemma_name_len(s.skip(1));
    }
}

/// The closing brace lies inside the text.
pub proof fn lemma_closing_brace(s: Seq<char>, nested: nat)
    ensures
        closing_brace(s, nested) matches Some(i) ==> 0 <= i < s.len() && s[i] == '}',
    decreases s.len(),
{
    if s.len() > 0 {
        if s[0] == '$' && s.len() > 1 && s[1] == '{' {
            lemma_closing_brace(s.skip(2), nested + 1);
        } else if !(s[0] == '}' && nested == 0) {
            let inner = if s[0] == '}' {
                (nested - 1) as nat
            } else {
                nested
            };
            lemma_closing_brace(s.skip(1), inner);
        }
    }
}

proof fn lemma_name_len(s: Seq<char>)
    ensures
        name_len(s) <= s.len(),
    decreases s.len(),
{
    if s.len() > 0 && is_name_char(s[0]) {
        lemma_name_len(s.skip(1));
    }
}

fn is_compose_variable_start(c: char) -> (r: bool)
    ensures
        r == is_name_start(c),
{
    c == '_' || ('a' <= c && c <= 'z') || ('A' <= c && c <= 'Z')
}

fn is_compose_variable_char(c: char) -> (r: bool)
    ensures
        r == is_name_char(c),
{
    is_compose_variable_start(c) || ('0' <= c && c <= '9')
}

/// Finds the brace that closes the expression that starts at `from`.
fn collect_braced_expression(v: &Vec<char>, from: usize) -> (r: Option<usize>)
    requires
        from <= v@.len(),
    ensures
        match r {
            Some(end) => from <= end && closing_brace(v@.skip(from as int), 0) == Some(end - from),
            None => closing_brace(v@.skip(from as int), 0) is None,
        },
{
    let n: usize = v.len();
    let mut i: usize = from;
    let mut nested: usize = 0;
    while i < n
        invariant
            from <= i <= n,
            n == v@.len(),
            nested <= i - from,
            closing_brace(v@.skip(from as int), 0) == match closing_brace(
                v@.skip(i as int),
                nested as nat,
            ) {
                Some(k) => Some(k + i - from),
                None => None::<int>,
            },
        decreases n - i,
    {
        let ghost here = v@.skip(i as int);
        if v[i] == '$' && i + 1 < n && v[i + 1] == '{' {
            assert(here.skip(2) =~= v@.skip(i + 2));
            nested += 1;
            i += 2;
        } else if v[i] == '}' && nested == 0 {
            return Some(i);
        } else {
            assert(here.skip(1) =~= v@.skip(i + 1));
            if v[i] == '}' {
                nested -= 1;
            }
            i += 1;
        }
    }
    None
}

/// Finds the operator of an expression.
fn find_operator(expr: &str) -> (r: Option<(Operator, &str, &str)>)
    ensures
        split_operator(expr@) == match r {
            Some((op, name, extra)) => Some((op, name@, extra@)),
            None => None,
        },
{
    if let Some((name, extra)) = text::split_once_str(expr, ":?") {
        return Some((Operator::RequiredNonEmpty, name, extra));
    }
    if let Some((name, extra)) = text::split_once_str(expr, "?") {
        return Some((Operator::Required, name, extra));
    }
    if let Some((name, extra)) = text::split_once_str(expr, ":-") {
        return Some((Operator::DefaultNonEmpty, name, extra));
    }
    if let Some((name, extra)) = text::split_once_str(expr, ":+") {
        return Some((Operator::AlternateNonEmpty, name, extra));
    }
    if let Some((name, extra)) = text::split_once_str(expr, "-") {
        return Some((Operator::Default, name, extra));
    }
    if let Some((name, extra)) = text::split_once_str(expr, "+") {
        return Some((Operator::Alternate, name, extra));
    }
    None
}

/// Resolves an expression inside an interpolation at the given depth.
fn resolve_variable(expr: &str, values: &Variables, depth: usize) -> (r: Result<String>)
    requires
        depth < MAX_INTERPOLATION_DEPTH,
    ensures
        crate::compose::text_result(r) == expand_expression(
            expr@,
            values@,
            (MAX_INTERPOLATION_DEPTH - depth) as nat,
        ),
    decreases MAX_INTERPOLATION_DEPTH - depth, expr@.len(), 2nat,
{
    match find_operator(expr) {
        Some((op, name, extra)) => resolve_variable_with_operator(name, op, extra, values, depth),
        None => match values.get(expr) {
            Some(value) => Ok(value),
            None => Ok(String::new()),
        },
    }
}

/// Applies an operator to a variable.
fn resolve_variable_with_operator(
    name: &str,
    op: Operator,
    extra: &str,
    values: &Variables,
    depth: usize,
) -> (r: Result<String>)
    requires
        depth < MAX_INTERPOLATION_DEPTH,
    ensures
        crate::compose::text_result(r) == if uses_extra(op, values@, name@) {
            match expand(extra@, values@, (MAX_INTERPOLATION_DEPTH - depth - 1) as nat) {
                Ok(text) => if op == Operator::RequiredNonEmpty || op == Operator::Required {
                    Err(
                        ComposeErrorView::InvalidInput(
                            "compose variable `"@ + name@ + "` is required: "@ + text,
                        ),
                    )
                } else {
                    Ok(text)
                },
                Err(e) => Err(e),
            }
        } else {
            Ok(value_or_empty(values@, name@))
        },
    decreases MAX_INTERPOLATION_DEPTH - depth, 0nat, 0nat,
{
    let value = values.get(name);
    let set = value.is_some();
    let non_empty = match &value {
        Some(text) => !text.as_str().is_empty(),
        None => false,
    };
    let take_extra = match op {
        Operator::RequiredNonEmpty => !non_empty,
        Operator::Required => !set,
        Operator::DefaultNonEmpty => !non_empty,
        Operator::AlternateNonEmpty => non_empty,
        Operator::Default => !set,
        Operator::Alternate => set,
    };
    if !take_extra {
        return match value {
            Some(text) => Ok(text),
            None => Ok(String::new()),
        };
    }
    match interpolate_with_depth(extra, values, depth + 1) {
        Ok(text) => {
            if op == Operator::RequiredNonEmpty || op == Operator::Required {
                let mut message = concat3("compose variable `", name, "` is required: ");
                message.append(text.as_str());
                Err(ComposeError::InvalidInput(message))
            } else {
                Ok(text)
            }
        },
        Err(e) => Err(e),
    }
}

/// Interpolates a text that stands at the given depth.
fn interpolate_with_depth(source: &str, values: &Variables, depth: usize) -> (r: Result<String>)
    requires
        depth <= MAX_INTERPOLATION_DEPTH,
    ensures
        crate::compose::text_result(r) == expand(
            source@,
            values@,
            (MAX_INTERPOLATION_DEPTH - depth) as nat,
        ),
    decreases MAX_INTERPOLATION_DEPTH - depth, source@.len(), 1nat,
{
    if depth >= MAX_INTERPOLATION_DEPTH {
        return Err(
            ComposeError::InvalidInput(
                "compose variable interpolation is nested too deeply".to_owned(),
            ),
        );
    }
    let v = text::chars_of(source);
    let n: usize = v.len();
    let ghost levels = (MAX_INTERPOLATION_DEPTH - depth) as nat;
    let mut output = String::new();
    let mut i: usize = 0;
    assert(v@.skip(0) =~= source@);
    proof {
        let whole = expand_chars(source@, values@, levels);
        if whole is Ok {
            assert(output@ + whole->Ok_0 =~= whole->Ok_0);
        }
    }
    while i < n
        invariant
            i <= n,
            n == v@.len(),
            v@ == source@,
            depth < MAX_INTERPOLATION_DEPTH,
            levels == MAX_INTERPOLATION_DEPTH - depth,
            expand_chars(source@, values@, levels) == after_text(
                output@,
                expand_chars(v@.skip(i as int), values@, levels),
            ),
        decreases n - i,
    {
        let ghost here = v@.skip(i as int);
        let ghost before = output@;
        let c = v[i];
        assert(here.skip(1) =~= v@.skip(i + 1));
        if c != '$' {
            output.push(c);
            i += 1;
            proof {
                lemma_after_text(before, seq![c], expand_chars(v@.skip(i as int), values@, levels));
                assert(output@ =~= before + seq![c]);
            }
        } else if i + 1 >= n {
            output.push('$');
            i += 1;
            assert(output@ =~= before + seq!['$']);
            assert(output@ + seq![] =~= output@);
        } else {
            let next = v[i + 1];
            assert(here.skip(2) =~= v@.skip(i + 2));
            if next == '$' {
                output.push('$');
                i += 2;
                proof {
                    lemma_after_text(
                        before,
                        seq!['$'],
                        expand_chars(v@.skip(i as int), values@, levels),
                    );
                    assert(output@ =~= before + seq!['$']);
                }
            } else if next == '{' {
                proof {
                    lemma_closing_brace(v@.skip(i + 2), 0);
                }
                match collect_braced_expression(&v, i + 2) {
                    Some(end) => {
                        let expr = source.substring_char(i + 2, end);
                        assert(expr@ =~= here.subrange(2, end - i));
                        assert(here.skip(end - i + 1) =~= v@.skip(end + 1));
                        match resolve_variable(expr, values, depth) {
                            Ok(text) => {
                                output.append(text.as_str());
                                i = end + 1;
                                proof {
                                    lemma_after_text(
                                        before,
                                        text@,
                                        expand_chars(v@.skip(i as int), values@, levels),
                                    );
                                }
                            },
                            Err(e) => {
                                return Err(e);
                            },
                        }
                    },
                    None => {
                        return Err(
                            ComposeError::InvalidInput(
                                "unterminated compose variable interpolation".to_owned(),
                            ),
                        );
                    },
                }
            } else if !is_compose_variable_start(next) {
                output.push('$');
                i += 1;
                proof {
                    lemma_after_text(
                        before,
                        seq!['$'],
                        expand_chars(v@.skip(i as int), values@, levels),
                    );
                    assert(output@ =~= before + seq!['$']);
                }
            } else {
                let mut end: usize = i + 1;
                assert(here.skip(1) =~= v@.skip(end as int));
                while end < n && is_compose_variable_char(v[end])
                    invariant
                        i + 1 <= end <= n,
                        n == v@.len(),
                        name_len(v@.skip(i + 1)) == end - (i + 1) + name_len(v@.skip(end as int)),
                    decreases n - end,
                {
                    assert(v@.skip(end as int).skip(1) =~= v@.skip(end + 1));
                    end += 1;
                }
                let ghost len = name_len(v@.skip(i + 1)) as int;
                assert(len == end - (i + 1));
                let expr = source.substring_char(i + 1, end);
                assert(expr@ =~= here.subrange(1, 1 + len));
                assert(here.skip(1 + len) =~= v@.skip(end as int));
                match resolve_variable(expr, values, depth) {
                    Ok(text) => {
                        output.append(text.as_str());
                        i = end;
                        proof {
                            lemma_after_text(
                                before,
                                text@,
                                expand_chars(v@.skip(i as int), values@, levels),
                            );
                        }
                    },
                    Err(e) => {
                        return Err(e);
                    },
                }
            }
        }
    }
    assert(output@ + seq![] =~= output@);
    Ok(output)
}

proof fn lemma_after_text(a: Seq<char>, b: Seq<char>, rest: Expansion)
    ensures
        after_text(a, after_text(b, rest)) == after_text(a + b, rest),
{
    if rest is Ok {
        assert(a + (b + rest->Ok_0) =~= (a + b) + rest->Ok_0);
    }
}

/// The text that a compose document stands for.
pub open spec fn interpolated(s: Seq<char>, values: Map<Seq<char>, Seq<char>>) -> Expansion {
    expand(s, values, MAX_INTERPOLATION_DEPTH as nat)
}

/// Replaces the variables in a compose document by their values.
pub fn interpolate(source: &str, values: &Variables) -> (r: Result<String>)
    ensures
        crate::compose::text_result(r) == interpolated(source@, values@),
{
    interpolate_with_depth(source, values, 0)
}

/// A text with every dollar sign doubled.
pub open spec fn escape(s: Seq<char>) -> Seq<char>
    decreases s.len(),
{
    if s.len() == 0 {
        seq![]
    } else if s[0] == '$' {
        seq!['$', '$'] + escape(s.skip(1))
    } else {
        seq![s[0]] + escape(s.skip(1))
    }
}

/// Doubling the dollar signs of a text protects it: interpolation gives the text back, whatever
/// the variables are.
pub proof fn law_escaped_text_is_restored(s: Seq<char>, values: Map<Seq<char>, Seq<char>>)
    ensures
        interpolated(escape(s), values) == Expansion::Ok(s),
{
    lemma_escape(s, values, MAX_INTERPOLATION_DEPTH as nat);
}

proof fn lemma_escape(s: Seq<char>, values: Map<Seq<char>, Seq<char>>, levels: nat)
    requires
        levels > 0,
    ensures
        expand_chars(escape(s), values, levels) == Expansion::Ok(s),
    decreases s.len(),
{
    if s.len() == 0 {
        assert(s =~= seq![]);
    } else {
        let rest = escape(s.skip(1));
        lemma_escape(s.skip(1), values, levels);
        if s[0] == '$' {
            assert((seq!['$', '$'] + rest).skip(2) =~= rest);
            assert(seq!['$'] + s.skip(1) =~= s);
        } else {
            assert((seq![s[0]] + rest).skip(1) =~= rest);
            assert(seq![s[0]] + s.skip(1) =~= s);
        }
    }
}

/// A text without dollar signs is left as it is, whatever the variables are.
pub proof fn law_plain_text_is_unchanged(s: Seq<char>, values: Map<Seq<char>, Seq<char>>)
    requires
        !s.contains('$'),
    ensures
        interpolated(s, values) == Expansion::Ok(s),
{
    lemma_escape_plain(s);
    law_escaped_text_is_restored(s, values);
}

proof fn lemma_escape_plain(s: Seq<char>)
    requires
        !s.contains('$'),
    ensures
        escape(s) == s,
    decreases s.len(),
{
    if s.len() > 0 {
        assert(s[0] != '$');
        assert forall|i: int| 0 <= i < s.skip(1).len() implies s.skip(1)[i] != '$' by {
            assert(s[i + 1] != '$');
        }
        lemma_escape_plain(s.skip(1));
        assert(seq![s[0]] + s.skip(1) =~= s);
    } else {
        assert(s =~= seq![]);
    }
}

/// Whether a text has no character of an operator and none of an expression, as the name of a
/// variable.
pub open spec fn is_plain_name(name: Seq<char>) -> bool {
    forall|i: int|
        0 <= i < name.len() ==> !is_operator_char(#[trigger] name[i]) && name[i] != '$' && name[i]
            != '}'
}

/// The characters of operators.
pub open spec fn is_operator_char(c: char) -> bool {
    c == ':' || c == '?' || c == '-' || c == '+'
}

/// Whether a text stands for itself and ends no expression.
pub open spec fn is_plain_text(s: Seq<char>) -> bool {
    !s.contains('$') && !s.contains('}')
}

proof fn lemma_closing(t: Seq<char>, rest: Seq<char>, nested: nat)
    requires
        is_plain_text(t),
    ensures
        closing_brace(t + rest, nested) == match closing_brace(rest, nested) {
            Some(i) => Some(i + t.len()),
            None => None,
        },
    decreases t.len(),
{
    if t.len() == 0 {
        assert(t + rest =~= rest);
    } else {
        let u = t.skip(1);
        assert(t.contains(t[0]));
        assert forall|c: char| u.contains(c) implies t.contains(c) by {
            let k = choose|k: int| 0 <= k < u.len() && u[k] == c;
            assert(t[k + 1] == c);
        }
        assert((t + rest).skip(1) =~= u + rest);
        lemma_closing(u, rest, nested);
    }
}

/// A text does not occur in an expression where it occurs neither in the name, nor in the operator,
/// nor in the text behind it.
proof fn lemma_absent(name: Seq<char>, o: Seq<char>, d: Seq<char>, p: Seq<char>)
    requires
        is_plain_name(name),
        1 <= p.len() <= 2,
        p.len() == 2 ==> p[0] == ':',
        is_operator_char(p[0]),
        1 <= o.len() <= 2,
        o.last() != ':',
        o.len() == 2 ==> o[0] == ':',
        p.len() == 1 ==> !o.contains(p[0]),
        p != o,
        !text::contains_text(d, p),
    ensures
        text::split_once_text(name + o + d, p) is None,
{
    let expr = name + o + d;
    text::lemma_find_text(expr, p);
    if let Some(i) = text::find_text(expr, p) {
        let n = name.len() as int;
        let k = o.len() as int;
        assert(expr.subrange(i, i + p.len())[0] == p[0]);
        assert(expr[i] == p[0]);
        if i < n {
            assert(expr[i] == name[i]);
        } else if i < n + k {
            assert(expr[i] == o[i - n]);
            if p.len() == 2 {
                assert(i == n && k == 2);
                assert(expr.subrange(i, i + 2)[1] == p[1]);
                assert(expr[n + 1] == o[1]);
                assert(p =~= o);
            }
        } else {
            let j = i - n - k;
            assert(d.subrange(j, j + p.len()) =~= expr.subrange(i, i + p.len()));
            assert(text::occurs_at(d, p, j));
        }
    }
}

/// An expression is split at its operator.
proof fn lemma_present(name: Seq<char>, o: Seq<char>, d: Seq<char>)
    requires
        is_plain_name(name),
        1 <= o.len() <= 2,
        is_operator_char(o[0]),
    ensures
        text::split_once_text(name + o + d, o) == Some((name, d)),
{
    let expr = name + o + d;
    let n = name.len() as int;
    text::lemma_find_text(expr, o);
    assert(expr.subrange(n, n + o.len()) =~= o);
    assert(text::occurs_at(expr, o, n));
    let i = text::find_text(expr, o)->0;
    assert(expr.subrange(i, i + o.len())[0] == o[0]);
    if i < n {
        assert(expr[i] == name[i]);
    }
    assert(expr.take(n) =~= name);
    assert(expr.skip(n + o.len()) =~= d);
}

/// The text of an operator in an expression.
pub open spec fn operator_text(op: Operator) -> Seq<char> {
    match op {
        Operator::RequiredNonEmpty => ":?"@,
        Operator::Required => "?"@,
        Operator::DefaultNonEmpty => ":-"@,
        Operator::AlternateNonEmpty => ":+"@,
        Operator::Default => "-"@,
        Operator::Alternate => "+"@,
    }
}

/// Whether a text behind an operator is not taken for another operator: none that is looked for
/// before it occurs in the text.
pub open spec fn keeps_operator(op: Operator, d: Seq<char>) -> bool {
    match op {
        Operator::RequiredNonEmpty => true,
        Operator::Required => !text::contains_text(d, ":?"@),
        Operator::DefaultNonEmpty => !text::contains_text(d, "?"@) && !text::contains_text(d, ":?"@),
        Operator::AlternateNonEmpty => {
            &&& !text::contains_text(d, "?"@)
            &&& !text::contains_text(d, ":?"@)
            &&& !text::contains_text(d, ":-"@)
        },
        Operator::Default => {
            &&& !text::contains_text(d, "?"@)
            &&& !text::contains_text(d, ":?"@)
            &&& !text::contains_text(d, ":-"@)
            &&& !text::contains_text(d, ":+"@)
        },
        Operator::Alternate => {
            &&& !text::contains_text(d, "?"@)
            &&& !text::contains_text(d, ":?"@)
            &&& !text::contains_text(d, "-"@)
            &&& !text::contains_text(d, ":-"@)
            &&& !text::contains_text(d, ":+"@)
        },
    }
}

proof fn lemma_split_operator(op: Operator, name: Seq<char>, d: Seq<char>)
    requires
        is_plain_name(name),
        keeps_operator(op, d),
    ensures
        split_operator(name + operator_text(op) + d) == Some((op, name, d)),
{
    let o = operator_text(op);
    reveal_strlit(":?");
    reveal_strlit("?");
    reveal_strlit(":-");
    reveal_strlit(":+");
    reveal_strlit("-");
    reveal_strlit("+");
    lemma_present(name, o, d);
    if op != Operator::RequiredNonEmpty {
        assert(o.len() == 1 || o[1] != '?');
        lemma_absent(name, o, d, ":?"@);
        if op != Operator::Required {
            lemma_absent(name, o, d, "?"@);
            if op != Operator::DefaultNonEmpty {
                assert(":-"@.len() == 2 && (o.len() == 1 || o[1] != '-'));
                lemma_absent(name, o, d, ":-"@);
                if op != Operator::AlternateNonEmpty {
                    assert(o.len() == 1);
                    lemma_absent(name, o, d, ":+"@);
                    if op != Operator::Default {
                        lemma_absent(name, o, d, "-"@);
                    }
                }
            }
        }
    }
}

/// An expression in braces stands for what it expands to, and the text behind it is expanded on its
/// own.
proof fn lemma_braced(expr: Seq<char>, tail: Seq<char>, values: Map<Seq<char>, Seq<char>>)
    requires
        closing_brace(expr + seq!['}'] + tail, 0) == Some(expr.len() as int),
    ensures
        interpolated("${"@ + expr + "}"@ + tail, values) == match expand_expression(
            expr,
            values,
            MAX_INTERPOLATION_DEPTH as nat,
        ) {
            Ok(text) => after_text(text, interpolated(tail, values)),
            Err(e) => Err(e),
        },
{
    reveal_strlit("${");
    reveal_strlit("}");
    let s = "${"@ + expr + "}"@ + tail;
    let n = expr.len() as int;
    assert(s.skip(2) =~= expr + seq!['}'] + tail);
    assert(s.subrange(2, 2 + n) =~= expr);
    assert(s.skip(3 + n) =~= tail);
    assert(s[0] == '$' && s[1] == '{');
}

/// What an operator makes of a variable and a plain text.
proof fn lemma_operator(
    op: Operator,
    name: Seq<char>,
    d: Seq<char>,
    tail: Seq<char>,
    values: Map<Seq<char>, Seq<char>>,
)
    requires
        is_plain_name(name),
        is_plain_text(d),
        keeps_operator(op, d),
    ensures
        interpolated("${"@ + name + operator_text(op) + d + "}"@ + tail, values)
            == match expand_expression(
            name + operator_text(op) + d,
            values,
            MAX_INTERPOLATION_DEPTH as nat,
        ) {
            Ok(text) => after_text(text, interpolated(tail, values)),
            Err(e) => Err(e),
        },
        split_operator(name + operator_text(op) + d) == Some((op, name, d)),
        expand(d, values, (MAX_INTERPOLATION_DEPTH - 1) as nat) == Expansion::Ok(d),
{
    let o = operator_text(op);
    let expr = name + o + d;
    reveal_strlit(":?");
    reveal_strlit("?");
    reveal_strlit(":-");
    reveal_strlit(":+");
    reveal_strlit("-");
    reveal_strlit("+");
    assert forall|i: int| 0 <= i < expr.len() implies expr[i] != '$' && expr[i] != '}' by {
        if i < name.len() {
            assert(expr[i] == name[i]);
        } else if i < name.len() + o.len() {
            assert(expr[i] == o[i - name.len()]);
        } else {
            assert(expr[i] == d[i - name.len() - o.len()]);
            assert(d.contains(expr[i]));
        }
    }
    assert(is_plain_text(expr));
    lemma_closing(expr, seq!['}'] + tail, 0);
    assert(expr + (seq!['}'] + tail) =~= expr + seq!['}'] + tail);
    lemma_braced(expr, tail, values);
    assert("${"@ + name + o + d + "}"@ + tail =~= "${"@ + expr + "}"@ + tail);
    lemma_split_operator(op, name, d);
    lemma_escape_plain(d);
    lemma_escape(d, values, (MAX_INTERPOLATION_DEPTH - 1) as nat);
}

/// A text without dollar signs is left as it is before anything else, too.
pub proof fn law_plain_text_is_kept_in_front(
    s: Seq<char>,
    tail: Seq<char>,
    values: Map<Seq<char>, Seq<char>>,
)
    requires
        !s.contains('$'),
    ensures
        match interpolated(tail, values) {
            Ok(text) => interpolated(s + tail, values) == Expansion::Ok(s + text),
            Err(e) => interpolated(s + tail, values) == Expansion::Err(e),
        },
    decreases s.len(),
{
    if s.len() == 0 {
        assert(s + tail =~= tail);
        if let Ok(text) = interpolated(tail, values) {
            assert(s + text =~= text);
        }
    } else {
        let u = s.skip(1);
        assert(s.contains(s[0]));
        assert forall|i: int| 0 <= i < u.len() implies u[i] != '$' by {
            assert(s.contains(s[i + 1]));
        }
        assert((s + tail).skip(1) =~= u + tail);
        law_plain_text_is_kept_in_front(u, tail, values);
        if let Ok(text) = interpolated(tail, values) {
            assert(seq![s[0]] + (u + text) =~= s + text);
        }
    }
}

/// The result for a text that begins with an expression that stands for `value`, where `rest` is
/// the result for the text behind the expression.
pub open spec fn value_then(value: Seq<char>, rest: Expansion, whole: Expansion) -> bool {
    match rest {
        Ok(text) => whole == Expansion::Ok(value + text),
        Err(e) => whole == Expansion::Err(e),
    }
}

/// `${name-text}` stands for the value of a variable that is set, even to nothing, and for the text
/// where it is unset.
pub proof fn law_an_unset_variable_takes_its_default(
    name: Seq<char>,
    d: Seq<char>,
    tail: Seq<char>,
    values: Map<Seq<char>, Seq<char>>,
)
    requires
        is_plain_name(name),
        is_plain_text(d),
        keeps_operator(Operator::Default, d),
    ensures
        ({
            let whole = interpolated("${"@ + name + "-"@ + d + "}"@ + tail, values);
            let rest = interpolated(tail, values);
            &&& values.contains_key(name) ==> value_then(values[name], rest, whole)
            &&& !values.contains_key(name) ==> value_then(d, rest, whole)
        }),
{
    lemma_operator(Operator::Default, name, d, tail, values);
}

/// `${name:-text}` stands for the value of a variable that is set to something, and for the text
/// where it is empty or unset.
pub proof fn law_an_empty_variable_takes_its_default(
    name: Seq<char>,
    d: Seq<char>,
    tail: Seq<char>,
    values: Map<Seq<char>, Seq<char>>,
)
    requires
        is_plain_name(name),
        is_plain_text(d),
        keeps_operator(Operator::DefaultNonEmpty, d),
    ensures
        ({
            let whole = interpolated("${"@ + name + ":-"@ + d + "}"@ + tail, values);
            let rest = interpolated(tail, values);
            &&& values.contains_key(name) && values[name].len() > 0 ==> value_then(
                values[name],
                rest,
                whole,
            )
            &&& values.contains_key(name) && values[name].len() == 0 ==> value_then(d, rest, whole)
            &&& !values.contains_key(name) ==> value_then(d, rest, whole)
        }),
{
    lemma_operator(Operator::DefaultNonEmpty, name, d, tail, values);
}

/// `${name+text}` stands for the text where a variable is set, even to nothing, and for nothing
/// where it is unset.
pub proof fn law_a_set_variable_gives_way_to_its_alternate(
    name: Seq<char>,
    d: Seq<char>,
    tail: Seq<char>,
    values: Map<Seq<char>, Seq<char>>,
)
    requires
        is_plain_name(name),
        is_plain_text(d),
        keeps_operator(Operator::Alternate, d),
    ensures
        ({
            let whole = interpolated("${"@ + name + "+"@ + d + "}"@ + tail, values);
            let rest = interpolated(tail, values);
            &&& values.contains_key(name) ==> value_then(d, rest, whole)
            &&& !values.contains_key(name) ==> value_then(seq![], rest, whole)
        }),
{
    lemma_operator(Operator::Alternate, name, d, tail, values);
}

/// `${name:+text}` stands for the text where a variable is set to something, and for nothing where
/// it is empty or unset.
pub proof fn law_a_filled_variable_gives_way_to_its_alternate(
    name: Seq<char>,
    d: Seq<char>,
    tail: Seq<char>,
    values: Map<Seq<char>, Seq<char>>,
)
    requires
        is_plain_name(name),
        is_plain_text(d),
        keeps_operator(Operator::AlternateNonEmpty, d),
    ensures
        ({
            let whole = interpolated("${"@ + name + ":+"@ + d + "}"@ + tail, values);
            let rest = interpolated(tail, values);
            &&& values.contains_key(name) && values[name].len() > 0 ==> value_then(d, rest, whole)
            &&& values.contains_key(name) && values[name].len() == 0 ==> value_then(
                seq![],
                rest,
                whole,
            )
            &&& !values.contains_key(name) ==> value_then(seq![], rest, whole)
        }),
{
    lemma_operator(Operator::AlternateNonEmpty, name, d, tail, values);
}

/// `${name?text}` stands for the value of a variable that is set, even to nothing; an unset one is
/// an error that says the text.
pub proof fn law_a_required_variable_is_set(
    name: Seq<char>,
    d: Seq<char>,
    tail: Seq<char>,
    values: Map<Seq<char>, Seq<char>>,
)
    requires
        is_plain_name(name),
        is_plain_text(d),
        keeps_operator(Operator::Required, d),
    ensures
        ({
            let whole = interpolated("${"@ + name + "?"@ + d + "}"@ + tail, values);
            let rest = interpolated(tail, values);
            &&& values.contains_key(name) ==> value_then(values[name], rest, whole)
            &&& !values.contains_key(name) ==> whole == Expansion::Err(
                ComposeErrorView::InvalidInput(
                    "compose variable `"@ + name + "` is required: "@ + d,
                ),
            )
        }),
{
    lemma_operator(Operator::Required, name, d, tail, values);
}

/// `${name:?text}` stands for the value of a variable that is set to something; an empty or an unset
/// one is an error that says the text.
pub proof fn law_a_required_variable_is_filled(
    name: Seq<char>,
    d: Seq<char>,
    tail: Seq<char>,
    values: Map<Seq<char>, Seq<char>>,
)
    requires
        is_plain_name(name),
        is_plain_text(d),
        keeps_operator(Operator::RequiredNonEmpty, d),
    ensures
        ({
            let whole = interpolated("${"@ + name + ":?"@ + d + "}"@ + tail, values);
            let rest = interpolated(tail, values);
            &&& values.contains_key(name) && values[name].len() > 0 ==> value_then(
                values[name],
                rest,
                whole,
            )
            &&& !values.contains_key(name) || values[name].len() == 0 ==> whole == Expansion::Err(
                ComposeErrorView::InvalidInput(
                    "compose variable `"@ + name + "` is required: "@ + d,
                ),
            )
        }),
{
    lemma_operator(Operator::RequiredNonEmpty, name, d, tail, values);
}

/// `${name}` stands for the value of a variable, and for nothing where it is unset.
pub proof fn law_a_variable_in_braces_stands_for_its_value(
    name: Seq<char>,
    tail: Seq<char>,
    values: Map<Seq<char>, Seq<char>>,
)
    requires
        is_plain_name(name),
    ensures
        ({
            let whole = interpolated("${"@ + name + "}"@ + tail, values);
            let rest = interpolated(tail, values);
            &&& values.contains_key(name) ==> value_then(values[name], rest, whole)
            &&& !values.contains_key(name) ==> value_then(seq![], rest, whole)
        }),
{
    lemma_plain_name(name);
    lemma_closing(name, seq!['}'] + tail, 0);
    assert(name + (seq!['}'] + tail) =~= name + seq!['}'] + tail);
    lemma_braced(name, tail, values);
}

/// A plain name is an expression without an operator.
proof fn lemma_plain_name(name: Seq<char>)
    requires
        is_plain_name(name),
    ensures
        is_plain_text(name),
        split_operator(name) is None,
{
    reveal_strlit(":?");
    reveal_strlit("?");
    reveal_strlit(":-");
    reveal_strlit(":+");
    reveal_strlit("-");
    reveal_strlit("+");
    lemma_name_lacks(name, ":?"@);
    lemma_name_lacks(name, "?"@);
    lemma_name_lacks(name, ":-"@);
    lemma_name_lacks(name, ":+"@);
    lemma_name_lacks(name, "-"@);
    lemma_name_lacks(name, "+"@);
}

proof fn lemma_name_lacks(name: Seq<char>, p: Seq<char>)
    requires
        is_plain_name(name),
        p.len() > 0,
        is_operator_char(p[0]),
    ensures
        text::split_once_text(name, p) is None,
{
    text::lemma_find_text(name, p);
    if let Some(i) = text::find_text(name, p) {
        assert(name.subrange(i, i + p.len())[0] == p[0]);
        assert(name[i] == p[0]);
    }
}

/// A variable in braces is closed by the first brace behind it.
proof fn lemma_nested_closing(name: Seq<char>, other: Seq<char>, tail: Seq<char>)
    requires
        is_plain_text(name),
        is_plain_text(other),
    ensures
        ({
            let expr = name + ":-"@ + ("${"@ + other + "}"@);
            closing_brace(expr + seq!['}'] + tail, 0) == Some(expr.len() as int)
        }),
{
    reveal_strlit(":-");
    reveal_strlit("${");
    reveal_strlit("}");
    let d = "${"@ + other + "}"@;
    let expr = name + ":-"@ + d;
    let close = seq!['}'] + tail;
    let front = name + ":-"@;
    assert forall|i: int| 0 <= i < front.len() implies front[i] != '$' && front[i] != '}' by {
        if i < name.len() {
            assert(name.contains(name[i]));
        }
    }
    lemma_closing(front, d + close, 0);
    lemma_closing(other, seq!['}'] + close, 1);
    assert((d + close).skip(2) =~= other + (seq!['}'] + close));
    assert((seq!['}'] + close).skip(1) =~= close);
    assert(closing_brace(close, 0) == Some(0int));
    assert(closing_brace(seq!['}'] + close, 1) == Some(1int));
    assert(front + (d + close) =~= expr + seq!['}'] + tail);
}

/// A variable in braces has no operator in it.
proof fn lemma_nested_operator(other: Seq<char>)
    requires
        is_plain_name(other),
    ensures
        keeps_operator(Operator::DefaultNonEmpty, "${"@ + other + "}"@),
{
    reveal_strlit("?");
    reveal_strlit(":?");
    reveal_strlit("${");
    reveal_strlit("}");
    let d = "${"@ + other + "}"@;
    assert forall|j: int| 0 <= j < d.len() implies !is_operator_char(#[trigger] d[j]) by {
        if 2 <= j < d.len() - 1 {
            assert(d[j] == other[j - 2]);
        }
    }
    if text::contains_text(d, "?"@) {
        let j = choose|j: int| text::occurs_at(d, "?"@, j);
        assert(d.subrange(j, j + 1)[0] == d[j]);
    }
    if text::contains_text(d, ":?"@) {
        let j = choose|j: int| text::occurs_at(d, ":?"@, j);
        assert(d.subrange(j, j + 2)[0] == d[j]);
    }
}

/// A variable in braces stands for its value at every level.
proof fn lemma_nested_value(other: Seq<char>, values: Map<Seq<char>, Seq<char>>, levels: nat)
    requires
        is_plain_name(other),
        levels > 0,
        values.contains_key(other),
    ensures
        expand("${"@ + other + "}"@, values, levels) == Expansion::Ok(values[other]),
{
    reveal_strlit("${");
    reveal_strlit("}");
    let d = "${"@ + other + "}"@;
    lemma_plain_name(other);
    assert(d.skip(2) =~= other + seq!['}']);
    lemma_closing(other, seq!['}'], 0);
    assert(closing_brace(seq!['}'], 0) == Some(0int));
    assert(d.subrange(2, 2int + other.len()) =~= other);
    assert(d.skip(3int + other.len()) =~= seq![]);
    assert(expand_chars(seq![], values, levels) == Expansion::Ok(seq![]));
    assert(values[other] + Seq::<char>::empty() =~= values[other]);
    assert(d[0] == '$' && d[1] == '{');
}

/// The text behind an operator is itself expanded: in `${name:-${other}}`, the value of the other
/// variable stands in for an empty or unset one.
pub proof fn law_a_default_may_be_a_variable(
    name: Seq<char>,
    other: Seq<char>,
    tail: Seq<char>,
    values: Map<Seq<char>, Seq<char>>,
)
    requires
        is_plain_name(name),
        is_plain_name(other),
        !values.contains_key(name) || values[name].len() == 0,
        values.contains_key(other),
    ensures
        value_then(
            values[other],
            interpolated(tail, values),
            interpolated("${"@ + name + ":-${"@ + other + "}}"@ + tail, values),
        ),
{
    let d = "${"@ + other + "}"@;
    let expr = name + ":-"@ + d;
    lemma_plain_name(name);
    lemma_plain_name(other);
    lemma_nested_closing(name, other, tail);
    lemma_braced(expr, tail, values);
    lemma_nested_operator(other);
    lemma_split_operator(Operator::DefaultNonEmpty, name, d);
    lemma_nested_value(other, values, (MAX_INTERPOLATION_DEPTH - 1) as nat);
    assert("${"@ + name + ":-${"@ + other + "}}"@ + tail =~= "${"@ + expr + "}"@ + tail) by {
        reveal_strlit(":-");
        reveal_strlit(":-${");
        reveal_strlit("${");
        reveal_strlit("}");
        reveal_strlit("}}");
    }
}

/// `$name` stands for the value of a variable, and for nothing where it is unset. The name reaches
/// as far as there are characters of names.
pub proof fn law_a_named_variable_stands_for_its_value(
    name: Seq<char>,
    tail: Seq<char>,
    values: Map<Seq<char>, Seq<char>>,
)
    requires
        name.len() > 0,
        is_name_start(name[0]),
        forall|i: int| 0 <= i < name.len() ==> is_name_char(#[trigger] name[i]),
        tail.len() > 0 ==> !is_name_char(tail[0]),
    ensures
        ({
            let whole = interpolated("$"@ + name + tail, values);
            let rest = interpolated(tail, values);
            &&& values.contains_key(name) ==> value_then(values[name], rest, whole)
            &&& !values.contains_key(name) ==> value_then(seq![], rest, whole)
        }),
{
    reveal_strlit("$");
    let s = "$"@ + name + tail;
    let n = name.len() as int;
    assert(s.skip(1) =~= name + tail);
    lemma_whole_name(name, tail);
    assert(s.subrange(1, 1 + n) =~= name);
    assert(s.skip(1 + n) =~= tail);
    assert(s[0] == '$' && s[1] == name[0]);
    lemma_plain_name(name);
}

proof fn lemma_whole_name(name: Seq<char>, tail: Seq<char>)
    requires
        forall|i: int| 0 <= i < name.len() ==> is_name_char(#[trigger] name[i]),
        tail.len() > 0 ==> !is_name_char(tail[0]),
    ensures
        name_len(name + tail) == name.len(),
    decreases name.len(),
{
    if name.len() == 0 {
        assert(name + tail =~= tail);
    } else {
        assert((name + tail).skip(1) =~= name.skip(1) + tail);
        lemma_whole_name(name.skip(1), tail);
    }
}

/// An expression whose brace is not closed is an error.
pub proof fn law_an_open_expression_is_an_error(
    s: Seq<char>,
    values: Map<Seq<char>, Seq<char>>,
)
    requires
        !s.contains('}'),
    ensures
        interpolated("${"@ + s, values) is Err,
{
    reveal_strlit("${");
    let whole = "${"@ + s;
    assert(whole.skip(2) =~= s);
    lemma_closing_brace(s, 0);
    assert(whole[0] == '$' && whole[1] == '{');
}

} // verus!
