//! Variables and the dotenv files that define them.
use vstd::hash_map::StringHashMap;
use vstd::prelude::*;

use crate::text;

verus! {

/// A set of variables with their values.
pub struct Variables {
    values: StringHashMap<String>,
}

impl View for Variables {
    type V = Map<Seq<char>, Seq<char>>;

    closed spec fn view(&self) -> Map<Seq<char>, Seq<char>> {
        self.values@.map_values(|v: String| v@)
    }
}

impl Variables {
    /// No variables.
    pub fn new() -> (v: Variables)
        ensures
            v@ == Map::<Seq<char>, Seq<char>>::empty(),
    {
        let v = Variables { values: StringHashMap::new() };
        assert(v@ =~= Map::<Seq<char>, Seq<char>>::empty());
        v
    }

    /// Defines a variable, replacing its earlier value.
    pub fn insert(&mut self, name: String, value: String)
        ensures
            final(self)@ == old(self)@.insert(name@, value@),
    {
        self.values.insert(name, value);
        assert(self@ =~= old(self)@.insert(name@, value@));
    }

    /// The value of a variable, where it is defined.
    pub fn get(&self, name: &str) -> (r: Option<String>)
        ensures
            match r {
                Some(value) => self@.contains_key(name@) && self@[name@] == value@,
                None => !self@.contains_key(name@),
            },
    {
        match self.values.get(name) {
            Some(value) => Some(value.clone()),
            None => None,
        }
    }

    /// Defines every variable of `other`, whose values win.
    pub fn extend(&mut self, other: Variables)
        ensures
            final(self)@ == old(self)@.union_prefer_right(other@),
    {
        self.values.union_prefer_right(other.values);
        assert(self@ =~= old(self)@.union_prefer_right(other@));
    }
}

/// The character that an escaped character stands for inside quotes of the given kind.
pub open spec fn unescaped(quote: char, c: char) -> char {
    if quote == '"' && c == 'n' {
        '\n'
    } else if quote == '"' && c == 'r' {
        '\r'
    } else if quote == '"' && c == 't' {
        '\t'
    } else {
        c
    }
}

/// A quoted value that starts with `current` and may go on in the lines of `rest`: its text, and
/// the lines after the one that closes it. A value that is never closed takes every line.
pub open spec fn quoted_value(
    current: Seq<char>,
    quote: char,
    escaped: bool,
    rest: Seq<Seq<char>>,
) -> (Seq<char>, Seq<Seq<char>>)
    decreases rest.len(), current.len(),
{
    if current.len() == 0 {
        if rest.len() == 0 {
            (seq![], seq![])
        } else {
            let (value, after) = quoted_value(rest[0], quote, escaped, rest.skip(1));
            (seq!['\n'] + value, after)
        }
    } else {
        let c = current[0];
        if escaped {
            let (value, after) = quoted_value(current.skip(1), quote, false, rest);
            (seq![unescaped(quote, c)] + value, after)
        } else if quote == '"' && c == '\\' {
            quoted_value(current.skip(1), quote, true, rest)
        } else if c == quote {
            (seq![], rest)
        } else {
            let (value, after) = quoted_value(current.skip(1), quote, false, rest);
            (seq![c] + value, after)
        }
    }
}

/// The characters of an unquoted value: a backslash takes the next character as it is, and a hash
/// after whitespace starts a comment.
pub open spec fn unquoted_chars(s: Seq<char>, escaped: bool, after_white: bool) -> Seq<char>
    decreases s.len(),
{
    if s.len() == 0 {
        seq![]
    } else {
        let c = s[0];
        if !escaped && c == '\\' {
            unquoted_chars(s.skip(1), true, after_white)
        } else if !escaped && c == '#' && after_white {
            seq![]
        } else {
            seq![c] + unquoted_chars(s.skip(1), false, text::is_white(c))
        }
    }
}

/// The value that starts with `v` and may go on in the lines of `rest`, and the lines after it.
pub open spec fn env_value(v: Seq<char>, rest: Seq<Seq<char>>) -> (Seq<char>, Seq<Seq<char>>) {
    if v.len() > 0 && v[0] == '"' {
        quoted_value(v.skip(1), '"', false, rest)
    } else if v.len() > 0 && v[0] == '\'' {
        quoted_value(v.skip(1), '\'', false, rest)
    } else {
        (text::trim_end_view(unquoted_chars(v, false, false)), rest)
    }
}

/// The definition that a line holds: a name and the text after its equals sign.
pub open spec fn env_definition(line: Seq<char>) -> Option<(Seq<char>, Seq<char>)> {
    let line = text::trim_start_view(line);
    if line.len() == 0 || line[0] == '#' {
        None
    } else {
        let line = match text::strip_prefix_view(line, "export "@) {
            Some(rest) => text::trim_start_view(rest),
            None => line,
        };
        match text::split_once_view(line, '=') {
            Some((name, value)) => if text::trim_view(name).len() == 0 {
                None
            } else {
                Some((text::trim_view(name), text::trim_start_view(value)))
            },
            None => None,
        }
    }
}

/// The variables that the lines define, on top of those of `defined`; later definitions win.
pub open spec fn env_lines(
    lines: Seq<Seq<char>>,
    defined: Map<Seq<char>, Seq<char>>,
) -> Map<Seq<char>, Seq<char>>
    decreases lines.len(),
    via env_lines_shrink
{
    if lines.len() == 0 {
        defined
    } else {
        match env_definition(lines[0]) {
            Some((name, value)) => {
                let (text, after) = env_value(value, lines.skip(1));
                env_lines(after, defined.insert(name, text))
            },
            None => env_lines(lines.skip(1), defined),
        }
    }
}

/// The variables that a dotenv file defines.
pub open spec fn env_file(text: Seq<char>) -> Map<Seq<char>, Seq<char>> {
    env_lines(text::lines_view(text), Map::empty())
}

proof fn lemma_quoted_value_rest(
    current: Seq<char>,
    quote: char,
    escaped: bool,
    rest: Seq<Seq<char>>,
)
    ensures
        quoted_value(current, quote, escaped, rest).1.len() <= rest.len(),
    decreases rest.len(), current.len(),
{
    if current.len() == 0 {
        if rest.len() > 0 {
            lemma_quoted_value_rest(rest[0], quote, escaped, rest.skip(1));
        }
    } else if !escaped && quote == '"' && current[0] == '\\' {
        lemma_quoted_value_rest(current.skip(1), quote, true, rest);
    } else if escaped || current[0] != quote {
        lemma_quoted_value_rest(current.skip(1), quote, false, rest);
    }
}

#[via_fn]
proof fn env_lines_shrink(lines: Seq<Seq<char>>, defined: Map<Seq<char>, Seq<char>>) {
    if lines.len() > 0 {
        match env_definition(lines[0]) {
            Some((name, value)) => {
                if value.len() > 0 {
                    lemma_quoted_value_rest(value.skip(1), '"', false, lines.skip(1));
                    lemma_quoted_value_rest(value.skip(1), '\'', false, lines.skip(1));
                }
            },
            None => {},
        }
    }
}

/// Reads a quoted value; the result holds its text and the index of the first line after it.
fn parse_quoted_env_value(
    first: &str,
    quote: char,
    lines: &Vec<&str>,
    from: usize,
) -> (r: (String, usize))
    requires
        from <= lines@.len(),
    ensures
        from <= r.1 <= lines@.len(),
        quoted_value(first@, quote, false, text::str_texts(lines@).skip(from as int)) == (
            r.0@,
            text::str_texts(lines@).skip(r.1 as int),
        ),
{
    let ghost all = text::str_texts(lines@);
    let ghost goal = quoted_value(first@, quote, false, all.skip(from as int));
    let mut value = String::new();
    let mut current = text::chars_of(first);
    let mut next: usize = from;
    let mut escaped = false;
    assert(goal.0 =~= value@ + goal.0);
    assert(current@.skip(0) =~= first@);
    loop
        invariant
            from <= next <= lines@.len(),
            all == text::str_texts(lines@),
            goal == quoted_value(first@, quote, false, all.skip(from as int)),
            ({
                let r = quoted_value(current@, quote, escaped, all.skip(next as int));
                goal == (value@ + r.0, r.1)
            }),
        decreases lines@.len() - next,
    {
        let mut i: usize = 0;
        assert(current@.skip(0) =~= current@);
        while i < current.len()
            invariant
                i <= current@.len(),
                from <= next <= lines@.len(),
                all == text::str_texts(lines@),
                goal == quoted_value(first@, quote, false, all.skip(from as int)),
                ({
                    let r = quoted_value(
                        current@.skip(i as int),
                        quote,
                        escaped,
                        all.skip(next as int),
                    );
                    goal == (value@ + r.0, r.1)
                }),
            decreases current@.len() - i,
        {
            let c = current[i];
            let ghost before = value@;
            let ghost tail = quoted_value(
                current@.skip(i + 1),
                quote,
                false,
                all.skip(next as int),
            );
            assert(current@.skip(i as int).skip(1) =~= current@.skip(i + 1));
            if escaped {
                if quote == '"' && c == 'n' {
                    value.push('\n');
                } else if quote == '"' && c == 'r' {
                    value.push('\r');
                } else if quote == '"' && c == 't' {
                    value.push('\t');
                } else {
                    value.push(c);
                }
                assert(value@ + tail.0 =~= before + (seq![unescaped(quote, c)] + tail.0));
                escaped = false;
            } else if quote == '"' && c == '\\' {
                escaped = true;
            } else if c == quote {
                assert(goal.0 =~= value@);
                return (value, next);
            } else {
                value.push(c);
                assert(value@ + tail.0 =~= before + (seq![c] + tail.0));
            }
            i += 1;
        }
        assert(current@.skip(i as int).len() == 0);
        if next >= lines.len() {
            assert(all.skip(next as int).len() == 0);
            assert(goal.0 =~= value@);
            assert(goal.1 =~= all.skip(next as int));
            return (value, next);
        }
        let ghost before = value@;
        let ghost tail = quoted_value(lines@[next as int]@, quote, escaped, all.skip(next + 1));
        assert(all.skip(next as int).skip(1) =~= all.skip(next + 1));
        assert(all.skip(next as int)[0] == lines@[next as int]@);
        value.push('\n');
        assert(value@ + tail.0 =~= before + (seq!['\n'] + tail.0));
        current = text::chars_of(lines[next]);
        next += 1;
    }
}

/// Reads an unquoted value.
fn parse_unquoted_env_value(value: &str) -> (r: String)
    ensures
        r@ == text::trim_end_view(unquoted_chars(value@, false, false)),
{
    let v = text::chars_of(value);
    let mut output = String::new();
    let mut escaped = false;
    let mut after_white = false;
    let mut i: usize = 0;
    let mut done = false;
    assert(v@.skip(0) =~= v@);
    assert(output@ + unquoted_chars(v@, false, false) =~= unquoted_chars(v@, false, false));
    while i < v.len() && !done
        invariant
            i <= v@.len(),
            v@ == value@,
            !done ==> unquoted_chars(v@, false, false) == output@ + unquoted_chars(
                v@.skip(i as int),
                escaped,
                after_white,
            ),
            done ==> unquoted_chars(v@, false, false) == output@,
        decreases v@.len() - i,
    {
        let c = v[i];
        let ghost before = output@;
        let ghost here = v@.skip(i as int);
        assert(here.skip(1) =~= v@.skip(i + 1));
        if !escaped && c == '\\' {
            escaped = true;
        } else if !escaped && c == '#' && after_white {
            assert(output@ + unquoted_chars(here, escaped, after_white) =~= output@);
            done = true;
        } else {
            output.push(c);
            after_white = text::is_whitespace(c);
            escaped = false;
            assert(output@ + unquoted_chars(v@.skip(i + 1), escaped, after_white) =~= before + (
            seq![c] + unquoted_chars(v@.skip(i + 1), escaped, after_white)));
        }
        i += 1;
    }
    proof {
        if !done {
            assert(output@ + unquoted_chars(v@.skip(i as int), escaped, after_white) =~= output@);
        }
    }
    text::trim_end(output.as_str()).to_owned()
}

/// Reads the definition on a line.
fn parse_env_definition(line: &str) -> (r: Option<(&str, &str)>)
    ensures
        text::pair_view(r) == env_definition(line@),
{
    let line = text::trim_start(line);
    if line.is_empty() || line.get_char(0) == '#' {
        return None;
    }
    let line = match text::strip_prefix(line, "export ") {
        Some(rest) => text::trim_start(rest),
        None => line,
    };
    match text::split_once(line, '=') {
        Some((name, value)) => {
            let name = text::trim(name);
            if name.is_empty() {
                None
            } else {
                Some((name, text::trim_start(value)))
            }
        },
        None => None,
    }
}

/// Reads a value; the result holds its text and the index of the first line after it.
fn parse_env_value(value: &str, lines: &Vec<&str>, from: usize) -> (r: (String, usize))
    requires
        from <= lines@.len(),
    ensures
        from <= r.1 <= lines@.len(),
        env_value(value@, text::str_texts(lines@).skip(from as int)) == (
            r.0@,
            text::str_texts(lines@).skip(r.1 as int),
        ),
{
    if !value.is_empty() && value.get_char(0) == '"' {
        let rest = value.substring_char(1, value.unicode_len());
        assert(rest@ =~= value@.skip(1));
        parse_quoted_env_value(rest, '"', lines, from)
    } else if !value.is_empty() && value.get_char(0) == '\'' {
        let rest = value.substring_char(1, value.unicode_len());
        assert(rest@ =~= value@.skip(1));
        parse_quoted_env_value(rest, '\'', lines, from)
    } else {
        (parse_unquoted_env_value(value), from)
    }
}

/// Reads the variables that a dotenv file defines.
pub fn parse_env_file(file: &str) -> (values: Variables)
    ensures
        values@ == env_file(file@),
{
    let lines = text::lines(file);
    let ghost all = text::str_texts(lines@);
    let mut values = Variables::new();
    let mut next: usize = 0;
    assert(all.skip(0) =~= all);
    while next < lines.len()
        invariant
            next <= lines@.len(),
            all == text::str_texts(lines@),
            all == text::lines_view(file@),
            env_file(file@) == env_lines(all.skip(next as int), values@),
        decreases lines@.len() - next,
    {
        assert(all.skip(next as int)[0] == lines@[next as int]@);
        assert(all.skip(next as int).skip(1) =~= all.skip(next + 1));
        match parse_env_definition(lines[next]) {
            Some((name, value)) => {
                let (parsed, after) = parse_env_value(value, &lines, next + 1);
                values.insert(name.to_owned(), parsed);
                next = after;
            },
            None => {
                next += 1;
            },
        }
    }
    values
}

/// Whether a text is a name as it stands before an equals sign: it is not empty and has no equals
/// sign, no hash and no whitespace.
pub open spec fn is_env_name(name: Seq<char>) -> bool {
    &&& name.len() > 0
    &&& forall|i: int|
        0 <= i < name.len() ==> (#[trigger] name[i]) != '=' && name[i] != '#' && !text::is_white(
            name[i],
        )
}

/// Whether a text stands for itself without quotes: it has no whitespace, no quotes, no backslash
/// and no hash.
pub open spec fn is_plain_value(value: Seq<char>) -> bool {
    forall|i: int|
        0 <= i < value.len() ==> (#[trigger] value[i]) != '"' && value[i] != '\'' && value[i] != '\\'
            && value[i] != '#' && !text::is_white(value[i])
}

proof fn lemma_definition(name: Seq<char>, value: Seq<char>)
    requires
        is_env_name(name),
        value.len() > 0 ==> !text::is_white(value[0]),
    ensures
        env_definition(name + seq!['='] + value) == Some((name, value)),
        env_definition("export "@ + name + seq!['='] + value) == Some((name, value)),
{
    reveal_strlit("export ");
    let line = name + seq!['='] + value;
    assert(line[0] == name[0]);
    assert(!name.contains('='));
    assert(name[0] != ' ');
    text::lemma_split_once_at(name, '=', value);
    assert(name.last() == name[name.len() - 1]);
    text::lemma_trim_nothing(name);
    assert(text::trim_start_view(value) == value);
    assert(text::trim_start_view(line) == line);
    if "export "@.is_prefix_of(line) {
        assert(line.take(7)[6] == ' ');
        assert(line[6] == ' ');
        let k = name.len() as int;
        if k > 6 {
            assert(line[6] == name[6]);
        } else {
            assert(line[k] == '=');
            assert(line.take(7)[k] == "export "@[k]);
        }
    }
    let exported = "export "@ + name + seq!['='] + value;
    assert(exported[0] == 'e');
    assert(text::trim_start_view(exported) == exported);
    assert(exported.skip(7) =~= line);
    assert(exported.take(7) =~= "export "@);
}

/// A line that gives a name a plain value defines it as that value, in whatever order the lines
/// stand: the last definition of a name wins. `export` before the name changes nothing.
pub proof fn law_a_line_defines_its_variable(
    name: Seq<char>,
    value: Seq<char>,
    rest: Seq<Seq<char>>,
    defined: Map<Seq<char>, Seq<char>>,
)
    requires
        is_env_name(name),
        is_plain_value(value),
    ensures
        env_lines(seq![name + seq!['='] + value] + rest, defined) == env_lines(
            rest,
            defined.insert(name, value),
        ),
        env_lines(seq!["export "@ + name + seq!['='] + value] + rest, defined) == env_lines(
            rest,
            defined.insert(name, value),
        ),
        env_lines(seq![], defined) == defined,
{
    lemma_definition(name, value);
    lemma_plain_value(value);
    let one = seq![name + seq!['='] + value] + rest;
    let two = seq!["export "@ + name + seq!['='] + value] + rest;
    assert(one.skip(1) =~= rest);
    assert(two.skip(1) =~= rest);
    if value.len() > 0 {
        assert(value[0] != '"' && value[0] != '\'');
    }
}

proof fn lemma_plain_value(value: Seq<char>)
    requires
        is_plain_value(value),
    ensures
        unquoted_chars(value, false, false) == value,
        text::trim_end_view(value) == value,
    decreases value.len(),
{
    if value.len() > 0 {
        let rest = value.skip(1);
        assert forall|i: int| 0 <= i < rest.len() implies (#[trigger] rest[i]) != '"' && rest[i]
            != '\'' && rest[i] != '\\' && rest[i] != '#' && !text::is_white(rest[i]) by {
            assert(rest[i] == value[i + 1]);
        }
        lemma_plain_value(rest);
        assert(value[0] != '\\' && value[0] != '#' && !text::is_white(value[0]));
        assert(seq![value[0]] + rest =~= value);
        assert(value.last() == value[value.len() - 1]);
    } else {
        assert(value =~= seq![]);
    }
}

/// A value in single quotes stands for what is between them, and one in double quotes too, where it
/// has no backslash.
pub proof fn law_a_quoted_value_stands_for_itself(
    name: Seq<char>,
    value: Seq<char>,
    quote: char,
    behind: Seq<char>,
    rest: Seq<Seq<char>>,
    defined: Map<Seq<char>, Seq<char>>,
)
    requires
        is_env_name(name),
        quote == '"' || quote == '\'',
        !value.contains(quote),
        quote == '"' ==> !value.contains('\\'),
    ensures
        env_lines(
            seq![name + seq!['='] + (seq![quote] + value + seq![quote] + behind)] + rest,
            defined,
        ) == env_lines(rest, defined.insert(name, value)),
{
    let held = seq![quote] + value + seq![quote] + behind;
    assert(held[0] == quote);
    lemma_definition(name, held);
    let lines = seq![name + seq!['='] + held] + rest;
    assert(lines.skip(1) =~= rest);
    assert(held.skip(1) =~= value + (seq![quote] + behind));
    lemma_quoted(value, quote, seq![quote] + behind, rest);
    assert((seq![quote] + behind)[0] == quote);
    assert(value + Seq::<char>::empty() =~= value);
}

proof fn lemma_quoted(value: Seq<char>, quote: char, end: Seq<char>, rest: Seq<Seq<char>>)
    requires
        !value.contains(quote),
        quote == '"' ==> !value.contains('\\'),
        end.len() > 0,
        end[0] == quote,
        quote == '"' || quote == '\'',
    ensures
        quoted_value(value + end, quote, false, rest) == (value, rest),
    decreases value.len(),
{
    if value.len() == 0 {
        assert(value + end =~= end);
        assert(value =~= seq![]);
    } else {
        let u = value.skip(1);
        assert(value.contains(value[0]));
        assert forall|c: char| u.contains(c) implies value.contains(c) by {
            let k = choose|k: int| 0 <= k < u.len() && u[k] == c;
            assert(value[k + 1] == c);
        }
        assert((value + end).skip(1) =~= u + end);
        lemma_quoted(u, quote, end, rest);
        assert(seq![value[0]] + u =~= value);
    }
}

/// In double quotes a backslash and a letter stand for a line end, a carriage return or a tab, and a
/// backslash before any other character for that character; in single quotes it stands for itself.
pub proof fn law_escapes_are_read_in_double_quotes(c: char)
    ensures
        unescaped('"', 'n') == '\n',
        unescaped('"', 'r') == '\r',
        unescaped('"', 't') == '\t',
        c != 'n' && c != 'r' && c != 't' ==> unescaped('"', c) == c,
        unescaped('\'', c) == c,
{
}

/// A comment, an empty line and a line without an equals sign define nothing.
pub proof fn law_other_lines_define_nothing(
    line: Seq<char>,
    rest: Seq<Seq<char>>,
    defined: Map<Seq<char>, Seq<char>>,
)
    requires
        line.len() == 0 || line[0] == '#' || !line.contains('='),
    ensures
        env_lines(seq![line] + rest, defined) == env_lines(rest, defined),
{
    let lines = seq![line] + rest;
    assert(lines.skip(1) =~= rest);
    assert(env_definition(line) is None) by {
        let t = text::trim_start_view(line);
        if line.len() > 0 && line[0] != '#' && t.len() > 0 {
            lemma_trim_start_part(line);
            let u = match text::strip_prefix_view(t, "export "@) {
                Some(after) => text::trim_start_view(after),
                None => t,
            };
            if let Some(after) = text::strip_prefix_view(t, "export "@) {
                lemma_trim_start_part(after);
                assert forall|c: char| after.contains(c) implies t.contains(c) by {
                    let k = choose|k: int| 0 <= k < after.len() && after[k] == c;
                    assert(t[k + "export "@.len()] == c);
                }
            }
            text::lemma_find_char(u, '=');
            if let Some(k) = text::find_char(u, '=') {
                assert(u.contains(u[k]));
                assert(line.contains('='));
            }
        }
    }
}

proof fn lemma_trim_start_part(s: Seq<char>)
    ensures
        forall|c: char| text::trim_start_view(s).contains(c) ==> s.contains(c),
    decreases s.len(),
{
    if s.len() > 0 && text::is_white(s[0]) {
        lemma_trim_start_part(s.skip(1));
        assert forall|c: char| s.skip(1).contains(c) implies s.contains(c) by {
            let k = choose|k: int| 0 <= k < s.skip(1).len() && s.skip(1)[k] == c;
            assert(s[k + 1] == c);
        }
    }
}

} // verus!
