//! Text primitives: searching, splitting, trimming and number formatting, stated over the
//! sequence of characters that a string holds.
use vstd::prelude::*;

verus! {

/// `String::push` appends one character to the end of the string.
pub assume_specification[ String::push ](s: &mut String, c: char)
    ensures
        final(s)@ == old(s)@.push(c),
;

/// The characters of a string, in order.
pub fn chars_of(s: &str) -> (out: Vec<char>)
    ensures
        out@ == s@,
{
    let mut out: Vec<char> = Vec::new();
    for c in it: s.chars()
        invariant
            it.seq() == s@,
            out@ == s@.take(it.index()),
    {
        out.push(c);
    }
    out
}

/// The string that holds the given characters.
pub fn string_of(chars: &[char]) -> (out: String)
    ensures
        out@ == chars@,
{
    let mut out = String::new();
    let mut i: usize = 0;
    while i < chars.len()
        invariant
            i <= chars@.len(),
            out@ == chars@.take(i as int),
        decreases chars@.len() - i,
    {
        out.push(chars[i]);
        i += 1;
    }
    out
}

/// Whether two strings hold the same characters.
pub fn same(a: &str, b: &str) -> (r: bool)
    ensures
        r == (a@ == b@),
{
    let x = chars_of(a);
    let y = chars_of(b);
    if x.len() != y.len() {
        return false;
    }
    let mut i: usize = 0;
    while i < x.len()
        invariant
            i <= x@.len(),
            x@ == a@,
            y@ == b@,
            x@.len() == y@.len(),
            forall|j: int| 0 <= j < i ==> x@[j] == y@[j],
        decreases x@.len() - i,
    {
        if x[i] != y[i] {
            return false;
        }
        i += 1;
    }
    assert(a@ =~= b@);
    true
}

/// The position of the first `c` in `s`.
pub open spec fn find_char(s: Seq<char>, c: char) -> Option<int>
    decreases s.len(),
{
    if s.len() == 0 {
        None
    } else if s[0] == c {
        Some(0)
    } else {
        match find_char(s.skip(1), c) {
            Some(i) => Some(i + 1),
            None => None,
        }
    }
}

/// The position of the last `c` in `s`.
pub open spec fn rfind_char(s: Seq<char>, c: char) -> Option<int>
    decreases s.len(),
{
    if s.len() == 0 {
        None
    } else if s.last() == c {
        Some(s.len() - 1)
    } else {
        rfind_char(s.drop_last(), c)
    }
}

/// Where `find_char` points: at a `c` with none before it, or nowhere if there is no `c`.
pub proof fn lemma_find_char(s: Seq<char>, c: char)
    ensures
        match find_char(s, c) {
            Some(i) => 0 <= i < s.len() && s[i] == c && forall|j: int| 0 <= j < i ==> s[j] != c,
            None => forall|j: int| 0 <= j < s.len() ==> s[j] != c,
        },
    decreases s.len(),
{
    if s.len() > 0 && s[0] != c {
        let t = s.skip(1);
        lemma_find_char(t, c);
        match find_char(t, c) {
            Some(i) => {
                assert forall|j: int| 0 <= j < i + 1 implies s[j] != c by {
                    if j > 0 {
                        assert(t[j - 1] == s[j]);
                    }
                }
            },
            None => {
                assert forall|j: int| 0 <= j < s.len() implies s[j] != c by {
                    if j > 0 {
                        assert(t[j - 1] == s[j]);
                    }
                }
            },
        }
    }
}

/// Where `rfind_char` points: at a `c` with none after it, or nowhere if there is no `c`.
pub proof fn lemma_rfind_char(s: Seq<char>, c: char)
    ensures
        match rfind_char(s, c) {
            Some(i) => 0 <= i < s.len() && s[i] == c && forall|j: int|
                i < j < s.len() ==> s[j] != c,
            None => forall|j: int| 0 <= j < s.len() ==> s[j] != c,
        },
    decreases s.len(),
{
    if s.len() > 0 && s.last() != c {
        lemma_rfind_char(s.drop_last(), c);
        assert forall|j: int| 0 <= j < s.len() - 1 implies s[j] == s.drop_last()[j] by {}
    }
}

/// Finds the first `c`, as a position in characters.
pub fn find(s: &str, c: char) -> (r: Option<usize>)
    ensures
        match r {
            Some(i) => find_char(s@, c) == Some(i as int),
            None => find_char(s@, c) is None,
        },
{
    let v = chars_of(s);
    let mut i: usize = 0;
    proof {
        lemma_find_char(s@, c);
    }
    while i < v.len()
        invariant
            i <= v@.len(),
            v@ == s@,
            forall|j: int| 0 <= j < i ==> v@[j] != c,
            match find_char(s@, c) {
                Some(k) => 0 <= k < s@.len() && s@[k] == c && forall|j: int|
                    0 <= j < k ==> s@[j] != c,
                None => forall|j: int| 0 <= j < s@.len() ==> s@[j] != c,
            },
        decreases v@.len() - i,
    {
        if v[i] == c {
            return Some(i);
        }
        i += 1;
    }
    None
}

/// Finds the last `c`, as a position in characters.
pub fn rfind(s: &str, c: char) -> (r: Option<usize>)
    ensures
        match r {
            Some(i) => rfind_char(s@, c) == Some(i as int),
            None => rfind_char(s@, c) is None,
        },
{
    let v = chars_of(s);
    let mut i: usize = v.len();
    proof {
        lemma_rfind_char(s@, c);
    }
    while i > 0
        invariant
            i <= v@.len(),
            v@ == s@,
            forall|j: int| i <= j < v@.len() ==> v@[j] != c,
            match rfind_char(s@, c) {
                Some(k) => 0 <= k < s@.len() && s@[k] == c && forall|j: int|
                    k < j < s@.len() ==> s@[j] != c,
                None => forall|j: int| 0 <= j < s@.len() ==> s@[j] != c,
            },
        decreases i,
    {
        i -= 1;
        if v[i] == c {
            return Some(i);
        }
    }
    None
}

/// Whether `c` occurs in `s`.
pub fn has_char(s: &str, c: char) -> (r: bool)
    ensures
        r == s@.contains(c),
{
    proof {
        lemma_find_char(s@, c);
    }
    match find(s, c) {
        Some(i) => {
            assert(s@[i as int] == c);
            true
        },
        None => false,
    }
}

/// The text before and after the first `c`.
pub open spec fn split_once_view(s: Seq<char>, c: char) -> Option<(Seq<char>, Seq<char>)> {
    match find_char(s, c) {
        Some(i) => Some((s.take(i), s.skip(i + 1))),
        None => None,
    }
}

/// The text before and after the last `c`.
pub open spec fn rsplit_once_view(s: Seq<char>, c: char) -> Option<(Seq<char>, Seq<char>)> {
    match rfind_char(s, c) {
        Some(i) => Some((s.take(i), s.skip(i + 1))),
        None => None,
    }
}

/// The characters held by a pair of borrowed strings, if there is a pair.
pub open spec fn pair_view(pair: Option<(&str, &str)>) -> Option<(Seq<char>, Seq<char>)> {
    match pair {
        Some((a, b)) => Some((a@, b@)),
        None => None,
    }
}

/// The characters held by an optional borrowed string.
pub open spec fn opt_view(s: Option<&str>) -> Option<Seq<char>> {
    match s {
        Some(t) => Some(t@),
        None => None,
    }
}

/// The characters held by an optional string.
pub open spec fn opt_string(s: Option<String>) -> Option<Seq<char>> {
    match s {
        Some(t) => Some(t@),
        None => None,
    }
}

/// The characters held by each string of a list.
pub open spec fn texts(list: Seq<String>) -> Seq<Seq<char>> {
    list.map_values(|s: String| s@)
}

/// Splits at the first `c`.
pub fn split_once(s: &str, c: char) -> (r: Option<(&str, &str)>)
    ensures
        pair_view(r) == split_once_view(s@, c),
{
    proof {
        lemma_find_char(s@, c);
    }
    match find(s, c) {
        Some(i) => {
            let n: usize = s.unicode_len();
            let a = s.substring_char(0, i);
            let b = s.substring_char(i + 1, n);
            assert(a@ =~= s@.take(i as int));
            assert(b@ =~= s@.skip(i + 1));
            Some((a, b))
        },
        None => None,
    }
}

/// Splits at the last `c`.
pub fn rsplit_once(s: &str, c: char) -> (r: Option<(&str, &str)>)
    ensures
        pair_view(r) == rsplit_once_view(s@, c),
{
    proof {
        lemma_rfind_char(s@, c);
    }
    match rfind(s, c) {
        Some(i) => {
            let n: usize = s.unicode_len();
            let a = s.substring_char(0, i);
            let b = s.substring_char(i + 1, n);
            assert(a@ =~= s@.take(i as int));
            assert(b@ =~= s@.skip(i + 1));
            Some((a, b))
        },
        None => None,
    }
}

/// The position of the first place where `p` occurs in `s`.
pub open spec fn find_text(s: Seq<char>, p: Seq<char>) -> Option<int>
    decreases s.len(),
{
    if p.is_prefix_of(s) {
        Some(0)
    } else if s.len() == 0 {
        None
    } else {
        match find_text(s.skip(1), p) {
            Some(i) => Some(i + 1),
            None => None,
        }
    }
}

/// The position of the last place where `p` occurs in `s`.
pub open spec fn rfind_text(s: Seq<char>, p: Seq<char>) -> Option<int>
    decreases s.len(),
{
    if p.is_suffix_of(s) {
        Some(s.len() - p.len())
    } else if s.len() == 0 {
        None
    } else {
        rfind_text(s.drop_last(), p)
    }
}

/// Whether `p` occurs in `s` at position `i`.
pub open spec fn occurs_at(s: Seq<char>, p: Seq<char>, i: int) -> bool {
    0 <= i && i + p.len() <= s.len() && s.subrange(i, i + p.len()) == p
}

/// Where `find_text` points: at an occurrence with none before it, or nowhere.
pub proof fn lemma_find_text(s: Seq<char>, p: Seq<char>)
    ensures
        match find_text(s, p) {
            Some(i) => occurs_at(s, p, i) && forall|j: int| 0 <= j < i ==> !occurs_at(s, p, j),
            None => forall|j: int| !occurs_at(s, p, j),
        },
    decreases s.len(),
{
    if p.is_prefix_of(s) {
        assert(s.subrange(0, p.len() as int) =~= p);
    } else {
        assert(!occurs_at(s, p, 0));
        if s.len() > 0 {
            let t = s.skip(1);
            lemma_find_text(t, p);
            assert forall|j: int| j >= 0 && j + p.len() <= t.len() implies t.subrange(
                j,
                j + p.len(),
            ) == #[trigger] s.subrange(j + 1, j + 1 + p.len()) by {
                assert(t.subrange(j, j + p.len()) =~= s.subrange(j + 1, j + 1 + p.len()));
            }
            assert forall|j: int| occurs_at(s, p, j) implies j >= 1 && occurs_at(t, p, j - 1) by {
                assert(j != 0);
                assert(t.subrange(j - 1, j - 1 + p.len()) =~= s.subrange(j, j + p.len()));
            }
        }
    }
}

/// Where `rfind_text` points: at an occurrence with none after it, or nowhere.
pub proof fn lemma_rfind_text(s: Seq<char>, p: Seq<char>)
    ensures
        match rfind_text(s, p) {
            Some(i) => occurs_at(s, p, i) && forall|j: int| i < j ==> !occurs_at(s, p, j),
            None => forall|j: int| !occurs_at(s, p, j),
        },
    decreases s.len(),
{
    if p.is_suffix_of(s) {
        assert(s.subrange(s.len() - p.len(), s.len() as int) =~= p);
    } else {
        assert(!occurs_at(s, p, s.len() - p.len()));
        if s.len() > 0 {
            let t = s.drop_last();
            lemma_rfind_text(t, p);
            assert forall|j: int| occurs_at(s, p, j) implies occurs_at(t, p, j) by {
                assert(j != s.len() - p.len());
                assert(t.subrange(j, j + p.len()) =~= s.subrange(j, j + p.len()));
            }
            match rfind_text(t, p) {
                Some(i) => {
                    assert(t.subrange(i, i + p.len()) =~= s.subrange(i, i + p.len()));
                },
                None => {},
            }
        }
    }
}

/// Whether the characters of `p` stand in `s` at position `i`.
fn occurs(s: &Vec<char>, p: &Vec<char>, i: usize) -> (r: bool)
    requires
        i + p@.len() <= s@.len(),
    ensures
        r == occurs_at(s@, p@, i as int),
{
    let n: usize = s.len();
    let mut k: usize = 0;
    while k < p.len()
        invariant
            k <= p@.len(),
            n == s@.len(),
            i + p@.len() <= n,
            forall|j: int| 0 <= j < k ==> s@[i + j] == p@[j],
        decreases p@.len() - k,
    {
        if s[i + k] != p[k] {
            proof {
                assert(s@.subrange(i as int, i + p@.len())[k as int] == s@[i + k]);
            }
            return false;
        }
        k += 1;
    }
    assert(s@.subrange(i as int, i + p@.len()) =~= p@);
    true
}

/// Finds the first occurrence of `p`, as a position in characters.
pub fn find_str(s: &str, p: &str) -> (r: Option<usize>)
    ensures
        match r {
            Some(i) => find_text(s@, p@) == Some(i as int),
            None => find_text(s@, p@) is None,
        },
{
    let v = chars_of(s);
    let w = chars_of(p);
    proof {
        lemma_find_text(s@, p@);
    }
    if w.len() > v.len() {
        return None;
    }
    let mut i: usize = 0;
    while i <= v.len() - w.len()
        invariant
            w@.len() <= v@.len(),
            i <= v@.len() - w@.len() + 1,
            v@ == s@,
            w@ == p@,
            forall|j: int| 0 <= j < i ==> !occurs_at(s@, p@, j),
            match find_text(s@, p@) {
                Some(k) => occurs_at(s@, p@, k) && forall|j: int|
                    0 <= j < k ==> !occurs_at(s@, p@, j),
                None => forall|j: int| !occurs_at(s@, p@, j),
            },
        decreases v@.len() - w@.len() + 1 - i,
    {
        if occurs(&v, &w, i) {
            return Some(i);
        }
        if i == v.len() - w.len() {
            return None;
        }
        i += 1;
    }
    None
}

/// Finds the last occurrence of `p`, as a position in characters.
pub fn rfind_str(s: &str, p: &str) -> (r: Option<usize>)
    ensures
        match r {
            Some(i) => rfind_text(s@, p@) == Some(i as int),
            None => rfind_text(s@, p@) is None,
        },
{
    let v = chars_of(s);
    let w = chars_of(p);
    proof {
        lemma_rfind_text(s@, p@);
    }
    if w.len() > v.len() {
        return None;
    }
    let mut i: usize = v.len() - w.len();
    loop
        invariant
            w@.len() <= v@.len(),
            i <= v@.len() - w@.len(),
            v@ == s@,
            w@ == p@,
            forall|j: int| i < j ==> !occurs_at(s@, p@, j),
            match rfind_text(s@, p@) {
                Some(k) => occurs_at(s@, p@, k) && forall|j: int| k < j ==> !occurs_at(s@, p@, j),
                None => forall|j: int| !occurs_at(s@, p@, j),
            },
        decreases i,
    {
        if occurs(&v, &w, i) {
            return Some(i);
        }
        if i == 0 {
            return None;
        }
        i -= 1;
    }
}

/// The text before and after the first occurrence of `p`.
pub open spec fn split_once_text(s: Seq<char>, p: Seq<char>) -> Option<(Seq<char>, Seq<char>)> {
    match find_text(s, p) {
        Some(i) => Some((s.take(i), s.skip(i + p.len()))),
        None => None,
    }
}

/// The text before and after the last occurrence of `p`.
pub open spec fn rsplit_once_text(s: Seq<char>, p: Seq<char>) -> Option<(Seq<char>, Seq<char>)> {
    match rfind_text(s, p) {
        Some(i) => Some((s.take(i), s.skip(i + p.len()))),
        None => None,
    }
}

/// Splits at the first occurrence of `p`.
pub fn split_once_str<'a>(s: &'a str, p: &str) -> (r: Option<(&'a str, &'a str)>)
    ensures
        pair_view(r) == split_once_text(s@, p@),
{
    proof {
        lemma_find_text(s@, p@);
    }
    match find_str(s, p) {
        Some(i) => {
            let n: usize = s.unicode_len();
            let k: usize = p.unicode_len();
            let a = s.substring_char(0, i);
            let b = s.substring_char(i + k, n);
            assert(a@ =~= s@.take(i as int));
            assert(b@ =~= s@.skip(i + p@.len()));
            Some((a, b))
        },
        None => None,
    }
}

/// Splits at the last occurrence of `p`.
pub fn rsplit_once_str<'a>(s: &'a str, p: &str) -> (r: Option<(&'a str, &'a str)>)
    ensures
        pair_view(r) == rsplit_once_text(s@, p@),
{
    proof {
        lemma_rfind_text(s@, p@);
    }
    match rfind_str(s, p) {
        Some(i) => {
            let n: usize = s.unicode_len();
            let k: usize = p.unicode_len();
            let a = s.substring_char(0, i);
            let b = s.substring_char(i + k, n);
            assert(a@ =~= s@.take(i as int));
            assert(b@ =~= s@.skip(i + p@.len()));
            Some((a, b))
        },
        None => None,
    }
}

/// Whether `p` occurs anywhere in `s`.
pub open spec fn contains_text(s: Seq<char>, p: Seq<char>) -> bool {
    exists|i: int| occurs_at(s, p, i)
}

/// Whether `p` occurs anywhere in `s`.
pub fn contains_str(s: &str, p: &str) -> (r: bool)
    ensures
        r == contains_text(s@, p@),
{
    proof {
        lemma_find_text(s@, p@);
    }
    match find_str(s, p) {
        Some(i) => {
            assert(occurs_at(s@, p@, i as int));
            true
        },
        None => false,
    }
}

/// What follows the prefix `p` in `s`, where `s` starts with `p`.
pub open spec fn strip_prefix_view(s: Seq<char>, p: Seq<char>) -> Option<Seq<char>> {
    if p.is_prefix_of(s) {
        Some(s.skip(p.len() as int))
    } else {
        None
    }
}

/// Whether `s` starts with `p`.
pub fn starts_with(s: &str, p: &str) -> (r: bool)
    ensures
        r == p@.is_prefix_of(s@),
{
    let v = chars_of(s);
    let w = chars_of(p);
    if w.len() > v.len() {
        return false;
    }
    let r = occurs(&v, &w, 0);
    assert(s@.subrange(0, p@.len() as int) == p@ <==> p@.is_prefix_of(s@));
    r
}

/// Removes the prefix `p`, where `s` starts with it.
pub fn strip_prefix<'a>(s: &'a str, p: &str) -> (r: Option<&'a str>)
    ensures
        opt_view(r) == strip_prefix_view(s@, p@),
{
    if starts_with(s, p) {
        let n: usize = s.unicode_len();
        let k: usize = p.unicode_len();
        let rest = s.substring_char(k, n);
        assert(rest@ =~= s@.skip(p@.len() as int));
        Some(rest)
    } else {
        None
    }
}

/// Whether `s` ends with `p`.
pub open spec fn ends_with_view(s: Seq<char>, p: Seq<char>) -> bool {
    p.len() <= s.len() && s.skip(s.len() - p.len()) == p
}

/// Whether `s` ends with `p`.
pub fn ends_with(s: &str, p: &str) -> (r: bool)
    ensures
        r == ends_with_view(s@, p@),
{
    let n = s.unicode_len();
    let k = p.unicode_len();
    if k > n {
        return false;
    }
    assert(s@.subrange(n - k, n as int) =~= s@.skip(n - k));
    same(s.substring_char(n - k, n), p)
}

/// The characters with the Unicode White_Space property.
pub open spec fn is_white(c: char) -> bool {
    ||| '\u{9}' <= c <= '\u{d}'
    ||| c == ' '
    ||| c == '\u{85}'
    ||| c == '\u{a0}'
    ||| c == '\u{1680}'
    ||| '\u{2000}' <= c <= '\u{200a}'
    ||| c == '\u{2028}'
    ||| c == '\u{2029}'
    ||| c == '\u{202f}'
    ||| c == '\u{205f}'
    ||| c == '\u{3000}'
}

/// Whether `c` has the Unicode White_Space property.
pub fn is_whitespace(c: char) -> (r: bool)
    ensures
        r == is_white(c),
{
    ('\u{9}' <= c && c <= '\u{d}') || c == ' ' || c == '\u{85}' || c == '\u{a0}' || c == '\u{1680}'
        || ('\u{2000}' <= c && c <= '\u{200a}') || c == '\u{2028}' || c == '\u{2029}' || c
        == '\u{202f}' || c == '\u{205f}' || c == '\u{3000}'
}

/// `s` without the whitespace at its start.
pub open spec fn trim_start_view(s: Seq<char>) -> Seq<char>
    decreases s.len(),
{
    if s.len() > 0 && is_white(s[0]) {
        trim_start_view(s.skip(1))
    } else {
        s
    }
}

/// `s` without the whitespace at its end.
pub open spec fn trim_end_view(s: Seq<char>) -> Seq<char>
    decreases s.len(),
{
    if s.len() > 0 && is_white(s.last()) {
        trim_end_view(s.drop_last())
    } else {
        s
    }
}

/// `s` without the whitespace at either end.
pub open spec fn trim_view(s: Seq<char>) -> Seq<char> {
    trim_end_view(trim_start_view(s))
}

/// Removes the whitespace at the start.
pub fn trim_start(s: &str) -> (r: &str)
    ensures
        r@ == trim_start_view(s@),
{
    let v = chars_of(s);
    let n: usize = v.len();
    let mut i: usize = 0;
    assert(s@.skip(0) =~= s@);
    while i < n && is_whitespace(v[i])
        invariant
            i <= n,
            n == v@.len(),
            v@ == s@,
            trim_start_view(s@) == trim_start_view(s@.skip(i as int)),
        decreases n - i,
    {
        assert(s@.skip(i as int).skip(1) =~= s@.skip(i + 1));
        i += 1;
    }
    let r = s.substring_char(i, n);
    assert(r@ =~= s@.skip(i as int));
    r
}

/// Removes the whitespace at the end.
pub fn trim_end(s: &str) -> (r: &str)
    ensures
        r@ == trim_end_view(s@),
{
    let v = chars_of(s);
    let mut i: usize = v.len();
    assert(s@.take(i as int) =~= s@);
    while i > 0 && is_whitespace(v[i - 1])
        invariant
            i <= v@.len(),
            v@ == s@,
            trim_end_view(s@) == trim_end_view(s@.take(i as int)),
        decreases i,
    {
        assert(s@.take(i as int).drop_last() =~= s@.take(i - 1));
        i -= 1;
    }
    let r = s.substring_char(0, i);
    assert(r@ =~= s@.take(i as int));
    r
}

/// Removes the whitespace at both ends.
pub fn trim(s: &str) -> (r: &str)
    ensures
        r@ == trim_view(s@),
{
    trim_end(trim_start(s))
}

/// `s` without the `c`s at its start.
pub open spec fn trim_start_char_view(s: Seq<char>, c: char) -> Seq<char>
    decreases s.len(),
{
    if s.len() > 0 && s[0] == c {
        trim_start_char_view(s.skip(1), c)
    } else {
        s
    }
}

/// `s` without the `c`s at its end.
pub open spec fn trim_end_char_view(s: Seq<char>, c: char) -> Seq<char>
    decreases s.len(),
{
    if s.len() > 0 && s.last() == c {
        trim_end_char_view(s.drop_last(), c)
    } else {
        s
    }
}

/// Removes the `c`s at the start.
pub fn trim_start_char(s: &str, c: char) -> (r: &str)
    ensures
        r@ == trim_start_char_view(s@, c),
{
    let v = chars_of(s);
    let n: usize = v.len();
    let mut i: usize = 0;
    assert(s@.skip(0) =~= s@);
    while i < n && v[i] == c
        invariant
            i <= n,
            n == v@.len(),
            v@ == s@,
            trim_start_char_view(s@, c) == trim_start_char_view(s@.skip(i as int), c),
        decreases n - i,
    {
        assert(s@.skip(i as int).skip(1) =~= s@.skip(i + 1));
        i += 1;
    }
    let r = s.substring_char(i, n);
    assert(r@ =~= s@.skip(i as int));
    r
}

/// Removes the `c`s at the end.
pub fn trim_end_char(s: &str, c: char) -> (r: &str)
    ensures
        r@ == trim_end_char_view(s@, c),
{
    let v = chars_of(s);
    let mut i: usize = v.len();
    assert(s@.take(i as int) =~= s@);
    while i > 0 && v[i - 1] == c
        invariant
            i <= v@.len(),
            v@ == s@,
            trim_end_char_view(s@, c) == trim_end_char_view(s@.take(i as int), c),
        decreases i,
    {
        assert(s@.take(i as int).drop_last() =~= s@.take(i - 1));
        i -= 1;
    }
    let r = s.substring_char(0, i);
    assert(r@ =~= s@.take(i as int));
    r
}

/// The pieces of `s` between the `c`s: one more than there are `c`s.
pub open spec fn split_view(s: Seq<char>, c: char) -> Seq<Seq<char>>
    decreases s.len(),
    via split_view_shrinks
{
    match find_char(s, c) {
        Some(i) => seq![s.take(i)] + split_view(s.skip(i + 1), c),
        None => seq![s],
    }
}

#[via_fn]
proof fn split_view_shrinks(s: Seq<char>, c: char) {
    lemma_find_char(s, c);
}

/// The characters held by each borrowed string of a list.
pub open spec fn str_texts(list: Seq<&str>) -> Seq<Seq<char>> {
    list.map_values(|s: &str| s@)
}

/// Splits at every `c`.
pub fn split(s: &str, c: char) -> (r: Vec<&str>)
    ensures
        str_texts(r@) == split_view(s@, c),
{
    let mut out: Vec<&str> = Vec::new();
    let mut rest = s;
    loop
        invariant
            split_view(s@, c) == str_texts(out@) + split_view(rest@, c),
        decreases rest@.len(),
    {
        proof {
            lemma_find_char(rest@, c);
        }
        match split_once(rest, c) {
            Some((piece, after)) => {
                let ghost before = out@;
                out.push(piece);
                assert(str_texts(out@) =~= str_texts(before).push(piece@));
                assert(str_texts(before) + (seq![piece@] + split_view(after@, c)) =~= str_texts(
                    out@,
                ) + split_view(after@, c));
                rest = after;
            },
            None => {
                let ghost before = out@;
                out.push(rest);
                assert(str_texts(out@) =~= str_texts(before) + seq![rest@]);
                return out;
            },
        }
    }
}

/// A line without the carriage return at its end.
pub open spec fn without_cr(s: Seq<char>) -> Seq<char> {
    if s.len() > 0 && s.last() == '\r' {
        s.drop_last()
    } else {
        s
    }
}

/// The lines of `s`: each ends with a line feed, optionally preceded by a carriage return; the
/// last may have no line feed, and then keeps all its characters.
pub open spec fn lines_view(s: Seq<char>) -> Seq<Seq<char>>
    decreases s.len(),
    via lines_view_shrinks
{
    if s.len() == 0 {
        seq![]
    } else {
        match find_char(s, '\n') {
            Some(i) => seq![without_cr(s.take(i))] + lines_view(s.skip(i + 1)),
            None => seq![s],
        }
    }
}

#[via_fn]
proof fn lines_view_shrinks(s: Seq<char>) {
    lemma_find_char(s, '\n');
}

/// Removes the carriage return at the end.
fn strip_cr(s: &str) -> (r: &str)
    ensures
        r@ == without_cr(s@),
{
    let n: usize = s.unicode_len();
    if n > 0 && s.get_char(n - 1) == '\r' {
        let r = s.substring_char(0, n - 1);
        assert(r@ =~= s@.drop_last());
        r
    } else {
        s
    }
}

/// Splits into lines.
pub fn lines(s: &str) -> (r: Vec<&str>)
    ensures
        str_texts(r@) == lines_view(s@),
{
    let mut out: Vec<&str> = Vec::new();
    let mut rest = s;
    assert(str_texts(out@) + lines_view(rest@) =~= lines_view(rest@));
    while !rest.is_empty()
        invariant
            lines_view(s@) == str_texts(out@) + lines_view(rest@),
        decreases rest@.len(),
    {
        proof {
            lemma_find_char(rest@, '\n');
        }
        match split_once(rest, '\n') {
            Some((piece, after)) => {
                let ghost before = out@;
                let line = strip_cr(piece);
                out.push(line);
                assert(str_texts(out@) =~= str_texts(before).push(line@));
                assert(str_texts(before) + (seq![line@] + lines_view(after@)) =~= str_texts(out@)
                    + lines_view(after@));
                rest = after;
            },
            None => {
                let ghost before = out@;
                out.push(rest);
                assert(str_texts(out@) =~= str_texts(before) + seq![rest@]);
                return out;
            },
        }
    }
    assert(str_texts(out@) + lines_view(rest@) =~= str_texts(out@));
    out
}

/// The length of the longest prefix of `s` without whitespace.
pub open spec fn word_len(s: Seq<char>) -> nat
    decreases s.len(),
{
    if s.len() == 0 || is_white(s[0]) {
        0
    } else {
        1 + word_len(s.skip(1))
    }
}

/// The maximal runs of non-whitespace characters in `s`.
pub open spec fn words_view(s: Seq<char>) -> Seq<Seq<char>>
    decreases s.len(),
    via words_view_shrinks
{
    let t = trim_start_view(s);
    if t.len() == 0 {
        seq![]
    } else {
        let n = word_len(t);
        seq![t.take(n as int)] + words_view(t.skip(n as int))
    }
}

proof fn lemma_trim_start_len(s: Seq<char>)
    ensures
        trim_start_view(s).len() <= s.len(),
        trim_start_view(s).len() > 0 ==> !is_white(trim_start_view(s)[0]),
    decreases s.len(),
{
    if s.len() > 0 && is_white(s[0]) {
        lemma_trim_start_len(s.skip(1));
    }
}

proof fn lemma_word_len(s: Seq<char>)
    ensures
        word_len(s) <= s.len(),
        s.len() > 0 && !is_white(s[0]) ==> word_len(s) > 0,
    decreases s.len(),
{
    if s.len() > 0 && !is_white(s[0]) {
        lemma_word_len(s.skip(1));
    }
}

#[via_fn]
proof fn words_view_shrinks(s: Seq<char>) {
    lemma_trim_start_len(s);
    lemma_word_len(trim_start_view(s));
}

/// Splits into words.
pub fn split_whitespace(s: &str) -> (r: Vec<&str>)
    ensures
        str_texts(r@) == words_view(s@),
{
    let mut out: Vec<&str> = Vec::new();
    let mut rest = s;
    assert(str_texts(out@) + words_view(s@) =~= words_view(s@));
    loop
        invariant
            words_view(s@) == str_texts(out@) + words_view(rest@),
        decreases rest@.len(),
    {
        let t = trim_start(rest);
        proof {
            lemma_trim_start_len(rest@);
            lemma_word_len(t@);
        }
        if t.is_empty() {
            assert(str_texts(out@) + words_view(rest@) =~= str_texts(out@));
            return out;
        }
        let v = chars_of(t);
        let n: usize = v.len();
        let mut i: usize = 0;
        assert(t@.skip(0) =~= t@);
        while i < n && !is_whitespace(v[i])
            invariant
                i <= n,
                n == v@.len(),
                v@ == t@,
                word_len(t@) == i + word_len(t@.skip(i as int)),
            decreases n - i,
        {
            assert(t@.skip(i as int).skip(1) =~= t@.skip(i + 1));
            i += 1;
        }
        assert(i == word_len(t@));
        let word = t.substring_char(0, i);
        let after = t.substring_char(i, n);
        assert(word@ =~= t@.take(i as int));
        assert(after@ =~= t@.skip(i as int));
        let ghost before = out@;
        out.push(word);
        assert(str_texts(out@) =~= str_texts(before).push(word@));
        assert(str_texts(before) + (seq![word@] + words_view(after@)) =~= str_texts(out@)
            + words_view(after@));
        rest = after;
    }
}

/// The decimal digit for a number below ten.
pub open spec fn digit_char(d: nat) -> char {
    ('0' as int + d) as char
}

/// The decimal numeral of `n`.
pub open spec fn decimal_view(n: nat) -> Seq<char>
    decreases n,
{
    if n < 10 {
        seq![digit_char(n)]
    } else {
        decimal_view(n / 10).push(digit_char(n % 10))
    }
}

fn digit(d: u64) -> (c: char)
    requires
        d < 10,
    ensures
        c == digit_char(d as nat),
{
    if d == 0 {
        '0'
    } else if d == 1 {
        '1'
    } else if d == 2 {
        '2'
    } else if d == 3 {
        '3'
    } else if d == 4 {
        '4'
    } else if d == 5 {
        '5'
    } else if d == 6 {
        '6'
    } else if d == 7 {
        '7'
    } else if d == 8 {
        '8'
    } else {
        '9'
    }
}

/// Formats a number in decimal.
pub fn decimal(n: u64) -> (s: String)
    ensures
        s@ == decimal_view(n as nat),
    decreases n,
{
    if n < 10 {
        let mut s = String::new();
        s.push(digit(n));
        assert(s@ =~= seq![digit_char(n as nat)]);
        s
    } else {
        let mut s = decimal(n / 10);
        s.push(digit(n % 10));
        s
    }
}

/// The decimal numeral of `n`, with a minus sign where it is negative.
pub open spec fn signed_decimal_view(n: int) -> Seq<char> {
    if n < 0 {
        seq!['-'] + decimal_view((-n) as nat)
    } else {
        decimal_view(n as nat)
    }
}

/// Formats a signed number in decimal.
pub fn signed_decimal(n: i64) -> (s: String)
    ensures
        s@ == signed_decimal_view(n as int),
{
    if n < 0 {
        let magnitude: u64 = (-(n as i128)) as u64;
        let mut s = String::new();
        s.push('-');
        s.append(decimal(magnitude).as_str());
        assert(s@ =~= seq!['-'] + decimal_view((-n) as nat));
        s
    } else {
        decimal(n as u64)
    }
}

/// Whether `c` is an ASCII decimal digit.
pub open spec fn is_digit(c: char) -> bool {
    '0' <= c <= '9'
}

/// The number that a run of decimal digits denotes.
pub open spec fn digits_value(s: Seq<char>) -> nat
    decreases s.len(),
{
    if s.len() == 0 {
        0
    } else {
        digits_value(s.drop_last()) * 10 + (s.last() as int - '0' as int) as nat
    }
}

/// The digits of an unsigned numeral: what follows its optional plus sign.
pub open spec fn unsigned_digits(s: Seq<char>) -> Seq<char> {
    if s.len() > 0 && s[0] == '+' {
        s.skip(1)
    } else {
        s
    }
}

/// The number that `s` denotes in decimal, where it denotes one of at most `max`.
pub open spec fn parse_unsigned_view(s: Seq<char>, max: nat) -> Option<nat> {
    let d = unsigned_digits(s);
    if d.len() > 0 && (forall|i: int| 0 <= i < d.len() ==> is_digit(d[i])) && digits_value(d)
        <= max {
        Some(digits_value(d))
    } else {
        None
    }
}

/// Reads a run of digits whose value is at most `max`.
fn parse_digits(v: &[char], max: u64) -> (r: Option<u64>)
    ensures
        match r {
            Some(n) => v@.len() > 0 && (forall|i: int| 0 <= i < v@.len() ==> is_digit(v@[i])) && n
                == digits_value(v@) && n <= max,
            None => !(v@.len() > 0 && (forall|i: int| 0 <= i < v@.len() ==> is_digit(v@[i]))
                && digits_value(v@) <= max),
        },
{
    if v.len() == 0 {
        return None;
    }
    let mut value: u64 = 0;
    let mut over = false;
    let mut i: usize = 0;
    while i < v.len()
        invariant
            i <= v@.len(),
            forall|j: int| 0 <= j < i ==> is_digit(v@[j]),
            !over ==> value == digits_value(v@.take(i as int)) && value <= max,
            over ==> digits_value(v@.take(i as int)) > max,
        decreases v@.len() - i,
    {
        let c = v[i];
        if !('0' <= c && c <= '9') {
            return None;
        }
        assert(v@.take(i + 1).drop_last() =~= v@.take(i as int));
        if !over {
            let next: u128 = value as u128 * 10 + (c as u32 - '0' as u32) as u128;
            if next > max as u128 {
                over = true;
            } else {
                value = next as u64;
            }
        }
        i += 1;
    }
    assert(v@.take(i as int) =~= v@);
    if over {
        None
    } else {
        Some(value)
    }
}

/// Reads an unsigned decimal number of at most `max`, with an optional plus sign.
pub fn parse_unsigned(s: &str, max: u64) -> (r: Option<u64>)
    ensures
        match r {
            Some(n) => parse_unsigned_view(s@, max as nat) == Some(n as nat),
            None => parse_unsigned_view(s@, max as nat) is None,
        },
{
    let v = chars_of(s);
    if v.len() > 0 && v[0] == '+' {
        let d = vstd::slice::slice_subrange(v.as_slice(), 1, v.len());
        assert(d@ =~= s@.skip(1));
        parse_digits(d, max)
    } else {
        parse_digits(v.as_slice(), max)
    }
}

/// The number that `s` denotes as a signed decimal, where it denotes one in `min ..= max`.
pub open spec fn parse_signed_view(s: Seq<char>, min: int, max: int) -> Option<int> {
    if s.len() > 0 && s[0] == '-' {
        let d = s.skip(1);
        if d.len() > 0 && (forall|i: int| 0 <= i < d.len() ==> is_digit(d[i])) && -digits_value(d)
            >= min {
            Some(-digits_value(d))
        } else {
            None
        }
    } else {
        match parse_unsigned_view(s, max as nat) {
            Some(n) => Some(n as int),
            None => None,
        }
    }
}

/// Reads a signed decimal number in `min ..= max`, with an optional sign.
pub fn parse_signed(s: &str, min: i64, max: i64) -> (r: Option<i64>)
    requires
        min <= 0 <= max,
    ensures
        match r {
            Some(n) => parse_signed_view(s@, min as int, max as int) == Some(n as int),
            None => parse_signed_view(s@, min as int, max as int) is None,
        },
{
    let v = chars_of(s);
    if v.len() > 0 && v[0] == '-' {
        let d = vstd::slice::slice_subrange(v.as_slice(), 1, v.len());
        assert(d@ =~= s@.skip(1));
        let limit: u64 = (-(min as i128)) as u64;
        match parse_digits(d, limit) {
            Some(n) => Some((-(n as i128)) as i64),
            None => None,
        }
    } else {
        match parse_unsigned(s, max as u64) {
            Some(n) => Some(n as i64),
            None => None,
        }
    }
}

/// Whether a list holds a text.
pub fn list_contains(list: &[String], item: &str) -> (r: bool)
    ensures
        r == texts(list@).contains(item@),
{
    let ghost all = texts(list@);
    let mut i: usize = 0;
    while i < list.len()
        invariant
            i <= list@.len(),
            all == texts(list@),
            forall|j: int| 0 <= j < i ==> all[j] != item@,
        decreases list@.len() - i,
    {
        assert(all[i as int] == list@[i as int]@);
        if same(list[i].as_str(), item) {
            return true;
        }
        i += 1;
    }
    false
}

/// A copy of a list of texts.
pub fn copy_list(list: &Vec<String>) -> (out: Vec<String>)
    ensures
        texts(out@) == texts(list@),
{
    let mut out: Vec<String> = Vec::new();
    let mut i: usize = 0;
    while i < list.len()
        invariant
            i <= list@.len(),
            out@.len() == i,
            forall|j: int| 0 <= j < i ==> (#[trigger] out@[j])@ == list@[j]@,
        decreases list@.len() - i,
    {
        out.push(list[i].clone());
        i += 1;
    }
    assert(texts(out@) =~= texts(list@));
    out
}

/// A list without its repetitions: the first of each text stays, in order.
pub open spec fn unique_view(list: Seq<Seq<char>>) -> Seq<Seq<char>>
    decreases list.len(),
{
    if list.len() == 0 {
        seq![]
    } else {
        let before = unique_view(list.drop_last());
        if before.contains(list.last()) {
            before
        } else {
            before.push(list.last())
        }
    }
}

/// Drops the repetitions from a list; the first of each text stays where it is.
pub fn unique(list: &[String]) -> (out: Vec<String>)
    ensures
        texts(out@) == unique_view(texts(list@)),
{
    let ghost all = texts(list@);
    let mut out: Vec<String> = Vec::new();
    let mut i: usize = 0;
    assert(texts(out@) =~= unique_view(all.take(0)));
    while i < list.len()
        invariant
            i <= list@.len(),
            all == texts(list@),
            texts(out@) == unique_view(all.take(i as int)),
        decreases list@.len() - i,
    {
        let ghost before = out@;
        assert(all.take(i + 1).drop_last() =~= all.take(i as int));
        assert(all.take(i + 1).last() == list@[i as int]@);
        if !list_contains(out.as_slice(), list[i].as_str()) {
            out.push(list[i].clone());
            assert(texts(out@) =~= texts(before).push(list@[i as int]@));
        }
        i += 1;
    }
    assert(all.take(i as int) =~= all);
    out
}

/// Whether `x` occurs in the list ahead of every `y`.
pub open spec fn occurs_before(list: Seq<Seq<char>>, x: Seq<char>, y: Seq<char>) -> bool {
    exists|a: int|
        0 <= a < list.len() && #[trigger] list[a] == x && forall|b: int|
            0 <= b <= a ==> list[b] != y
}

/// Dropping repetitions keeps exactly the texts of the list, each once, in the order in which they
/// first occur.
pub proof fn law_unique_keeps_first_occurrences(list: Seq<Seq<char>>)
    ensures
        unique_view(list).no_duplicates(),
        forall|t: Seq<char>| unique_view(list).contains(t) <==> list.contains(t),
        forall|i: int, j: int|
            0 <= i < j < unique_view(list).len() ==> #[trigger] occurs_before(
                list,
                unique_view(list)[i],
                unique_view(list)[j],
            ),
    decreases list.len(),
{
    let u = unique_view(list);
    if list.len() > 0 {
        let init = list.drop_last();
        let before = unique_view(init);
        law_unique_keeps_first_occurrences(init);
        assert forall|t: Seq<char>| u.contains(t) <==> list.contains(t) by {
            if list.contains(t) {
                let k = choose|k: int| 0 <= k < list.len() && list[k] == t;
                if k < init.len() {
                    assert(init[k] == t);
                    assert(init.contains(t));
                    assert(before.contains(t));
                    let m = choose|m: int| 0 <= m < before.len() && before[m] == t;
                    assert(u[m] == t);
                } else if !before.contains(t) {
                    assert(u[u.len() - 1] == t);
                }
            }
            if u.contains(t) {
                let m = choose|m: int| 0 <= m < u.len() && u[m] == t;
                if m < before.len() {
                    assert(before[m] == t);
                    assert(init.contains(t));
                    let k = choose|k: int| 0 <= k < init.len() && init[k] == t;
                    assert(list[k] == t);
                } else {
                    assert(list[list.len() - 1] == t);
                }
            }
        }
        assert forall|i: int, j: int| 0 <= i < j < u.len() implies #[trigger] occurs_before(
            list,
            u[i],
            u[j],
        ) by {
            if j < before.len() {
                assert(before[i] == u[i] && before[j] == u[j]);
                assert(occurs_before(init, before[i], before[j]));
                let a = choose|a: int|
                    0 <= a < init.len() && #[trigger] init[a] == before[i] && forall|b: int|
                        0 <= b <= a ==> init[b] != before[j];
                assert(list[a] == u[i]);
                assert forall|b: int| 0 <= b <= a implies list[b] != u[j] by {
                    assert(init[b] == list[b]);
                }
            } else {
                assert(before.contains(u[i])) by {
                    assert(before[i] == u[i]);
                }
                assert(init.contains(u[i]));
                let a = choose|a: int| 0 <= a < init.len() && init[a] == u[i];
                assert(list[a] == u[i]);
                assert forall|b: int| 0 <= b <= a implies list[b] != u[j] by {
                    assert(init[b] == list[b]);
                    assert(init.contains(init[b]));
                }
            }
        }
    }
}

/// Dropping repetitions a second time changes nothing.
pub proof fn law_unique_is_idempotent(list: Seq<Seq<char>>)
    ensures
        unique_view(unique_view(list)) == unique_view(list),
    decreases list.len(),
{
    law_unique_keeps_first_occurrences(list);
    lemma_unique_of_distinct(unique_view(list));
}

proof fn lemma_unique_of_distinct(list: Seq<Seq<char>>)
    requires
        list.no_duplicates(),
    ensures
        unique_view(list) == list,
    decreases list.len(),
{
    if list.len() > 0 {
        let init = list.drop_last();
        assert(init.no_duplicates());
        lemma_unique_of_distinct(init);
        assert(!init.contains(list.last()));
        assert(init.push(list.last()) =~= list);
    } else {
        assert(list =~= seq![]);
    }
}

/// The texts of a list, with a separator between each two.
pub open spec fn join_view(list: Seq<Seq<char>>, separator: Seq<char>) -> Seq<char>
    decreases list.len(),
{
    if list.len() == 0 {
        seq![]
    } else if list.len() == 1 {
        list[0]
    } else {
        join_view(list.drop_last(), separator) + separator + list.last()
    }
}

/// Joins the texts of a list with a separator.
pub fn join(list: &[String], separator: &str) -> (out: String)
    ensures
        out@ == join_view(texts(list@), separator@),
{
    let ghost all = texts(list@);
    if list.len() == 0 {
        return String::new();
    }
    let mut out = list[0].clone();
    let mut i: usize = 1;
    assert(all.take(1)[0] == out@);
    while i < list.len()
        invariant
            1 <= i <= list@.len(),
            all == texts(list@),
            out@ == join_view(all.take(i as int), separator@),
        decreases list@.len() - i,
    {
        assert(all.take(i + 1).drop_last() =~= all.take(i as int));
        assert(all.take(i + 1).last() == list@[i as int]@);
        out.append(separator);
        out.append(list[i].as_str());
        i += 1;
    }
    assert(all.take(i as int) =~= all);
    out
}

/// Splitting at the first `c` gives back two texts that were put together with a `c` between
/// them, where the first has no `c`.
pub proof fn lemma_split_once_at(a: Seq<char>, c: char, b: Seq<char>)
    requires
        !a.contains(c),
    ensures
        find_char(a + seq![c] + b, c) == Some(a.len() as int),
        split_once_view(a + seq![c] + b, c) == Some((a, b)),
{
    let s = a + seq![c] + b;
    lemma_find_char(s, c);
    assert(s[a.len() as int] == c);
    assert forall|j: int| 0 <= j < a.len() implies s[j] != c by {
        assert(a.contains(a[j]));
    }
    assert(s.take(a.len() as int) =~= a);
    assert(s.skip(a.len() as int + 1) =~= b);
}

/// Splitting at the last `c` gives back two texts that were put together with a `c` between them,
/// where the second has no `c`.
pub proof fn lemma_rsplit_once_at(a: Seq<char>, c: char, b: Seq<char>)
    requires
        !b.contains(c),
    ensures
        rfind_char(a + seq![c] + b, c) == Some(a.len() as int),
        rsplit_once_view(a + seq![c] + b, c) == Some((a, b)),
{
    let s = a + seq![c] + b;
    lemma_rfind_char(s, c);
    assert(s[a.len() as int] == c);
    assert forall|j: int| a.len() < j < s.len() implies s[j] != c by {
        assert(b.contains(b[j - a.len() - 1]));
    }
    assert(s.take(a.len() as int) =~= a);
    assert(s.skip(a.len() as int + 1) =~= b);
}

/// The pieces of a split hold no separator.
pub proof fn lemma_split_pieces(s: Seq<char>, c: char)
    ensures
        split_view(s, c).len() > 0,
        forall|i: int|
            0 <= i < split_view(s, c).len() ==> !(#[trigger] split_view(s, c)[i]).contains(c),
    decreases s.len(),
{
    lemma_find_char(s, c);
    match find_char(s, c) {
        Some(k) => {
            let rest = s.skip(k + 1);
            lemma_split_pieces(rest, c);
            assert forall|i: int| 0 <= i < split_view(s, c).len() implies !(#[trigger] split_view(
                s,
                c,
            )[i]).contains(c) by {
                if i == 0 {
                    assert(split_view(s, c)[0] == s.take(k));
                } else {
                    assert(split_view(s, c)[i] == split_view(rest, c)[i - 1]);
                }
            }
        },
        None => {},
    }
}

/// What is left after trimming neither starts nor ends with whitespace.
pub proof fn lemma_trim_ends(s: Seq<char>)
    ensures
        trim_view(s).len() > 0 ==> !is_white(trim_view(s)[0]) && !is_white(trim_view(s).last()),
{
    lemma_trim_start_len(s);
    lemma_trim_end_prefix(trim_start_view(s));
}

proof fn lemma_trim_end_prefix(s: Seq<char>)
    ensures
        trim_end_view(s).len() <= s.len(),
        trim_end_view(s) == s.take(trim_end_view(s).len() as int),
        trim_end_view(s).len() > 0 ==> !is_white(trim_end_view(s).last()),
    decreases s.len(),
{
    if s.len() > 0 && is_white(s.last()) {
        lemma_trim_end_prefix(s.drop_last());
        let n = trim_end_view(s).len() as int;
        assert(s.drop_last().take(n) =~= s.take(n));
    } else {
        assert(s.take(s.len() as int) =~= s);
    }
}

/// A text that neither starts nor ends with whitespace is left as it is by trimming.
pub proof fn lemma_trim_nothing(s: Seq<char>)
    requires
        s.len() > 0,
        !is_white(s[0]),
        !is_white(s.last()),
    ensures
        trim_view(s) == s,
{
}

/// A character with an ASCII capital letter made small.
pub open spec fn lower_char(c: char) -> char {
    if 'A' <= c <= 'Z' {
        (c as int + 32) as char
    } else {
        c
    }
}

/// A text with its ASCII capital letters made small.
pub open spec fn lower_view(s: Seq<char>) -> Seq<char> {
    s.map_values(|c: char| lower_char(c))
}

fn small(c: char) -> (r: char)
    ensures
        r == lower_char(c),
{
    if 'A' <= c && c <= 'Z' {
        (c as u8 + 32) as char
    } else {
        c
    }
}

/// Makes the ASCII capital letters of a text small.
pub fn to_lower(s: &str) -> (r: String)
    ensures
        r@ == lower_view(s@),
{
    let v = chars_of(s);
    let mut out = String::new();
    let mut i: usize = 0;
    assert(out@ =~= lower_view(s@).take(0));
    while i < v.len()
        invariant
            i <= v@.len(),
            v@ == s@,
            out@ == lower_view(s@).take(i as int),
        decreases v@.len() - i,
    {
        out.push(small(v[i]));
        assert(out@ =~= lower_view(s@).take(i + 1));
        i += 1;
    }
    assert(lower_view(s@).take(i as int) =~= lower_view(s@));
    out
}

/// A number that is written in decimal reads back as itself.
pub proof fn law_a_number_reads_back(n: nat, max: nat)
    ensures
        parse_unsigned_view(decimal_view(n), max) == if n <= max {
            Some(n)
        } else {
            None
        },
        parse_signed_view(signed_decimal_view(n as int), 0, max as int) == if n <= max {
            Some(n as int)
        } else {
            None
        },
{
    lemma_decimal(n);
    let s = decimal_view(n);
    assert(is_digit(s[0]));
}

/// A numeral has digits only, as few as can be, and is worth its number.
pub proof fn lemma_decimal(n: nat)
    ensures
        decimal_view(n).len() > 0,
        forall|i: int| 0 <= i < decimal_view(n).len() ==> is_digit(#[trigger] decimal_view(n)[i]),
        digits_value(decimal_view(n)) == n,
        n > 0 ==> decimal_view(n)[0] != '0',
    decreases n,
{
    let s = decimal_view(n);
    if n < 10 {
        assert(s.drop_last() =~= seq![]);
        assert(digits_value(s.drop_last()) == 0);
        assert(s.last() == digit_char(n));
    } else {
        lemma_decimal(n / 10);
        let t = decimal_view(n / 10);
        assert(s.drop_last() =~= t);
        assert(s.last() == digit_char(n % 10));
        assert(s[0] == t[0]);
        assert forall|i: int| 0 <= i < s.len() implies is_digit(#[trigger] s[i]) by {
            if i < t.len() {
                assert(s[i] == t[i]);
            }
        }
    }
}

/// A numeral holds no character but digits.
pub proof fn lemma_decimal_lacks(n: nat, c: char)
    requires
        !is_digit(c),
    ensures
        !decimal_view(n).contains(c),
{
    lemma_decimal(n);
}

/// Two lists that are joined one after the other.
proof fn lemma_join_two(a: Seq<Seq<char>>, b: Seq<Seq<char>>, separator: Seq<char>)
    requires
        a.len() > 0,
        b.len() > 0,
    ensures
        join_view(a + b, separator) == join_view(a, separator) + separator + join_view(b, separator),
    decreases b.len(),
{
    let whole = a + b;
    assert(whole.last() == b.last());
    assert(whole.drop_last() =~= a + b.drop_last());
    if b.len() == 1 {
        assert(a + b.drop_last() =~= a);
        assert(b[0] == b.last());
    } else {
        lemma_join_two(a, b.drop_last(), separator);
        assert(join_view(a, separator) + separator + join_view(b.drop_last(), separator) + separator
            + b.last() =~= join_view(a, separator) + separator + (join_view(
            b.drop_last(),
            separator,
        ) + separator + b.last()));
    }
}

/// The pieces of a text that is split give the text back when they are joined, and no piece holds
/// the character that it was split at.
pub proof fn law_pieces_make_the_text(s: Seq<char>, c: char)
    ensures
        join_view(split_view(s, c), seq![c]) == s,
        forall|i: int|
            0 <= i < split_view(s, c).len() ==> !(#[trigger] split_view(s, c)[i]).contains(c),
    decreases s.len(),
{
    lemma_split_pieces(s, c);
    lemma_find_char(s, c);
    match find_char(s, c) {
        Some(i) => {
            let rest = s.skip(i + 1);
            law_pieces_make_the_text(rest, c);
            lemma_split_pieces(rest, c);
            lemma_join_two(seq![s.take(i)], split_view(rest, c), seq![c]);
            assert(s =~= s.take(i) + seq![c] + rest);
        },
        None => {},
    }
}

/// Texts that are joined have the separator between them, and nothing else.
pub proof fn law_joined_texts_are_separated(
    a: Seq<Seq<char>>,
    b: Seq<Seq<char>>,
    one: Seq<char>,
    separator: Seq<char>,
)
    ensures
        join_view(seq![], separator).len() == 0,
        join_view(seq![one], separator) == one,
        a.len() > 0 && b.len() > 0 ==> join_view(a + b, separator) == join_view(a, separator)
            + separator + join_view(b, separator),
{
    if a.len() > 0 && b.len() > 0 {
        lemma_join_two(a, b, separator);
    }
}

} // verus!
