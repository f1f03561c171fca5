//! File paths as text, by the rules of the system that they belong to.
//!
//! On Unix the parts of a path are divided by slashes. On Windows they are divided by slashes or
//! backslashes, and a path may begin with a prefix: a drive (`C:`), a share (`\\server\share`), a
//! device (`\\.\device`) or a verbatim prefix (`\\?\..`), after which only backslashes divide and
//! `.` and `..` are kept as they stand.
use vstd::prelude::*;

use crate::text;

verus! {

/// The kind of system that paths belong to and that the daemon is reached from.
#[derive(Debug, Clone, Copy, PartialEq, Eq, Structural)]
pub enum HostFamily {
    Unix,
    Windows,
}

/// What a path begins with.
#[derive(Debug, Clone, Copy, PartialEq, Eq, Structural)]
pub enum PrefixKind {
    /// A drive, which has a directory of its own that relative paths start from.
    Drive,
    /// A prefix after which the path is taken as it stands.
    Verbatim,
    /// A share or a device, which has a root even where none is written.
    Rooted,
}

/// Whether a character divides the parts of a path.
pub open spec fn divides(family: HostFamily, c: char) -> bool {
    c == '/' || (family == HostFamily::Windows && c == '\\')
}

/// Whether a character divides the parts of a path that may be verbatim.
pub open spec fn divides_parts(family: HostFamily, verbatim: bool, c: char) -> bool {
    if verbatim {
        c == '\\'
    } else {
        divides(family, c)
    }
}

/// The position of the first divider at or after `from`, or the end.
pub open spec fn part_end(
    family: HostFamily,
    verbatim: bool,
    path: Seq<char>,
    from: int,
) -> int
    decreases path.len() - from,
{
    if from < path.len() && !divides_parts(family, verbatim, path[from]) {
        part_end(family, verbatim, path, from + 1)
    } else {
        from
    }
}

/// Whether the path holds a drive at a position: a letter and a colon.
pub open spec fn drive_at(path: Seq<char>, at: int) -> bool {
    at + 1 < path.len() && is_letter(path[at]) && path[at + 1] == ':'
}

/// Whether a character is a letter from A to Z.
pub open spec fn is_letter(c: char) -> bool {
    'a' <= c <= 'z' || 'A' <= c <= 'Z'
}

/// The length of the verbatim prefix of a path that begins with `\\?\`: a share after `UNC`, a
/// drive, or the first part.
pub open spec fn verbatim_len(path: Seq<char>) -> int {
    let family = HostFamily::Windows;
    if path.len() >= 8 && path[4] == 'U' && path[5] == 'N' && path[6] == 'C' && divides(
        family,
        path[7],
    ) {
        let server = part_end(family, true, path, 8);
        let share = part_end(family, true, path, server + 1);
        if server < path.len() && server + 1 < share {
            share
        } else {
            server
        }
    } else if drive_at(path, 4) && (path.len() == 6 || divides(family, path[6])) {
        6
    } else {
        part_end(family, true, path, 4)
    }
}

/// The length and the kind of the prefix of a path.
pub open spec fn prefix_view(family: HostFamily, path: Seq<char>) -> Option<(int, PrefixKind)> {
    if family == HostFamily::Unix {
        None
    } else if path.len() >= 2 && divides(family, path[0]) && divides(family, path[1]) {
        if path.len() >= 4 && path[0] == '\\' && path[1] == '\\' && path[2] == '?' && path[3]
            == '\\' {
            Some((verbatim_len(path), PrefixKind::Verbatim))
        } else if path.len() >= 4 && path[2] == '.' && divides(family, path[3]) {
            Some((part_end(family, false, path, 4), PrefixKind::Rooted))
        } else {
            let server = part_end(family, false, path, 2);
            let share = part_end(family, false, path, server + 1);
            if 2 < server && server < path.len() && server + 1 < share {
                Some((share, PrefixKind::Rooted))
            } else {
                None
            }
        }
    } else if drive_at(path, 0) {
        Some((2, PrefixKind::Drive))
    } else {
        None
    }
}

/// The length of the prefix of a path.
pub open spec fn prefix_len(family: HostFamily, path: Seq<char>) -> int {
    match prefix_view(family, path) {
        Some((len, _)) => len,
        None => 0,
    }
}

/// Whether a path has a verbatim prefix.
pub open spec fn is_verbatim(family: HostFamily, path: Seq<char>) -> bool {
    prefix_view(family, path) matches Some((_, PrefixKind::Verbatim))
}

/// Whether a divider stands where a path begins, after its prefix.
pub open spec fn starts_divided(family: HostFamily, path: Seq<char>) -> bool {
    let len = prefix_len(family, path);
    len < path.len() && divides(family, path[len])
}

/// Whether a path starts at a root.
pub open spec fn has_root(family: HostFamily, path: Seq<char>) -> bool {
    starts_divided(family, path) || match prefix_view(family, path) {
        Some((_, kind)) => kind != PrefixKind::Drive,
        None => false,
    }
}

/// Whether a path says where it is whatever directory it is read in: it starts at a root, and on
/// Windows has a prefix too.
pub open spec fn is_absolute_view(family: HostFamily, path: Seq<char>) -> bool {
    has_root(family, path) && (family == HostFamily::Unix || prefix_view(family, path) is Some)
}

/// A part ends where it begins or later, and not after the path.
pub proof fn lemma_part_end(family: HostFamily, verbatim: bool, path: Seq<char>, from: int)
    ensures
        from <= part_end(family, verbatim, path, from),
        from <= path.len() ==> part_end(family, verbatim, path, from) <= path.len(),
        from > path.len() ==> part_end(family, verbatim, path, from) == from,
    decreases path.len() - from,
{
    if from < path.len() && !divides_parts(family, verbatim, path[from]) {
        lemma_part_end(family, verbatim, path, from + 1);
    }
}

proof fn lemma_prefix_len(family: HostFamily, path: Seq<char>)
    ensures
        0 <= prefix_len(family, path) <= path.len(),
{
    assert forall|verbatim: bool, from: int| from <= path.len() implies from <= #[trigger] part_end(
        family,
        verbatim,
        path,
        from,
    ) <= path.len() by {
        lemma_part_end(family, verbatim, path, from);
    }
}

/// Whether a character divides the parts of a path.
fn is_divider(family: HostFamily, c: char) -> (r: bool)
    ensures
        r == divides(family, c),
{
    c == '/' || (family == HostFamily::Windows && c == '\\')
}

/// Whether a character divides the parts of a path that may be verbatim.
fn is_part_divider(family: HostFamily, verbatim: bool, c: char) -> (r: bool)
    ensures
        r == divides_parts(family, verbatim, c),
{
    if verbatim {
        c == '\\'
    } else {
        is_divider(family, c)
    }
}

fn find_part_end(family: HostFamily, verbatim: bool, path: &Vec<char>, from: usize) -> (r: usize)
    requires
        from <= path@.len(),
    ensures
        r == part_end(family, verbatim, path@, from as int),
        from <= r <= path@.len(),
{
    let mut i = from;
    while i < path.len() && !is_part_divider(family, verbatim, path[i])
        invariant
            from <= i <= path@.len(),
            part_end(family, verbatim, path@, from as int) == part_end(
                family,
                verbatim,
                path@,
                i as int,
            ),
        decreases path@.len() - i,
    {
        i += 1;
    }
    i
}

fn has_drive(path: &Vec<char>, at: usize) -> (r: bool)
    requires
        at <= 4,
    ensures
        r == drive_at(path@, at as int),
{
    if at + 1 < path.len() {
        let c = path[at];
        (('a' <= c && c <= 'z') || ('A' <= c && c <= 'Z')) && path[at + 1] == ':'
    } else {
        false
    }
}

fn find_verbatim_len(path: &Vec<char>) -> (r: usize)
    requires
        path@.len() >= 4,
    ensures
        r == verbatim_len(path@),
        r <= path@.len(),
{
    let family = HostFamily::Windows;
    if path.len() >= 8 && path[4] == 'U' && path[5] == 'N' && path[6] == 'C' && is_divider(
        family,
        path[7],
    ) {
        let server = find_part_end(family, true, path, 8);
        if server < path.len() {
            let share = find_part_end(family, true, path, server + 1);
            if server + 1 < share {
                return share;
            }
        }
        server
    } else if has_drive(path, 4) && (path.len() == 6 || is_divider(family, path[6])) {
        6
    } else {
        find_part_end(family, true, path, 4)
    }
}

/// The prefix of a path.
fn find_prefix(family: HostFamily, path: &Vec<char>) -> (r: Option<(usize, PrefixKind)>)
    ensures
        prefix_view(family, path@) == match r {
            Some((len, kind)) => Some((len as int, kind)),
            None => None,
        },
        r matches Some((len, _)) ==> len <= path@.len(),
{
    if family == HostFamily::Unix {
        return None;
    }
    if path.len() >= 2 && is_divider(family, path[0]) && is_divider(family, path[1]) {
        if path.len() >= 4 && path[0] == '\\' && path[1] == '\\' && path[2] == '?' && path[3]
            == '\\' {
            return Some((find_verbatim_len(path), PrefixKind::Verbatim));
        }
        if path.len() >= 4 && path[2] == '.' && is_divider(family, path[3]) {
            return Some((find_part_end(family, false, path, 4), PrefixKind::Rooted));
        }
        let server = find_part_end(family, false, path, 2);
        if 2 < server && server < path.len() {
            let share = find_part_end(family, false, path, server + 1);
            if server + 1 < share {
                return Some((share, PrefixKind::Rooted));
            }
        }
        None
    } else if has_drive(path, 0) {
        Some((2, PrefixKind::Drive))
    } else {
        None
    }
}

fn prefix_end(prefix: Option<(usize, PrefixKind)>) -> (r: usize)
    ensures
        r == match prefix {
            Some((len, _)) => len,
            None => 0,
        },
{
    match prefix {
        Some((len, _)) => len,
        None => 0,
    }
}

fn is_divided_at(family: HostFamily, path: &Vec<char>, at: usize) -> (r: bool)
    ensures
        r == (at < path@.len() && divides(family, path@[at as int])),
{
    at < path.len() && is_divider(family, path[at])
}

fn is_rooted(family: HostFamily, path: &Vec<char>) -> (r: bool)
    ensures
        r == has_root(family, path@),
{
    let prefix = find_prefix(family, path);
    is_divided_at(family, path, prefix_end(prefix)) || match prefix {
        Some((_, kind)) => kind != PrefixKind::Drive,
        None => false,
    }
}

/// Whether a path says where it is whatever directory it is read in.
pub fn is_absolute(family: HostFamily, path: &str) -> (r: bool)
    ensures
        r == is_absolute_view(family, path@),
{
    let path = text::chars_of(path);
    is_rooted(family, &path) && (family == HostFamily::Unix || find_prefix(family, &path).is_some())
}

/// The parts of a path from a position on, without the empty ones.
pub open spec fn parts_view(
    family: HostFamily,
    verbatim: bool,
    path: Seq<char>,
    from: int,
) -> Seq<Seq<char>>
    decreases path.len() - from,
{
    if from >= path.len() {
        seq![]
    } else {
        let end = part_end(family, verbatim, path, from);
        proof {
            lemma_part_end(family, verbatim, path, from);
        }
        let rest = if end < path.len() {
            parts_view(family, verbatim, path, end + 1)
        } else {
            seq![]
        };
        if end == from {
            rest
        } else {
            seq![path.subrange(from, end)] + rest
        }
    }
}

fn parts(family: HostFamily, verbatim: bool, path: &str, from: usize) -> (out: Vec<String>)
    requires
        from <= path@.len(),
    ensures
        text::texts(out@) == parts_view(family, verbatim, path@, from as int),
{
    let chars = text::chars_of(path);
    let mut out: Vec<String> = Vec::new();
    let mut i = from;
    let ghost whole = parts_view(family, verbatim, path@, from as int);
    assert(text::texts(out@) + whole =~= whole);
    while i < chars.len()
        invariant
            i <= path@.len(),
            chars@ == path@,
            whole == text::texts(out@) + parts_view(family, verbatim, path@, i as int),
        decreases path@.len() - i,
    {
        let end = find_part_end(family, verbatim, &chars, i);
        let ghost before = text::texts(out@);
        let ghost rest = if end < path@.len() {
            parts_view(family, verbatim, path@, end + 1)
        } else {
            seq![]
        };
        if end > i {
            let part = path.substring_char(i, end).to_owned();
            let ghost seen = part@;
            out.push(part);
            assert(text::texts(out@) =~= before.push(seen));
            assert(before + (seq![seen] + rest) =~= text::texts(out@) + rest);
        }
        if end == chars.len() {
            i = end;
        } else {
            i = end + 1;
        }
    }
    assert(text::texts(out@) + seq![] =~= text::texts(out@));
    out
}

/// The parts of a directory after one more part: `.` stays in it, `..` leaves it, where it is not
/// a `.` or `..` itself, and a name goes down.
pub open spec fn walked_one(dir: Seq<Seq<char>>, part: Seq<char>) -> Seq<Seq<char>> {
    if part == "."@ {
        dir
    } else if part == ".."@ {
        if dir.len() > 0 && dir.last() != "."@ && dir.last() != ".."@ {
            dir.drop_last()
        } else {
            dir
        }
    } else {
        dir.push(part)
    }
}

/// The parts of a directory after more parts.
pub open spec fn walked(dir: Seq<Seq<char>>, parts: Seq<Seq<char>>) -> Seq<Seq<char>>
    decreases parts.len(),
{
    if parts.len() == 0 {
        dir
    } else {
        walked(walked_one(dir, parts[0]), parts.skip(1))
    }
}

fn walk(dir: Vec<String>, parts: &Vec<String>) -> (out: Vec<String>)
    ensures
        text::texts(out@) == walked(text::texts(dir@), text::texts(parts@)),
{
    let mut out = dir;
    let ghost all = text::texts(parts@);
    let mut i: usize = 0;
    assert(all.skip(0) =~= all);
    while i < parts.len()
        invariant
            i <= parts@.len(),
            all == text::texts(parts@),
            walked(text::texts(dir@), all) == walked(text::texts(out@), all.skip(i as int)),
        decreases parts@.len() - i,
    {
        let ghost before = text::texts(out@);
        assert(all.skip(i as int)[0] == all[i as int]);
        assert(all.skip(i as int).skip(1) =~= all.skip(i + 1));
        let part = parts[i].as_str();
        if text::same(part, "..") {
            proof {
                reveal_strlit(".");
                reveal_strlit("..");
                assert("."@.len() != ".."@.len());
            }
            if out.len() > 0 {
                let last = out[out.len() - 1].as_str();
                assert(before.last() == last@);
                if !text::same(last, ".") && !text::same(last, "..") {
                    out.pop();
                    assert(text::texts(out@) =~= before.drop_last());
                }
            }
        } else if !text::same(part, ".") {
            out.push(part.to_owned());
            assert(text::texts(out@) =~= before.push(part@));
        }
        assert(text::texts(out@) == walked_one(before, all[i as int]));
        i += 1;
    }
    out
}

/// `file`, without a prefix of its own, as seen from a directory with a verbatim prefix.
pub open spec fn verbatim_join(base: Seq<char>, file: Seq<char>) -> Seq<char> {
    let family = HostFamily::Windows;
    let len = prefix_len(family, base);
    let dir = if starts_divided(family, file) {
        seq![]
    } else if starts_divided(family, base) {
        parts_view(family, true, base, len + 1)
    } else {
        parts_view(family, true, base, len)
    };
    let all = walked(dir, parts_view(family, false, file, 0));
    if starts_divided(family, file) || starts_divided(family, base) || all.len() > 0 {
        base.take(len) + "\\"@ + text::join_view(all, "\\"@)
    } else {
        base.take(len)
    }
}

fn join_verbatim(base: &str, file: &str, len: usize) -> (out: String)
    requires
        len == prefix_len(HostFamily::Windows, base@),
        prefix_view(HostFamily::Windows, file@) is None,
        len <= base@.len(),
    ensures
        out@ == verbatim_join(base@, file@),
{
    let family = HostFamily::Windows;
    let base_chars = text::chars_of(base);
    let file_chars = text::chars_of(file);
    let file_divided = is_divided_at(family, &file_chars, 0);
    let base_divided = is_divided_at(family, &base_chars, len);
    let dir = if file_divided {
        Vec::new()
    } else if base_divided {
        parts(family, true, base, len + 1)
    } else {
        parts(family, true, base, len)
    };
    assert(file_divided ==> text::texts(dir@) =~= seq![]);
    let more = parts(family, false, file, 0);
    let all = walk(dir, &more);
    let mut out = base.substring_char(0, len).to_owned();
    if file_divided || base_divided || all.len() > 0 {
        out.append("\\");
        let tail = text::join(all.as_slice(), "\\");
        out.append(tail.as_str());
    }
    out
}

/// `file` as seen from the directory `base`. An absolute `file`, or one with a prefix, stands for
/// itself; one that starts at a root keeps the prefix of `base`.
pub open spec fn join_view(
    family: HostFamily,
    base: Seq<char>,
    file: Seq<char>,
) -> Seq<char> {
    if is_absolute_view(family, file) || prefix_view(family, file) is Some {
        file
    } else if is_verbatim(family, base) && file.len() > 0 {
        verbatim_join(base, file)
    } else if has_root(family, file) {
        base.take(prefix_len(family, base)) + file
    } else if base.len() == 0 || divides(family, base.last()) || (base.len() == 2 && prefix_view(
        family,
        base,
    ) matches Some((_, PrefixKind::Drive))) {
        base + file
    } else {
        base + divider(family) + file
    }
}

/// What is put between two parts of a path.
pub open spec fn divider(family: HostFamily) -> Seq<char> {
    match family {
        HostFamily::Unix => "/"@,
        HostFamily::Windows => "\\"@,
    }
}

/// Resolves `file` against the directory `base`.
pub fn join(family: HostFamily, base: &str, file: &str) -> (r: String)
    ensures
        r@ == join_view(family, base@, file@),
{
    let file_chars = text::chars_of(file);
    if is_absolute(family, file) || find_prefix(family, &file_chars).is_some() {
        return file.to_owned();
    }
    let base_chars = text::chars_of(base);
    let prefix = find_prefix(family, &base_chars);
    let len = prefix_end(prefix);
    if let Some((_, PrefixKind::Verbatim)) = prefix {
        if file_chars.len() > 0 {
            return join_verbatim(base, file, len);
        }
    }
    if is_rooted(family, &file_chars) {
        let mut out = base.substring_char(0, len).to_owned();
        out.append(file);
        return out;
    }
    let mut out = base.to_owned();
    let bare_drive = match prefix {
        Some((_, PrefixKind::Drive)) => base_chars.len() == 2,
        _ => false,
    };
    if base_chars.len() > 0 && !is_divider(family, base_chars[base_chars.len() - 1]) && !bare_drive
    {
        match family {
            HostFamily::Unix => out.append("/"),
            HostFamily::Windows => out.append("\\"),
        }
    }
    out.append(file);
    out
}

/// Whether the first part of a relative path is `.`.
pub open spec fn starts_here(family: HostFamily, path: Seq<char>) -> bool {
    let len = prefix_len(family, path);
    &&& !has_root(family, path)
    &&& len < path.len() && path[len] == '.'
    &&& len + 1 == path.len() || divides(family, path[len + 1])
}

/// Where the parts of a path begin that can be left out for a directory above it.
pub open spec fn parts_start(family: HostFamily, path: Seq<char>) -> int {
    prefix_len(family, path) + if starts_divided(family, path) || starts_here(family, path) {
        1int
    } else {
        0
    }
}

/// The position of the last divider from `from` up to `to`.
pub open spec fn last_divider(
    family: HostFamily,
    verbatim: bool,
    path: Seq<char>,
    from: int,
    to: int,
) -> Option<int>
    decreases to - from,
{
    if to <= from {
        None
    } else if divides_parts(family, verbatim, path[to - 1]) {
        Some(to - 1)
    } else {
        last_divider(family, verbatim, path, from, to - 1)
    }
}

/// Whether the last part before `to` is left out of account: it is empty, or it is a `.` that is
/// not verbatim.
pub open spec fn ends_idle(
    family: HostFamily,
    verbatim: bool,
    path: Seq<char>,
    from: int,
    to: int,
) -> bool {
    let start = match last_divider(family, verbatim, path, from, to) {
        Some(i) => i + 1,
        None => from,
    };
    start == to || (!verbatim && start + 1 == to && path[start] == '.')
}

/// The end of what stands before the last part before `to` and its divider.
pub open spec fn without_last(
    family: HostFamily,
    verbatim: bool,
    path: Seq<char>,
    from: int,
    to: int,
) -> int {
    match last_divider(family, verbatim, path, from, to) {
        Some(i) => i,
        None => from,
    }
}

/// The end of a path once the idle parts at its end are left out.
pub open spec fn without_idle(
    family: HostFamily,
    verbatim: bool,
    path: Seq<char>,
    from: int,
    to: int,
) -> int
    decreases to - from,
{
    if from < to && ends_idle(family, verbatim, path, from, to) {
        proof {
            lemma_last_divider(family, verbatim, path, from, to);
        }
        without_idle(
            family,
            verbatim,
            path,
            from,
            without_last(family, verbatim, path, from, to),
        )
    } else {
        to
    }
}

/// The last divider stands where it is looked for.
pub proof fn lemma_last_divider(
    family: HostFamily,
    verbatim: bool,
    path: Seq<char>,
    from: int,
    to: int,
)
    ensures
        last_divider(family, verbatim, path, from, to) matches Some(i) ==> from <= i < to,
    decreases to - from,
{
    if from < to && !divides_parts(family, verbatim, path[to - 1]) {
        lemma_last_divider(family, verbatim, path, from, to - 1);
    }
}

/// The directory that holds a path, whose last part is left out; a path without parts is in none.
pub open spec fn parent_view(family: HostFamily, path: Seq<char>) -> Option<Seq<char>> {
    let verbatim = is_verbatim(family, path);
    let from = parts_start(family, path);
    let end = without_idle(family, verbatim, path, from, path.len() as int);
    if from < end {
        let dir = without_last(family, verbatim, path, from, end);
        Some(path.take(without_idle(family, verbatim, path, from, dir)))
    } else if starts_here(family, path) && prefix_view(family, path) is None {
        Some(seq![])
    } else {
        None
    }
}

fn find_last_divider(
    family: HostFamily,
    verbatim: bool,
    path: &Vec<char>,
    from: usize,
    to: usize,
) -> (r: Option<usize>)
    requires
        from <= to <= path@.len(),
    ensures
        last_divider(family, verbatim, path@, from as int, to as int) == match r {
            Some(i) => Some(i as int),
            None => None,
        },
        r matches Some(i) ==> from <= i < to,
{
    let mut end = to;
    while end > from
        invariant
            from <= end <= to,
            to <= path@.len(),
            last_divider(family, verbatim, path@, from as int, to as int) == last_divider(
                family,
                verbatim,
                path@,
                from as int,
                end as int,
            ),
        decreases end - from,
    {
        if is_part_divider(family, verbatim, path[end - 1]) {
            return Some(end - 1);
        }
        end -= 1;
    }
    None
}

fn drop_idle(
    family: HostFamily,
    verbatim: bool,
    path: &Vec<char>,
    from: usize,
    to: usize,
) -> (r: usize)
    requires
        from <= to <= path@.len(),
    ensures
        r == without_idle(family, verbatim, path@, from as int, to as int),
        from <= r <= to,
{
    let mut end = to;
    while from < end
        invariant
            from <= end <= to,
            to <= path@.len(),
            without_idle(family, verbatim, path@, from as int, to as int) == without_idle(
                family,
                verbatim,
                path@,
                from as int,
                end as int,
            ),
        decreases end - from,
    {
        let found = find_last_divider(family, verbatim, path, from, end);
        let start = match found {
            Some(i) => i + 1,
            None => from,
        };
        if start == end || (!verbatim && start + 1 == end && path[start] == '.') {
            end = match found {
                Some(i) => i,
                None => from,
            };
        } else {
            return end;
        }
    }
    end
}

/// Finds the directory that holds a path.
pub fn parent(family: HostFamily, path: &str) -> (r: Option<String>)
    ensures
        text::opt_string(r) == parent_view(family, path@),
{
    let chars = text::chars_of(path);
    let prefix = find_prefix(family, &chars);
    let len = prefix_end(prefix);
    let verbatim = match prefix {
        Some((_, PrefixKind::Verbatim)) => true,
        _ => false,
    };
    let here = !is_rooted(family, &chars) && len < chars.len() && chars[len] == '.' && (len + 1
        == chars.len() || is_divider(family, chars[len + 1]));
    let from: usize = if is_divided_at(family, &chars, len) || here {
        len + 1
    } else {
        len
    };
    let end = drop_idle(family, verbatim, &chars, from, chars.len());
    if from < end {
        let dir = match find_last_divider(family, verbatim, &chars, from, end) {
            Some(i) => i,
            None => from,
        };
        let end = drop_idle(family, verbatim, &chars, from, dir);
        assert(path@.subrange(0, end as int) =~= path@.take(end as int));
        Some(path.substring_char(0, end).to_owned())
    } else if here && prefix.is_none() {
        Some(String::new())
    } else {
        None
    }
}

} // verus!
