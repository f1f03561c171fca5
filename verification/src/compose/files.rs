//! What is known of the file system while a compose project is resolved.
//!
//! Resolving a project needs canonical paths and the texts of files. Each is asked for when it is
//! needed and recorded here, so that resolving is a function of what was recorded.
use vstd::prelude::*;

use crate::compose::{ComposeError, ComposeErrorView};
use crate::error::concat3;
use crate::path::{self, HostFamily};
use crate::text;

verus! {

/// Something to be found out about the file system.
#[derive(Debug)]
pub enum FileRequest {
    /// Whether the path is a regular file.
    IsFile(String),
    /// The canonical form of the path.
    Canonical(String),
    /// The text of the file.
    Text(String),
}

/// Something to be found out, as text.
pub enum FileRequestView {
    IsFile(Seq<char>),
    Canonical(Seq<char>),
    Text(Seq<char>),
}

impl View for FileRequest {
    type V = FileRequestView;

    open spec fn view(&self) -> FileRequestView {
        match self {
            FileRequest::IsFile(path) => FileRequestView::IsFile(path@),
            FileRequest::Canonical(path) => FileRequestView::Canonical(path@),
            FileRequest::Text(path) => FileRequestView::Text(path@),
        }
    }
}

/// How far a computation over the file system got: to its result, to an error, or to something
/// that is not known yet.
#[derive(Debug)]
pub enum Step<T> {
    Done(T),
    Failed(ComposeError),
    Need(FileRequest),
}

/// How far a computation over the file system got.
pub enum StepView<T> {
    Done(T),
    Failed(ComposeErrorView),
    Need(FileRequestView),
}

/// What was found at a path: a text, or the message of the failure.
pub type Found = std::result::Result<String, String>;

/// What was found at a path.
pub type FoundView = std::result::Result<Seq<char>, Seq<char>>;

/// What was found, as text.
pub open spec fn found_view(found: Found) -> FoundView {
    match found {
        Ok(text) => Ok(text@),
        Err(message) => Err(message@),
    }
}

/// What is known of the file system, which is that of a kind of system.
#[derive(Debug)]
pub struct Files {
    pub family: HostFamily,
    pub regular: Vec<(String, bool)>,
    pub canonical: Vec<(String, Found)>,
    pub texts: Vec<(String, Found)>,
}

/// What is known of the file system: the kind of system, and what was found for each path, in the
/// order in which it was recorded.
pub struct FilesView {
    pub family: HostFamily,
    pub regular: Seq<(Seq<char>, bool)>,
    pub canonical: Seq<(Seq<char>, FoundView)>,
    pub texts: Seq<(Seq<char>, FoundView)>,
}

impl View for Files {
    type V = FilesView;

    open spec fn view(&self) -> FilesView {
        FilesView {
            family: self.family,
            regular: self.regular@.map_values(|e: (String, bool)| (e.0@, e.1)),
            canonical: self.canonical@.map_values(|e: (String, Found)| (e.0@, found_view(e.1))),
            texts: self.texts@.map_values(|e: (String, Found)| (e.0@, found_view(e.1))),
        }
    }
}

/// The first thing recorded for a path.
pub open spec fn recorded<T>(facts: Seq<(Seq<char>, T)>, path: Seq<char>) -> Option<T>
    decreases facts.len(),
{
    if facts.len() == 0 {
        None
    } else if facts[0].0 == path {
        Some(facts[0].1)
    } else {
        recorded(facts.skip(1), path)
    }
}

/// What is recorded for a path is one of the records.
pub proof fn lemma_recorded<T>(facts: Seq<(Seq<char>, T)>, path: Seq<char>)
    ensures
        recorded(facts, path) is Some ==> exists|i: int|
            0 <= i < facts.len() && (#[trigger] facts[i]).0 == path && recorded(facts, path)
                == Some(facts[i].1),
        recorded(facts, path) is None ==> forall|i: int|
            0 <= i < facts.len() ==> (#[trigger] facts[i]).0 != path,
    decreases facts.len(),
{
    if facts.len() > 0 && facts[0].0 != path {
        let rest = facts.skip(1);
        lemma_recorded(rest, path);
        if recorded(rest, path) is Some {
            let i = choose|i: int|
                0 <= i < rest.len() && (#[trigger] rest[i]).0 == path && recorded(rest, path)
                    == Some(rest[i].1);
            assert(facts[i + 1] == rest[i]);
        } else {
            assert forall|i: int| 0 <= i < facts.len() implies (#[trigger] facts[i]).0 != path by {
                if i > 0 {
                    assert(rest[i - 1] == facts[i]);
                }
            }
        }
    }
}

impl Files {
    /// Nothing is known of the files of a system.
    pub fn new(family: HostFamily) -> (files: Files)
        ensures
            files@.family == family,
            files@.regular.len() == 0,
            files@.canonical.len() == 0,
            files@.texts.len() == 0,
    {
        Files { family, regular: Vec::new(), canonical: Vec::new(), texts: Vec::new() }
    }

    /// Records whether a path is a regular file.
    pub fn record_regular(&mut self, path: String, regular: bool)
        ensures
            final(self)@.family == old(self)@.family,
            final(self)@.regular == old(self)@.regular.push((path@, regular)),
            final(self)@.canonical == old(self)@.canonical,
            final(self)@.texts == old(self)@.texts,
    {
        self.regular.push((path, regular));
        assert(self@.regular =~= old(self)@.regular.push((path@, regular)));
    }

    /// Records the canonical form of a path.
    pub fn record_canonical(&mut self, path: String, found: Found)
        ensures
            final(self)@.family == old(self)@.family,
            final(self)@.regular == old(self)@.regular,
            final(self)@.canonical == old(self)@.canonical.push((path@, found_view(found))),
            final(self)@.texts == old(self)@.texts,
    {
        self.canonical.push((path, found));
        assert(self@.canonical =~= old(self)@.canonical.push((path@, found_view(found))));
    }

    /// Records the text of a file.
    pub fn record_text(&mut self, path: String, found: Found)
        ensures
            final(self)@.family == old(self)@.family,
            final(self)@.regular == old(self)@.regular,
            final(self)@.canonical == old(self)@.canonical,
            final(self)@.texts == old(self)@.texts.push((path@, found_view(found))),
    {
        self.texts.push((path, found));
        assert(self@.texts =~= old(self)@.texts.push((path@, found_view(found))));
    }

    /// Whether a path is a regular file, where that is known.
    pub fn is_file(&self, path: &str) -> (r: Option<bool>)
        ensures
            r == recorded(self@.regular, path@),
    {
        let ghost all = self@.regular;
        let mut i: usize = 0;
        assert(all.skip(0) =~= all);
        while i < self.regular.len()
            invariant
                i <= self.regular@.len(),
                all == self@.regular,
                recorded(all, path@) == recorded(all.skip(i as int), path@),
            decreases self.regular@.len() - i,
        {
            assert(all.skip(i as int)[0] == all[i as int]);
            assert(all.skip(i as int).skip(1) =~= all.skip(i + 1));
            if text::same(self.regular[i].0.as_str(), path) {
                return Some(self.regular[i].1);
            }
            i += 1;
        }
        None
    }

    /// The canonical form of a path, where it is known.
    pub fn canonical(&self, path: &str) -> (r: Option<&Found>)
        ensures
            recorded(self@.canonical, path@) == match r {
                Some(found) => Some(found_view(*found)),
                None => None,
            },
    {
        find_record(&self.canonical, path)
    }

    /// The text of a file, where it is known.
    pub fn read(&self, path: &str) -> (r: Option<&Found>)
        ensures
            recorded(self@.texts, path@) == match r {
                Some(found) => Some(found_view(*found)),
                None => None,
            },
    {
        find_record(&self.texts, path)
    }
}

fn find_record<'a>(facts: &'a Vec<(String, Found)>, path: &str) -> (r: Option<&'a Found>)
    ensures
        recorded(facts@.map_values(|e: (String, Found)| (e.0@, found_view(e.1))), path@)
            == match r {
            Some(found) => Some(found_view(*found)),
            None => None,
        },
{
    let ghost all = facts@.map_values(|e: (String, Found)| (e.0@, found_view(e.1)));
    let mut i: usize = 0;
    assert(all.skip(0) =~= all);
    while i < facts.len()
        invariant
            i <= facts@.len(),
            all == facts@.map_values(|e: (String, Found)| (e.0@, found_view(e.1))),
            recorded(all, path@) == recorded(all.skip(i as int), path@),
        decreases facts@.len() - i,
    {
        assert(all.skip(i as int)[0] == all[i as int]);
        assert(all.skip(i as int).skip(1) =~= all.skip(i + 1));
        if text::same(facts[i].0.as_str(), path) {
            return Some(&facts[i].1);
        }
        i += 1;
    }
    None
}

/// The canonical form of a path.
pub open spec fn canonical_path(files: FilesView, path: Seq<char>) -> StepView<Seq<char>> {
    match recorded(files.canonical, path) {
        Some(Ok(canonical)) => StepView::Done(canonical),
        Some(Err(message)) => StepView::Failed(
            ComposeErrorView::InvalidInput(
                "failed to resolve compose path `"@ + path + "`: "@ + message,
            ),
        ),
        None => StepView::Need(FileRequestView::Canonical(path)),
    }
}

/// The step of a computation that gives a text.
pub open spec fn text_step(step: Step<String>) -> StepView<Seq<char>> {
    match step {
        Step::Done(text) => StepView::Done(text@),
        Step::Failed(e) => StepView::Failed(e@),
        Step::Need(request) => StepView::Need(request@),
    }
}

/// The step of a computation that gives a list of texts.
pub open spec fn texts_step(step: Step<Vec<String>>) -> StepView<Seq<Seq<char>>> {
    match step {
        Step::Done(list) => StepView::Done(text::texts(list@)),
        Step::Failed(e) => StepView::Failed(e@),
        Step::Need(request) => StepView::Need(request@),
    }
}

/// Finds the canonical form of a path.
pub fn normalize_path(files: &Files, path: &str) -> (r: Step<String>)
    ensures
        text_step(r) == canonical_path(files@, path@),
{
    match files.canonical(path) {
        Some(Ok(canonical)) => Step::Done(canonical.clone()),
        Some(Err(message)) => {
            let mut m = concat3("failed to resolve compose path `", path, "`: ");
            m.append(message.as_str());
            Step::Failed(ComposeError::InvalidInput(m))
        },
        None => Step::Need(FileRequest::Canonical(path.to_owned())),
    }
}

/// The canonical forms of paths that are given relative to a directory, up to the first that fails.
pub open spec fn canonical_paths(
    files: FilesView,
    base: Seq<char>,
    paths: Seq<Seq<char>>,
) -> StepView<Seq<Seq<char>>>
    decreases paths.len(),
{
    if paths.len() == 0 {
        StepView::Done(seq![])
    } else {
        match canonical_path(files, path::join_view(files.family, base, paths[0])) {
            StepView::Done(first) => match canonical_paths(files, base, paths.skip(1)) {
                StepView::Done(rest) => StepView::Done(seq![first] + rest),
                StepView::Failed(e) => StepView::Failed(e),
                StepView::Need(request) => StepView::Need(request),
            },
            StepView::Failed(e) => StepView::Failed(e),
            StepView::Need(request) => StepView::Need(request),
        }
    }
}

/// A step with texts put before those that it gives.
pub open spec fn after_texts(
    before: Seq<Seq<char>>,
    step: StepView<Seq<Seq<char>>>,
) -> StepView<Seq<Seq<char>>> {
    match step {
        StepView::Done(rest) => StepView::Done(before + rest),
        StepView::Failed(e) => StepView::Failed(e),
        StepView::Need(request) => StepView::Need(request),
    }
}

/// Finds the canonical forms of paths that are given relative to a directory.
pub fn normalize_paths(files: &Files, base: &str, paths: &[String]) -> (r: Step<Vec<String>>)
    ensures
        texts_step(r) == canonical_paths(files@, base@, text::texts(paths@)),
{
    let ghost all = text::texts(paths@);
    let mut out: Vec<String> = Vec::new();
    let mut i: usize = 0;
    assert(all.skip(0) =~= all);
    proof {
        let whole = canonical_paths(files@, base@, all);
        if whole is Done {
            assert(text::texts(out@) + whole->Done_0 =~= whole->Done_0);
        }
    }
    while i < paths.len()
        invariant
            i <= paths@.len(),
            all == text::texts(paths@),
            canonical_paths(files@, base@, all) == after_texts(
                text::texts(out@),
                canonical_paths(files@, base@, all.skip(i as int)),
            ),
        decreases paths@.len() - i,
    {
        assert(all.skip(i as int)[0] == all[i as int]);
        assert(all.skip(i as int).skip(1) =~= all.skip(i + 1));
        let joined = path::join(files.family, base, paths[i].as_str());
        match normalize_path(files, joined.as_str()) {
            Step::Done(canonical) => {
                let ghost before = text::texts(out@);
                let ghost seen = canonical@;
                out.push(canonical);
                proof {
                    assert(text::texts(out@) =~= before.push(seen));
                    let rest = canonical_paths(files@, base@, all.skip(i + 1));
                    if rest is Done {
                        assert(before + (seq![seen] + rest->Done_0) =~= text::texts(out@)
                            + rest->Done_0);
                    }
                }
            },
            Step::Failed(e) => {
                return Step::Failed(e);
            },
            Step::Need(request) => {
                return Step::Need(request);
            },
        }
        i += 1;
    }
    assert(text::texts(out@) + seq![] =~= text::texts(out@));
    Step::Done(out)
}

} // verus!
