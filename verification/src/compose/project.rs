//! Compose projects: loading their documents, merging their services, and finding the images.
use vstd::prelude::*;

use crate::compose::env::{parse_env_file, Variables};
use crate::compose::files::{
    normalize_path, normalize_paths, FileRequest, FileRequestView, Files, FilesView, Step, StepView,
};
use crate::compose::interpolate::interpolate;
use crate::compose::services::{
    collect_extends_files, collect_includes, collect_profiles, collect_services, profiles_of,
    Service, ServiceView,
};
use crate::compose::value::{
    as_str, mapping_get, mapping_get_string, mapping_has_key, merge_values, parse_yaml,
    value_mapping, Yaml, YamlView,
};
use crate::compose::{
    no_images, push_service, ComposeError, ComposeErrorView, ComposeImages, ComposeImagesView,
    ComposeServiceImage, ServiceImageView,
};
use crate::compose::{env, files, services, value};
use crate::error::concat3;
use crate::path::{self, HostFamily};
use crate::text;

verus! {

/// A loaded compose document.
#[derive(Debug)]
pub struct ComposeDocument {
    pub services: Vec<Service>,
    pub includes: Vec<String>,
}

/// What a loaded document holds.
pub struct DocumentView {
    pub services: Seq<ServiceView>,
    pub includes: Seq<Seq<char>>,
}

impl View for ComposeDocument {
    type V = DocumentView;

    open spec fn view(&self) -> DocumentView {
        DocumentView {
            services: services::service_list(self.services@),
            includes: text::texts(self.includes@),
        }
    }
}

/// Loaded documents by their canonical paths.
pub type DocumentsView = Seq<(Seq<char>, DocumentView)>;

/// What the loaded documents hold.
pub open spec fn documents_view(documents: Seq<(String, ComposeDocument)>) -> DocumentsView {
    documents.map_values(|d: (String, ComposeDocument)| (d.0@, d.1@))
}

/// The file names that a compose project is looked for under.
pub open spec fn default_names() -> Seq<Seq<char>> {
    seq!["compose.yaml"@, "compose.yml"@, "docker-compose.yaml"@, "docker-compose.yml"@]
}

/// The first of the named files that exists in the directory.
pub open spec fn first_existing(
    files: FilesView,
    dir: Seq<char>,
    names: Seq<Seq<char>>,
) -> StepView<Seq<char>>
    decreases names.len(),
{
    if names.len() == 0 {
        StepView::Failed(
            ComposeErrorView::InvalidInput("no compose file found in `"@ + dir + "`"@),
        )
    } else {
        let candidate = path::join_view(files.family, dir, names[0]);
        match files::recorded(files.regular, candidate) {
            Some(true) => files::canonical_path(files, candidate),
            Some(false) => first_existing(files, dir, names.skip(1)),
            None => StepView::Need(FileRequestView::IsFile(candidate)),
        }
    }
}

/// Finds the compose file of a directory.
pub fn find_default_compose_file(files: &Files, dir: &str) -> (r: Step<String>)
    ensures
        files::text_step(r) == first_existing(files@, dir@, default_names()),
{
    let names: [&str; 4] = [
        "compose.yaml",
        "compose.yml",
        "docker-compose.yaml",
        "docker-compose.yml",
    ];
    let ghost all = default_names();
    let mut i: usize = 0;
    assert(all.skip(0) =~= all);
    while i < 4
        invariant
            i <= 4,
            names@.len() == 4,
            all.len() == 4,
            all == default_names(),
            forall|j: int| 0 <= j < 4 ==> (#[trigger] names@[j])@ == all[j],
            first_existing(files@, dir@, all) == first_existing(files@, dir@, all.skip(i as int)),
        decreases 4 - i,
    {
        assert(all.skip(i as int)[0] == all[i as int]);
        assert(all.skip(i as int).skip(1) =~= all.skip(i + 1));
        let candidate = path::join(files.family, dir, names[i]);
        match files.is_file(candidate.as_str()) {
            Some(true) => {
                return normalize_path(files, candidate.as_str());
            },
            Some(false) => {},
            None => {
                return Step::Need(FileRequest::IsFile(candidate));
            },
        }
        i += 1;
    }
    Step::Failed(ComposeError::InvalidInput(concat3("no compose file found in `", dir, "`")))
}

/// The files that a project starts from: the given ones, or the one of the directory.
pub open spec fn entry_files(
    files: FilesView,
    given: Seq<Seq<char>>,
    dir: Seq<char>,
) -> StepView<Seq<Seq<char>>> {
    if given.len() == 0 {
        match first_existing(files, dir, default_names()) {
            StepView::Done(file) => StepView::Done(seq![file]),
            StepView::Failed(e) => StepView::Failed(e),
            StepView::Need(request) => StepView::Need(request),
        }
    } else {
        files::canonical_paths(files, dir, given)
    }
}

fn find_entry_files(files: &Files, given: &[String], dir: &str) -> (r: Step<Vec<String>>)
    ensures
        files::texts_step(r) == entry_files(files@, text::texts(given@), dir@),
{
    if given.len() == 0 {
        match find_default_compose_file(files, dir) {
            Step::Done(file) => {
                let mut out: Vec<String> = Vec::new();
                let ghost seen = file@;
                out.push(file);
                assert(text::texts(out@) =~= seq![seen]);
                Step::Done(out)
            },
            Step::Failed(e) => Step::Failed(e),
            Step::Need(request) => Step::Need(request),
        }
    } else {
        assert(text::texts(given@).len() == given@.len());
        normalize_paths(files, dir, given)
    }
}

/// The directory of a project: that of its first file.
pub open spec fn project_dir(
    family: HostFamily,
    entries: Seq<Seq<char>>,
    dir: Seq<char>,
) -> Seq<char> {
    if entries.len() == 0 {
        dir
    } else {
        match path::parent_view(family, entries[0]) {
            Some(parent) => parent,
            None => dir,
        }
    }
}

fn find_project_dir(family: HostFamily, entries: &Vec<String>, dir: &str) -> (r: String)
    ensures
        r@ == project_dir(family, text::texts(entries@), dir@),
{
    if entries.len() == 0 {
        return dir.to_owned();
    }
    assert(text::texts(entries@)[0] == entries@[0]@);
    match path::parent(family, entries[0].as_str()) {
        Some(parent) => parent,
        None => dir.to_owned(),
    }
}

/// The variables of a project: those of its `.env` file, and over them those of the process.
pub open spec fn project_env(
    files: FilesView,
    dir: Seq<char>,
    process: Map<Seq<char>, Seq<char>>,
) -> StepView<Map<Seq<char>, Seq<char>>> {
    let file = path::join_view(files.family, dir, ".env"@);
    match files::recorded(files.regular, file) {
        Some(true) => match files::recorded(files.texts, file) {
            Some(Ok(text)) => StepView::Done(env::env_file(text).union_prefer_right(process)),
            Some(Err(message)) => StepView::Failed(ComposeErrorView::Io(message)),
            None => StepView::Need(FileRequestView::Text(file)),
        },
        Some(false) => StepView::Done(process),
        None => StepView::Need(FileRequestView::IsFile(file)),
    }
}

/// Reads the variables of a project.
pub fn load_compose_env(files: &Files, dir: &str, process: Variables) -> (r: Step<Variables>)
    ensures
        project_env(files@, dir@, process@) == match r {
            Step::Done(values) => StepView::Done(values@),
            Step::Failed(e) => StepView::Failed(e@),
            Step::Need(request) => StepView::Need(request@),
        },
{
    let file = path::join(files.family, dir, ".env");
    match files.is_file(file.as_str()) {
        Some(true) => match files.read(file.as_str()) {
            Some(Ok(text)) => {
                let mut values = parse_env_file(text.as_str());
                values.extend(process);
                Step::Done(values)
            },
            Some(Err(message)) => Step::Failed(ComposeError::Io(message.clone())),
            None => Step::Need(FileRequest::Text(file)),
        },
        Some(false) => Step::Done(process),
        None => Step::Need(FileRequest::IsFile(file)),
    }
}

/// A document with the files that its services extend.
pub struct ReadDocument {
    pub document: ComposeDocument,
    pub extends: Vec<String>,
}

/// A read document: what it holds, and the files that its services extend.
pub open spec fn read_view(read: ReadDocument) -> (DocumentView, Seq<Seq<char>>) {
    (read.document@, text::texts(read.extends@))
}

/// The directory that the paths in a document are relative to.
pub open spec fn document_dir(family: HostFamily, file: Seq<char>) -> Seq<char> {
    match path::parent_view(family, file) {
        Some(parent) => parent,
        None => "."@,
    }
}

/// Paths relative to a directory.
pub open spec fn joined(
    family: HostFamily,
    dir: Seq<char>,
    paths: Seq<Seq<char>>,
) -> Seq<Seq<char>> {
    paths.map_values(|p: Seq<char>| path::join_view(family, dir, p))
}

/// The document in a file, with the files that its services extend.
pub open spec fn document_at(
    files: FilesView,
    values: Map<Seq<char>, Seq<char>>,
    file: Seq<char>,
) -> StepView<(DocumentView, Seq<Seq<char>>)> {
    match files::recorded(files.texts, file) {
        None => StepView::Need(FileRequestView::Text(file)),
        Some(Err(message)) => StepView::Failed(
            ComposeErrorView::InvalidInput(
                "failed to read compose file `"@ + file + "`: "@ + message,
            ),
        ),
        Some(Ok(source)) => match crate::compose::interpolate::interpolated(source, values) {
            Err(e) => StepView::Failed(e),
            Ok(source) => match value::yaml_document(source) {
                Err(message) => StepView::Failed(
                    ComposeErrorView::InvalidInput(
                        "failed to parse compose file `"@ + file + "`: "@ + message,
                    ),
                ),
                Ok(document) => match files::canonical_paths(
                    files,
                    document_dir(files.family, file),
                    services::includes_of(document),
                ) {
                    StepView::Done(includes) => StepView::Done(
                        (
                            DocumentView {
                                services: services::services_of(document, file),
                                includes,
                            },
                            joined(
                                files.family,
                                document_dir(files.family, file),
                                services::extends_files(services::services_of(document, file)),
                            ),
                        ),
                    ),
                    StepView::Failed(e) => StepView::Failed(e),
                    StepView::Need(request) => StepView::Need(request),
                },
            },
        },
    }
}

fn join_all(family: HostFamily, dir: &str, paths: &Vec<String>) -> (out: Vec<String>)
    ensures
        text::texts(out@) == joined(family, dir@, text::texts(paths@)),
{
    let mut out: Vec<String> = Vec::new();
    let mut i: usize = 0;
    while i < paths.len()
        invariant
            i <= paths@.len(),
            out@.len() == i,
            forall|j: int|
                0 <= j < i ==> (#[trigger] out@[j])@ == path::join_view(
                    family,
                    dir@,
                    paths@[j]@,
                ),
        decreases paths@.len() - i,
    {
        out.push(path::join(family, dir, paths[i].as_str()));
        i += 1;
    }
    assert(text::texts(out@) =~= joined(family, dir@, text::texts(paths@)));
    out
}

/// Builds the document that a parsed file holds.
fn build_document(files: &Files, file: &str, parsed: &Yaml) -> (r: Step<ReadDocument>)
    ensures
        (match r {
            Step::Done(read) => StepView::Done(read_view(read)),
            Step::Failed(e) => StepView::Failed(e@),
            Step::Need(request) => StepView::Need(request@),
        }) == match files::canonical_paths(
            files@,
            document_dir(files@.family, file@),
            services::includes_of(parsed@),
        ) {
            StepView::Done(includes) => StepView::Done(
                (
                    DocumentView { services: services::services_of(parsed@, file@), includes },
                    joined(
                        files@.family,
                        document_dir(files@.family, file@),
                        services::extends_files(services::services_of(parsed@, file@)),
                    ),
                ),
            ),
            StepView::Failed(e) => StepView::Failed(e),
            StepView::Need(request) => StepView::Need(request),
        },
{
    let dir = match path::parent(files.family, file) {
        Some(parent) => parent,
        None => ".".to_owned(),
    };
    let services = collect_services(parsed, file);
    let includes = collect_includes(parsed);
    match normalize_paths(files, dir.as_str(), includes.as_slice()) {
        Step::Done(includes) => {
            let extends = collect_extends_files(&services);
            let extends = join_all(files.family, dir.as_str(), &extends);
            Step::Done(
                ReadDocument { document: ComposeDocument { services, includes }, extends },
            )
        },
        Step::Failed(e) => Step::Failed(e),
        Step::Need(request) => Step::Need(request),
    }
}

/// Reads the document in a file.
fn read_document(files: &Files, values: &Variables, file: &str) -> (r: Step<ReadDocument>)
    ensures
        document_at(files@, values@, file@) == match r {
            Step::Done(read) => StepView::Done(read_view(read)),
            Step::Failed(e) => StepView::Failed(e@),
            Step::Need(request) => StepView::Need(request@),
        },
{
    match files.read(file) {
        None => Step::Need(FileRequest::Text(file.to_owned())),
        Some(Err(message)) => {
            let mut m = concat3("failed to read compose file `", file, "`: ");
            m.append(message.as_str());
            Step::Failed(ComposeError::InvalidInput(m))
        },
        Some(Ok(source)) => match interpolate(source.as_str(), values) {
            Err(e) => Step::Failed(e),
            Ok(source) => match parse_yaml(source.as_str()) {
                Err(message) => {
                    let mut m = concat3("failed to parse compose file `", file, "`: ");
                    m.append(message.as_str());
                    Step::Failed(ComposeError::InvalidInput(m))
                },
                Ok(parsed) => build_document(files, file, &parsed),
            },
        },
    }
}

/// How many of the recorded texts belong to no loaded document.
pub open spec fn unloaded(
    texts: Seq<(Seq<char>, files::FoundView)>,
    documents: DocumentsView,
) -> nat
    decreases texts.len(),
{
    if texts.len() == 0 {
        0
    } else {
        let before = unloaded(texts.drop_last(), documents);
        if files::recorded(documents, texts.last().0) is None {
            before + 1
        } else {
            before
        }
    }
}

/// The documents after those at the pending paths are loaded, each followed by the documents that
/// it includes and then by those that its services extend; a document is loaded once.
pub open spec fn load_all(
    files: FilesView,
    values: Map<Seq<char>, Seq<char>>,
    pending: Seq<Seq<char>>,
    documents: DocumentsView,
) -> StepView<DocumentsView>
    decreases unloaded(files.texts, documents), pending.len(),
    via load_all_ends
{
    if pending.len() == 0 {
        StepView::Done(documents)
    } else {
        match files::canonical_path(files, pending[0]) {
            StepView::Failed(e) => StepView::Failed(e),
            StepView::Need(request) => StepView::Need(request),
            StepView::Done(file) => if files::recorded(documents, file) is Some {
                load_all(files, values, pending.skip(1), documents)
            } else {
                match document_at(files, values, file) {
                    StepView::Failed(e) => StepView::Failed(e),
                    StepView::Need(request) => StepView::Need(request),
                    StepView::Done((document, extends)) => load_all(
                        files,
                        values,
                        document.includes + extends + pending.skip(1),
                        documents.push((file, document)),
                    ),
                }
            },
        }
    }
}

proof fn lemma_recorded_push<T>(
    facts: Seq<(Seq<char>, T)>,
    path: Seq<char>,
    fact: T,
    other: Seq<char>,
)
    requires
        files::recorded(facts, path) is None,
    ensures
        files::recorded(facts.push((path, fact)), other) == if other == path {
            Some(fact)
        } else {
            files::recorded(facts, other)
        },
    decreases facts.len(),
{
    let grown = facts.push((path, fact));
    if facts.len() > 0 {
        assert(grown.skip(1) =~= facts.skip(1).push((path, fact)));
        assert(grown[0] == facts[0]);
        lemma_recorded_push(facts.skip(1), path, fact, other);
    } else {
        assert(grown[0] == (path, fact));
        assert(files::recorded(grown.skip(1), other) is None);
    }
}

/// Loading a document leaves fewer texts that belong to none.
proof fn lemma_unloaded_push(
    texts: Seq<(Seq<char>, files::FoundView)>,
    documents: DocumentsView,
    file: Seq<char>,
    document: DocumentView,
)
    requires
        files::recorded(documents, file) is None,
    ensures
        unloaded(texts, documents.push((file, document))) <= unloaded(texts, documents),
        (exists|i: int| 0 <= i < texts.len() && (#[trigger] texts[i]).0 == file) ==> unloaded(
            texts,
            documents.push((file, document)),
        ) < unloaded(texts, documents),
    decreases texts.len(),
{
    if texts.len() > 0 {
        let init = texts.drop_last();
        lemma_unloaded_push(init, documents, file, document);
        lemma_recorded_push(documents, file, document, texts.last().0);
        if exists|i: int| 0 <= i < texts.len() && (#[trigger] texts[i]).0 == file {
            let i = choose|i: int| 0 <= i < texts.len() && (#[trigger] texts[i]).0 == file;
            if i < init.len() {
                assert(init[i].0 == file);
            }
        }
    }
}

proof fn lemma_loading_ends(
    files: FilesView,
    values: Map<Seq<char>, Seq<char>>,
    file: Seq<char>,
    documents: DocumentsView,
    document: DocumentView,
)
    requires
        files::recorded(documents, file) is None,
        document_at(files, values, file) is Done,
    ensures
        unloaded(files.texts, documents.push((file, document))) < unloaded(files.texts, documents),
{
    files::lemma_recorded(files.texts, file);
    lemma_unloaded_push(files.texts, documents, file, document);
}

#[via_fn]
proof fn load_all_ends(
    files: FilesView,
    values: Map<Seq<char>, Seq<char>>,
    pending: Seq<Seq<char>>,
    documents: DocumentsView,
) {
    if pending.len() > 0 {
        match files::canonical_path(files, pending[0]) {
            StepView::Done(file) => {
                if files::recorded(documents, file) is None {
                    match document_at(files, values, file) {
                        StepView::Done((document, _)) => {
                            lemma_loading_ends(files, values, file, documents, document);
                        },
                        _ => {},
                    }
                }
            },
            _ => {},
        }
    }
}

/// The step of a computation that gives documents.
pub open spec fn documents_step(
    step: Step<Vec<(String, ComposeDocument)>>,
) -> StepView<DocumentsView> {
    match step {
        Step::Done(documents) => StepView::Done(documents_view(documents@)),
        Step::Failed(e) => StepView::Failed(e@),
        Step::Need(request) => StepView::Need(request@),
    }
}

/// Finds a loaded document.
fn find_document<'a>(
    documents: &'a Vec<(String, ComposeDocument)>,
    file: &str,
) -> (r: Option<&'a ComposeDocument>)
    ensures
        files::recorded(documents_view(documents@), file@) == match r {
            Some(document) => Some(document@),
            None => None,
        },
{
    let ghost all = documents_view(documents@);
    let mut i: usize = 0;
    assert(all.skip(0) =~= all);
    while i < documents.len()
        invariant
            i <= documents@.len(),
            all == documents_view(documents@),
            files::recorded(all, file@) == files::recorded(all.skip(i as int), file@),
        decreases documents@.len() - i,
    {
        assert(all.skip(i as int)[0] == all[i as int]);
        assert(all.skip(i as int).skip(1) =~= all.skip(i + 1));
        if text::same(documents[i].0.as_str(), file) {
            return Some(&documents[i].1);
        }
        i += 1;
    }
    None
}

/// Puts lists of texts one behind another; the first is given by its items from `from` on.
fn concat_lists(a: &Vec<String>, b: &Vec<String>, c: &Vec<String>, from: usize) -> (out: Vec<
    String,
>)
    requires
        from <= c@.len(),
    ensures
        text::texts(out@) == text::texts(a@) + text::texts(b@) + text::texts(c@).skip(
            from as int,
        ),
{
    let mut out = text::copy_list(a);
    let mut i: usize = 0;
    assert(text::texts(out@) =~= text::texts(a@) + text::texts(b@).take(0));
    while i < b.len()
        invariant
            i <= b@.len(),
            text::texts(out@) == text::texts(a@) + text::texts(b@).take(i as int),
        decreases b@.len() - i,
    {
        let ghost before = text::texts(out@);
        out.push(b[i].clone());
        assert(text::texts(out@) =~= before.push(b@[i as int]@));
        assert(text::texts(out@) =~= text::texts(a@) + text::texts(b@).take(i + 1));
        i += 1;
    }
    assert(text::texts(b@).take(i as int) =~= text::texts(b@));
    let ghost ab = text::texts(out@);
    let mut k: usize = from;
    assert(ab + text::texts(c@).subrange(from as int, from as int) =~= ab);
    while k < c.len()
        invariant
            from <= k <= c@.len(),
            text::texts(out@) == ab + text::texts(c@).subrange(from as int, k as int),
        decreases c@.len() - k,
    {
        let ghost before = text::texts(out@);
        out.push(c[k].clone());
        assert(text::texts(out@) =~= before.push(c@[k as int]@));
        assert(text::texts(out@) =~= ab + text::texts(c@).subrange(from as int, k + 1));
        k += 1;
    }
    assert(text::texts(c@).subrange(from as int, k as int) =~= text::texts(c@).skip(from as int));
    out
}

/// Loads the documents of a project.
pub fn load_documents(files: &Files, values: &Variables, entries: &Vec<String>) -> (r: Step<
    Vec<(String, ComposeDocument)>,
>)
    ensures
        documents_step(r) == load_all(files@, values@, text::texts(entries@), seq![]),
{
    let mut documents: Vec<(String, ComposeDocument)> = Vec::new();
    let mut pending = text::copy_list(entries);
    let ghost goal = load_all(files@, values@, text::texts(entries@), seq![]);
    assert(documents_view(documents@) =~= seq![]);
    while pending.len() > 0
        invariant
            goal == load_all(files@, values@, text::texts(entries@), seq![]),
            goal == load_all(
                files@,
                values@,
                text::texts(pending@),
                documents_view(documents@),
            ),
        decreases unloaded(files@.texts, documents_view(documents@)), pending@.len(),
    {
        let ghost docs = documents_view(documents@);
        assert(text::texts(pending@)[0] == pending@[0]@);
        let file = match normalize_path(files, pending[0].as_str()) {
            Step::Done(file) => file,
            Step::Failed(e) => {
                return Step::Failed(e);
            },
            Step::Need(request) => {
                return Step::Need(request);
            },
        };
        let nothing: Vec<String> = Vec::new();
        if find_document(&documents, file.as_str()).is_some() {
            let rest = concat_lists(&nothing, &nothing, &pending, 1);
            assert(text::texts(rest@) =~= text::texts(pending@).skip(1));
            assert(text::texts(rest@).len() == rest@.len());
            pending = rest;
        } else {
            match read_document(files, values, file.as_str()) {
                Step::Done(read) => {
                    proof {
                        lemma_loading_ends(files@, values@, file@, docs, read.document@);
                    }
                    let next = concat_lists(&read.document.includes, &read.extends, &pending, 1);
                    let ghost seen = (file@, read.document@);
                    documents.push((file, read.document));
                    assert(documents_view(documents@) =~= docs.push(seen));
                    pending = next;
                },
                Step::Failed(e) => {
                    return Step::Failed(e);
                },
                Step::Need(request) => {
                    return Step::Need(request);
                },
            }
        }
    }
    assert(text::texts(pending@).len() == 0);
    Step::Done(documents)
}

/// The error for a document that is not there.
pub open spec fn not_loaded(file: Seq<char>) -> ComposeErrorView {
    ComposeErrorView::InvalidInput("compose file `"@ + file + "` was not loaded"@)
}

fn not_loaded_error(file: &str) -> (e: ComposeError)
    ensures
        e@ == not_loaded(file@),
{
    ComposeError::InvalidInput(concat3("compose file `", file, "` was not loaded"))
}

/// The position of the first service with the name.
pub open spec fn service_index(services: Seq<ServiceView>, name: Seq<char>) -> Option<int>
    decreases services.len(),
{
    if services.len() == 0 {
        None
    } else if services[0].name == name {
        Some(0)
    } else {
        match service_index(services.skip(1), name) {
            Some(i) => Some(i + 1),
            None => None,
        }
    }
}

/// A service is found at the first place that has its name, and nowhere if none has it.
pub proof fn lemma_service_index(services: Seq<ServiceView>, name: Seq<char>)
    ensures
        match service_index(services, name) {
            Some(i) => 0 <= i < services.len() && services[i].name == name,
            None => forall|j: int| 0 <= j < services.len() ==> services[j].name != name,
        },
    decreases services.len(),
{
    if services.len() > 0 && services[0].name != name {
        lemma_service_index(services.skip(1), name);
        assert forall|j: int| 0 < j < services.len() implies services[j] == services.skip(1)[j
            - 1] by {}
    }
}

fn find_service(services: &Vec<Service>, name: &str) -> (r: Option<usize>)
    ensures
        match r {
            Some(i) => i < services@.len() && service_index(
                services::service_list(services@),
                name@,
            ) == Some(i as int),
            None => service_index(services::service_list(services@), name@) is None,
        },
{
    let ghost all = services::service_list(services@);
    let mut i: usize = 0;
    assert(all.skip(0) =~= all);
    while i < services.len()
        invariant
            i <= services@.len(),
            all == services::service_list(services@),
            service_index(all, name@) == match service_index(all.skip(i as int), name@) {
                Some(k) => Some(k + i),
                None => None::<int>,
            },
        decreases services@.len() - i,
    {
        assert(all.skip(i as int)[0] == all[i as int]);
        assert(all.skip(i as int).skip(1) =~= all.skip(i + 1));
        if text::same(services[i].name.as_str(), name) {
            return Some(i);
        }
        i += 1;
    }
    None
}

/// The services after one of an entry file is added: it is laid over the service of its name, and
/// that service then counts as coming from the added one's file.
pub open spec fn with_service(
    services: Seq<ServiceView>,
    service: ServiceView,
) -> Seq<ServiceView> {
    match service_index(services, service.name) {
        Some(i) => services.update(
            i,
            ServiceView {
                name: services[i].name,
                source_file: service.source_file,
                value: value::merged(services[i].value, service.value),
            },
        ),
        None => services.push(service),
    }
}

/// The services after those of an entry file are added, in order.
pub open spec fn with_services(
    services: Seq<ServiceView>,
    added: Seq<ServiceView>,
) -> Seq<ServiceView>
    decreases added.len(),
{
    if added.len() == 0 {
        services
    } else {
        with_services(with_service(services, added[0]), added.skip(1))
    }
}

/// The services after those of an included file are added: a name that is there already wins.
pub open spec fn with_included(
    services: Seq<ServiceView>,
    added: Seq<ServiceView>,
) -> Seq<ServiceView>
    decreases added.len(),
{
    if added.len() == 0 {
        services
    } else if service_index(services, added[0].name) is Some {
        with_included(services, added.skip(1))
    } else {
        with_included(services.push(added[0]), added.skip(1))
    }
}

fn add_services(services: Vec<Service>, added: &Vec<Service>) -> (out: Vec<Service>)
    ensures
        services::service_list(out@) == with_services(
            services::service_list(services@),
            services::service_list(added@),
        ),
{
    let ghost goal = with_services(
        services::service_list(services@),
        services::service_list(added@),
    );
    let ghost all = services::service_list(added@);
    let mut out = services;
    let mut i: usize = 0;
    assert(all.skip(0) =~= all);
    while i < added.len()
        invariant
            i <= added@.len(),
            all == services::service_list(added@),
            goal == with_services(services::service_list(out@), all.skip(i as int)),
        decreases added@.len() - i,
    {
        assert(all.skip(i as int)[0] == all[i as int]);
        assert(all.skip(i as int).skip(1) =~= all.skip(i + 1));
        let ghost before = services::service_list(out@);
        match find_service(&out, added[i].name.as_str()) {
            Some(k) => {
                let laid = merge_values(out[k].value.copy(), added[i].value.copy());
                let service = Service {
                    name: out[k].name.clone(),
                    source_file: added[i].source_file.clone(),
                    value: laid,
                };
                let ghost seen = service@;
                out.set(k, service);
                assert(services::service_list(out@) =~= before.update(k as int, seen));
            },
            None => {
                let service = added[i].copy();
                let ghost seen = service@;
                out.push(service);
                assert(services::service_list(out@) =~= before.push(seen));
            },
        }
        i += 1;
    }
    out
}

fn add_included(services: Vec<Service>, added: &Vec<Service>) -> (out: Vec<Service>)
    ensures
        services::service_list(out@) == with_included(
            services::service_list(services@),
            services::service_list(added@),
        ),
{
    let ghost goal = with_included(
        services::service_list(services@),
        services::service_list(added@),
    );
    let ghost all = services::service_list(added@);
    let mut out = services;
    let mut i: usize = 0;
    assert(all.skip(0) =~= all);
    while i < added.len()
        invariant
            i <= added@.len(),
            all == services::service_list(added@),
            goal == with_included(services::service_list(out@), all.skip(i as int)),
        decreases added@.len() - i,
    {
        assert(all.skip(i as int)[0] == all[i as int]);
        assert(all.skip(i as int).skip(1) =~= all.skip(i + 1));
        let ghost before = services::service_list(out@);
        if find_service(&out, added[i].name.as_str()).is_none() {
            let service = added[i].copy();
            let ghost seen = service@;
            out.push(service);
            assert(services::service_list(out@) =~= before.push(seen));
        }
        i += 1;
    }
    out
}

/// The services of the entry files, each laid over those before it.
pub open spec fn merged_services(
    documents: DocumentsView,
    entries: Seq<Seq<char>>,
    services: Seq<ServiceView>,
) -> std::result::Result<Seq<ServiceView>, ComposeErrorView>
    decreases entries.len(),
{
    if entries.len() == 0 {
        Ok(services)
    } else {
        match files::recorded(documents, entries[0]) {
            Some(document) => merged_services(
                documents,
                entries.skip(1),
                with_services(services, document.services),
            ),
            None => Err(not_loaded(entries[0])),
        }
    }
}

fn merge_entry_services(
    documents: &Vec<(String, ComposeDocument)>,
    entries: &Vec<String>,
) -> (r: crate::compose::Result<Vec<Service>>)
    ensures
        merged_services(documents_view(documents@), text::texts(entries@), seq![]) == match r {
            Ok(list) => Ok(services::service_list(list@)),
            Err(e) => Err(e@),
        },
{
    let ghost docs = documents_view(documents@);
    let ghost all = text::texts(entries@);
    let mut out: Vec<Service> = Vec::new();
    let mut i: usize = 0;
    assert(all.skip(0) =~= all);
    assert(services::service_list(out@) =~= seq![]);
    while i < entries.len()
        invariant
            i <= entries@.len(),
            docs == documents_view(documents@),
            all == text::texts(entries@),
            merged_services(docs, all, seq![]) == merged_services(
                docs,
                all.skip(i as int),
                services::service_list(out@),
            ),
        decreases entries@.len() - i,
    {
        assert(all.skip(i as int)[0] == all[i as int]);
        assert(all.skip(i as int).skip(1) =~= all.skip(i + 1));
        match find_document(documents, entries[i].as_str()) {
            Some(document) => {
                out = add_services(out, &document.services);
            },
            None => {
                return Err(not_loaded_error(entries[i].as_str()));
            },
        }
        i += 1;
    }
    Ok(out)
}

/// How many of the loaded documents are not in the list of paths.
pub open spec fn unlisted(documents: DocumentsView, paths: Seq<Seq<char>>) -> nat
    decreases documents.len(),
{
    if documents.len() == 0 {
        0
    } else {
        let before = unlisted(documents.drop_last(), paths);
        if paths.contains(documents.last().0) {
            before
        } else {
            before + 1
        }
    }
}

proof fn lemma_unlisted_push(documents: DocumentsView, paths: Seq<Seq<char>>, path: Seq<char>)
    ensures
        unlisted(documents, paths.push(path)) <= unlisted(documents, paths),
        !paths.contains(path) && (exists|i: int|
            0 <= i < documents.len() && (#[trigger] documents[i]).0 == path) ==> unlisted(
            documents,
            paths.push(path),
        ) < unlisted(documents, paths),
    decreases documents.len(),
{
    if documents.len() > 0 {
        let init = documents.drop_last();
        let last = documents.last().0;
        lemma_unlisted_push(init, paths, path);
        if paths.contains(last) {
            let k = choose|k: int| 0 <= k < paths.len() && paths[k] == last;
            assert(paths.push(path)[k] == last);
        } else if paths.push(path).contains(last) {
            assert(last == path);
        }
        if last == path {
            assert(paths.push(path)[paths.len() as int] == path);
        }
        if exists|i: int| 0 <= i < documents.len() && (#[trigger] documents[i]).0 == path {
            let i = choose|i: int| 0 <= i < documents.len() && (#[trigger] documents[i]).0 == path;
            if i < init.len() {
                assert(init[i].0 == path);
            }
        }
    }
}

/// The paths found so far and those that follow from the pending ones: each is listed once, ahead
/// of what its document includes.
pub open spec fn included_files(
    documents: DocumentsView,
    pending: Seq<Seq<char>>,
    found: Seq<Seq<char>>,
) -> std::result::Result<Seq<Seq<char>>, ComposeErrorView>
    decreases unlisted(documents, found), pending.len(),
    via included_files_ends
{
    if pending.len() == 0 {
        Ok(found)
    } else if found.contains(pending[0]) {
        included_files(documents, pending.skip(1), found)
    } else {
        match files::recorded(documents, pending[0]) {
            Some(document) => included_files(
                documents,
                document.includes + pending.skip(1),
                found.push(pending[0]),
            ),
            None => Err(not_loaded(pending[0])),
        }
    }
}

#[via_fn]
proof fn included_files_ends(
    documents: DocumentsView,
    pending: Seq<Seq<char>>,
    found: Seq<Seq<char>>,
) {
    if pending.len() > 0 {
        files::lemma_recorded(documents, pending[0]);
        lemma_unlisted_push(documents, found, pending[0]);
    }
}

/// The files that the entry files include, directly or through others.
pub open spec fn all_included(
    documents: DocumentsView,
    entries: Seq<Seq<char>>,
    found: Seq<Seq<char>>,
) -> std::result::Result<Seq<Seq<char>>, ComposeErrorView>
    decreases entries.len(),
{
    if entries.len() == 0 {
        Ok(found)
    } else {
        match files::recorded(documents, entries[0]) {
            Some(document) => match included_files(documents, document.includes, found) {
                Ok(found) => all_included(documents, entries.skip(1), found),
                Err(e) => Err(e),
            },
            None => Err(not_loaded(entries[0])),
        }
    }
}

/// The contents of a result that is a list of texts.
pub open spec fn texts_result(
    r: crate::compose::Result<Vec<String>>,
) -> std::result::Result<Seq<Seq<char>>, ComposeErrorView> {
    match r {
        Ok(list) => Ok(text::texts(list@)),
        Err(e) => Err(e@),
    }
}

fn collect_include_files(
    documents: &Vec<(String, ComposeDocument)>,
    includes: &Vec<String>,
    found: Vec<String>,
) -> (r: crate::compose::Result<Vec<String>>)
    ensures
        texts_result(r) == included_files(
            documents_view(documents@),
            text::texts(includes@),
            text::texts(found@),
        ),
{
    let ghost docs = documents_view(documents@);
    let ghost goal = included_files(docs, text::texts(includes@), text::texts(found@));
    let mut out = found;
    let mut pending = text::copy_list(includes);
    let nothing: Vec<String> = Vec::new();
    assert(text::texts(nothing@) =~= seq![]);
    while pending.len() > 0
        invariant
            docs == documents_view(documents@),
            text::texts(nothing@) == Seq::<Seq<char>>::empty(),
            goal == included_files(docs, text::texts(includes@), text::texts(found@)),
            goal == included_files(docs, text::texts(pending@), text::texts(out@)),
        decreases unlisted(docs, text::texts(out@)), pending@.len(),
    {
        let ghost waiting = text::texts(pending@);
        let ghost before = text::texts(out@);
        assert(waiting[0] == pending@[0]@);
        if text::list_contains(out.as_slice(), pending[0].as_str()) {
            let rest = concat_lists(&nothing, &nothing, &pending, 1);
            assert(text::texts(rest@) =~= waiting.skip(1));
            assert(text::texts(rest@).len() == rest@.len());
            pending = rest;
        } else {
            match find_document(documents, pending[0].as_str()) {
                Some(document) => {
                    proof {
                        files::lemma_recorded(docs, waiting[0]);
                        lemma_unlisted_push(docs, before, waiting[0]);
                    }
                    let next = concat_lists(&document.includes, &nothing, &pending, 1);
                    assert(text::texts(next@) =~= document@.includes + waiting.skip(1));
                    out.push(pending[0].clone());
                    assert(text::texts(out@) =~= before.push(waiting[0]));
                    pending = next;
                },
                None => {
                    return Err(not_loaded_error(pending[0].as_str()));
                },
            }
        }
    }
    assert(text::texts(pending@).len() == 0);
    Ok(out)
}

fn collect_all_includes(
    documents: &Vec<(String, ComposeDocument)>,
    entries: &Vec<String>,
) -> (r: crate::compose::Result<Vec<String>>)
    ensures
        texts_result(r) == all_included(
            documents_view(documents@),
            text::texts(entries@),
            seq![],
        ),
{
    let ghost docs = documents_view(documents@);
    let ghost all = text::texts(entries@);
    let mut out: Vec<String> = Vec::new();
    let mut i: usize = 0;
    assert(all.skip(0) =~= all);
    assert(text::texts(out@) =~= seq![]);
    while i < entries.len()
        invariant
            i <= entries@.len(),
            docs == documents_view(documents@),
            all == text::texts(entries@),
            all_included(docs, all, seq![]) == all_included(
                docs,
                all.skip(i as int),
                text::texts(out@),
            ),
        decreases entries@.len() - i,
    {
        assert(all.skip(i as int)[0] == all[i as int]);
        assert(all.skip(i as int).skip(1) =~= all.skip(i + 1));
        match find_document(documents, entries[i].as_str()) {
            Some(document) => match collect_include_files(documents, &document.includes, out) {
                Ok(list) => {
                    out = list;
                },
                Err(e) => {
                    return Err(e);
                },
            },
            None => {
                return Err(not_loaded_error(entries[i].as_str()));
            },
        }
        i += 1;
    }
    Ok(out)
}

/// The services after those of the included files are added; a file that is also an entry file
/// adds nothing more.
pub open spec fn included_services(
    documents: DocumentsView,
    entries: Seq<Seq<char>>,
    included: Seq<Seq<char>>,
    services: Seq<ServiceView>,
) -> std::result::Result<Seq<ServiceView>, ComposeErrorView>
    decreases included.len(),
{
    if included.len() == 0 {
        Ok(services)
    } else if entries.contains(included[0]) {
        included_services(documents, entries, included.skip(1), services)
    } else {
        match files::recorded(documents, included[0]) {
            Some(document) => included_services(
                documents,
                entries,
                included.skip(1),
                with_included(services, document.services),
            ),
            None => Err(not_loaded(included[0])),
        }
    }
}

fn add_included_services(
    documents: &Vec<(String, ComposeDocument)>,
    entries: &Vec<String>,
    included: &Vec<String>,
    services: Vec<Service>,
) -> (r: crate::compose::Result<Vec<Service>>)
    ensures
        included_services(
            documents_view(documents@),
            text::texts(entries@),
            text::texts(included@),
            services::service_list(services@),
        ) == match r {
            Ok(list) => Ok(services::service_list(list@)),
            Err(e) => Err(e@),
        },
{
    let ghost docs = documents_view(documents@);
    let ghost starts = text::texts(entries@);
    let ghost all = text::texts(included@);
    let ghost goal = included_services(docs, starts, all, services::service_list(services@));
    let mut out = services;
    let mut i: usize = 0;
    assert(all.skip(0) =~= all);
    while i < included.len()
        invariant
            i <= included@.len(),
            docs == documents_view(documents@),
            starts == text::texts(entries@),
            all == text::texts(included@),
            goal == included_services(docs, starts, all, services::service_list(services@)),
            goal == included_services(
                docs,
                starts,
                all.skip(i as int),
                services::service_list(out@),
            ),
        decreases included@.len() - i,
    {
        assert(all.skip(i as int)[0] == all[i as int]);
        assert(all.skip(i as int).skip(1) =~= all.skip(i + 1));
        if !text::list_contains(entries.as_slice(), included[i].as_str()) {
            match find_document(documents, included[i].as_str()) {
                Some(document) => {
                    out = add_included(out, &document.services);
                },
                None => {
                    return Err(not_loaded_error(included[i].as_str()));
                },
            }
        }
        i += 1;
    }
    Ok(out)
}

/// Which service is meant: the file that defines it, the file that its paths are relative to, and
/// its name.
#[derive(Debug)]
pub struct ServiceKey {
    pub file: String,
    pub source_file: String,
    pub name: String,
}

/// Which service is meant, as text.
pub struct KeyView {
    pub file: Seq<char>,
    pub source_file: Seq<char>,
    pub name: Seq<char>,
}

impl View for ServiceKey {
    type V = KeyView;

    open spec fn view(&self) -> KeyView {
        KeyView { file: self.file@, source_file: self.source_file@, name: self.name@ }
    }
}

/// Which services are meant.
pub open spec fn keys_view(keys: Seq<ServiceKey>) -> Seq<KeyView> {
    keys.map_values(|k: ServiceKey| k@)
}

/// The loaded parts of a project.
pub struct ProjectView {
    pub documents: DocumentsView,
    pub dir: Seq<char>,
}

/// The service that a key means.
pub open spec fn service_at(
    documents: DocumentsView,
    key: KeyView,
) -> std::result::Result<ServiceView, ComposeErrorView> {
    match files::recorded(documents, key.file) {
        None => Err(not_loaded(key.file)),
        Some(document) => match service_index(document.services, key.name) {
            Some(i) => Ok(document.services[i]),
            None => Err(
                ComposeErrorView::InvalidInput(
                    "compose service `"@ + key.name + "` not found in `"@ + key.file + "`"@,
                ),
            ),
        },
    }
}

fn find_service_at(
    documents: &Vec<(String, ComposeDocument)>,
    key: &ServiceKey,
) -> (r: crate::compose::Result<Service>)
    ensures
        service_at(documents_view(documents@), key@) == match r {
            Ok(service) => Ok(service@),
            Err(e) => Err(e@),
        },
{
    match find_document(documents, key.file.as_str()) {
        None => Err(not_loaded_error(key.file.as_str())),
        Some(document) => match find_service(&document.services, key.name.as_str()) {
            Some(i) => Ok(document.services[i].copy()),
            None => {
                let mut m = concat3(
                    "compose service `",
                    key.name.as_str(),
                    "` not found in `",
                );
                m.append(key.file.as_str());
                m.append("`");
                Err(ComposeError::InvalidInput(m))
            },
        },
    }
}

/// The directory that the paths of an `extends` are relative to.
pub open spec fn extends_base(family: HostFamily, project: ProjectView, key: KeyView) -> Seq<char> {
    match path::parent_view(family, key.source_file) {
        Some(parent) => if path::is_absolute_view(family, key.source_file) {
            parent
        } else {
            project.dir
        },
        None => project.dir,
    }
}

/// The service that an `extends` names: a text names one of the same document, and a mapping one
/// of the same document or of another file.
pub open spec fn extended_key(
    files: FilesView,
    project: ProjectView,
    key: KeyView,
    extends: YamlView,
) -> StepView<Option<KeyView>> {
    match value::as_text(extends) {
        Some(name) => StepView::Done(
            Some(KeyView { file: key.file, source_file: key.source_file, name }),
        ),
        None => match value::get_text(extends, "service"@) {
            None => StepView::Done(None),
            Some(name) => match value::get_text(extends, "file"@) {
                None => StepView::Done(
                    Some(KeyView { file: key.file, source_file: key.file, name }),
                ),
                Some(file) => match files::canonical_path(
                    files,
                    path::join_view(
                        files.family,
                        extends_base(files.family, project, key),
                        file,
                    ),
                ) {
                    StepView::Done(file) => StepView::Done(
                        Some(KeyView { file, source_file: file, name }),
                    ),
                    StepView::Failed(e) => StepView::Failed(e),
                    StepView::Need(request) => StepView::Need(request),
                },
            },
        },
    }
}

fn extends_key(
    files: &Files,
    dir: &str,
    key: &ServiceKey,
    extends: &Yaml,
    Ghost(documents): Ghost<DocumentsView>,
) -> (r: Step<Option<ServiceKey>>)
    ensures
        extended_key(files@, ProjectView { documents, dir: dir@ }, key@, extends@) == match r {
            Step::Done(Some(k)) => StepView::Done(Some(k@)),
            Step::Done(None) => StepView::Done(None),
            Step::Failed(e) => StepView::Failed(e@),
            Step::Need(request) => StepView::Need(request@),
        },
{
    if let Some(name) = as_str(extends) {
        return Step::Done(
            Some(
                ServiceKey {
                    file: key.file.clone(),
                    source_file: key.source_file.clone(),
                    name: name.to_owned(),
                },
            ),
        );
    }
    let name = match mapping_get_string(extends, "service") {
        Some(name) => name,
        None => {
            return Step::Done(None);
        },
    };
    match mapping_get_string(extends, "file") {
        None => Step::Done(
            Some(ServiceKey { file: key.file.clone(), source_file: key.file.clone(), name }),
        ),
        Some(file) => {
            let base = match path::parent(files.family, key.source_file.as_str()) {
                Some(parent) => {
                    if path::is_absolute(files.family, key.source_file.as_str()) {
                        parent
                    } else {
                        dir.to_owned()
                    }
                },
                None => dir.to_owned(),
            };
            let joined = path::join(files.family, base.as_str(), file.as_str());
            match normalize_path(files, joined.as_str()) {
                Step::Done(file) => Step::Done(
                    Some(ServiceKey { file: file.clone(), source_file: file, name }),
                ),
                Step::Failed(e) => Step::Failed(e),
                Step::Need(request) => Step::Need(request),
            }
        },
    }
}

/// How many of the keys that a service can be reached by are not on the stack. A service of a
/// document is reached by a key whose source is that document or the origin.
pub open spec fn fresh_in_services(
    file: Seq<char>,
    services: Seq<ServiceView>,
    origin: Seq<char>,
    stack: Seq<KeyView>,
) -> nat
    decreases services.len(),
{
    if services.len() == 0 {
        0
    } else {
        let name = services.last().name;
        let own: nat = if stack.contains(KeyView { file, source_file: file, name }) {
            0
        } else {
            1
        };
        let from_origin: nat = if stack.contains(KeyView { file, source_file: origin, name }) {
            0
        } else {
            1
        };
        fresh_in_services(file, services.drop_last(), origin, stack) + own + from_origin
    }
}

/// How many of the keys that the services of the documents can be reached by are not on the stack.
pub open spec fn fresh_keys(
    documents: DocumentsView,
    origin: Seq<char>,
    stack: Seq<KeyView>,
) -> nat
    decreases documents.len(),
{
    if documents.len() == 0 {
        0
    } else {
        fresh_keys(documents.drop_last(), origin, stack) + fresh_in_services(
            documents.last().0,
            documents.last().1.services,
            origin,
            stack,
        )
    }
}

proof fn lemma_push_contains(stack: Seq<KeyView>, key: KeyView, other: KeyView)
    ensures
        stack.push(key).contains(other) <==> stack.contains(other) || other == key,
{
    if stack.contains(other) {
        let k = choose|k: int| 0 <= k < stack.len() && stack[k] == other;
        assert(stack.push(key)[k] == other);
    }
    if other == key {
        assert(stack.push(key)[stack.len() as int] == key);
    }
}

proof fn lemma_fresh_in_services(
    file: Seq<char>,
    services: Seq<ServiceView>,
    origin: Seq<char>,
    stack: Seq<KeyView>,
    key: KeyView,
)
    ensures
        fresh_in_services(file, services, origin, stack.push(key)) <= fresh_in_services(
            file,
            services,
            origin,
            stack,
        ),
        !stack.contains(key) && key.file == file && (key.source_file == file || key.source_file
            == origin) && (exists|i: int|
            0 <= i < services.len() && (#[trigger] services[i]).name == key.name)
            ==> fresh_in_services(file, services, origin, stack.push(key)) < fresh_in_services(
            file,
            services,
            origin,
            stack,
        ),
    decreases services.len(),
{
    if services.len() > 0 {
        let init = services.drop_last();
        let name = services.last().name;
        lemma_fresh_in_services(file, init, origin, stack, key);
        lemma_push_contains(stack, key, KeyView { file, source_file: file, name });
        lemma_push_contains(stack, key, KeyView { file, source_file: origin, name });
        if exists|i: int| 0 <= i < services.len() && (#[trigger] services[i]).name == key.name {
            let i = choose|i: int|
                0 <= i < services.len() && (#[trigger] services[i]).name == key.name;
            if i < init.len() {
                assert(init[i].name == key.name);
            }
        }
    }
}

proof fn lemma_fresh_keys(
    documents: DocumentsView,
    origin: Seq<char>,
    stack: Seq<KeyView>,
    key: KeyView,
    at: int,
)
    ensures
        fresh_keys(documents, origin, stack.push(key)) <= fresh_keys(documents, origin, stack),
        !stack.contains(key) && 0 <= at < documents.len() && documents[at].0 == key.file && (
        key.source_file == key.file || key.source_file == origin) && (exists|i: int|
            0 <= i < documents[at].1.services.len() && (#[trigger] documents[at].1.services[i]).name
                == key.name) ==> fresh_keys(documents, origin, stack.push(key)) < fresh_keys(
            documents,
            origin,
            stack,
        ),
    decreases documents.len(),
{
    if documents.len() > 0 {
        let init = documents.drop_last();
        lemma_fresh_keys(init, origin, stack, key, at);
        lemma_fresh_in_services(
            documents.last().0,
            documents.last().1.services,
            origin,
            stack,
            key,
        );
        if 0 <= at < init.len() {
            assert(init[at] == documents[at]);
        }
    }
}

/// Putting the key of a service that exists on the stack uses it up.
proof fn lemma_resolving_ends(
    documents: DocumentsView,
    origin: Seq<char>,
    stack: Seq<KeyView>,
    key: KeyView,
)
    requires
        !stack.contains(key),
        service_at(documents, key) is Ok,
        key.source_file == key.file || key.source_file == origin,
    ensures
        fresh_keys(documents, origin, stack.push(key)) < fresh_keys(documents, origin, stack),
{
    files::lemma_recorded(documents, key.file);
    let at = choose|at: int|
        0 <= at < documents.len() && (#[trigger] documents[at]).0 == key.file && files::recorded(
            documents,
            key.file,
        ) == Some(documents[at].1);
    lemma_service_index(documents[at].1.services, key.name);
    lemma_fresh_keys(documents, origin, stack, key, at);
}

/// The value of a service with what it extends under it. `origin` is the source file that the
/// resolution started from, and the stack holds the keys that lead here.
pub open spec fn resolved_service(
    files: FilesView,
    project: ProjectView,
    origin: Seq<char>,
    key: KeyView,
    stack: Seq<KeyView>,
) -> StepView<YamlView>
    decreases fresh_keys(project.documents, origin, stack),
    when key.source_file == key.file || key.source_file == origin
    via resolved_service_ends
{
    if stack.contains(key) {
        StepView::Failed(
            ComposeErrorView::InvalidInput("compose extends cycle at service `"@ + key.name + "`"@),
        )
    } else {
        match service_at(project.documents, key) {
            Err(e) => StepView::Failed(e),
            Ok(service) => match extends_of(service.value) {
                None => StepView::Done(service.value),
                Some(extends) => match extended_key(files, project, key, extends) {
                    StepView::Failed(e) => StepView::Failed(e),
                    StepView::Need(request) => StepView::Need(request),
                    StepView::Done(None) => StepView::Done(service.value),
                    StepView::Done(Some(parent)) => match resolved_service(
                        files,
                        project,
                        origin,
                        parent,
                        stack.push(key),
                    ) {
                        StepView::Done(under) => StepView::Done(
                            value::merged(under, service.value),
                        ),
                        StepView::Failed(e) => StepView::Failed(e),
                        StepView::Need(request) => StepView::Need(request),
                    },
                },
            },
        }
    }
}

/// What a service extends.
pub open spec fn extends_of(service: YamlView) -> Option<YamlView> {
    match value::mapping_view(service) {
        Some(entries) => value::mapping_get_view(entries, "extends"@),
        None => None,
    }
}

#[via_fn]
proof fn resolved_service_ends(
    files: FilesView,
    project: ProjectView,
    origin: Seq<char>,
    key: KeyView,
    stack: Seq<KeyView>,
) {
    if !stack.contains(key) && service_at(project.documents, key) is Ok {
        lemma_resolving_ends(project.documents, origin, stack, key);
    }
}

fn stack_contains(stack: &Vec<ServiceKey>, key: &ServiceKey) -> (r: bool)
    ensures
        r == keys_view(stack@).contains(key@),
{
    let ghost all = keys_view(stack@);
    let mut i: usize = 0;
    while i < stack.len()
        invariant
            i <= stack@.len(),
            all == keys_view(stack@),
            forall|j: int| 0 <= j < i ==> all[j] != key@,
        decreases stack@.len() - i,
    {
        assert(all[i as int] == stack@[i as int]@);
        if text::same(stack[i].file.as_str(), key.file.as_str()) && text::same(
            stack[i].source_file.as_str(),
            key.source_file.as_str(),
        ) && text::same(stack[i].name.as_str(), key.name.as_str()) {
            assert(all[i as int] == key@);
            return true;
        }
        i += 1;
    }
    false
}

/// The step of a computation that gives a value.
pub open spec fn value_step(step: Step<Yaml>) -> StepView<YamlView> {
    match step {
        Step::Done(v) => StepView::Done(v@),
        Step::Failed(e) => StepView::Failed(e@),
        Step::Need(request) => StepView::Need(request@),
    }
}

fn resolve_service(
    files: &Files,
    documents: &Vec<(String, ComposeDocument)>,
    dir: &str,
    key: ServiceKey,
    stack: Vec<ServiceKey>,
    Ghost(origin): Ghost<Seq<char>>,
) -> (r: Step<Yaml>)
    requires
        key@.source_file == key@.file || key@.source_file == origin,
    ensures
        value_step(r) == resolved_service(
            files@,
            ProjectView { documents: documents_view(documents@), dir: dir@ },
            origin,
            key@,
            keys_view(stack@),
        ),
    decreases fresh_keys(documents_view(documents@), origin, keys_view(stack@)),
{
    let ghost project = ProjectView { documents: documents_view(documents@), dir: dir@ };
    let ghost before = keys_view(stack@);
    if stack_contains(&stack, &key) {
        return Step::Failed(
            ComposeError::InvalidInput(
                concat3("compose extends cycle at service `", key.name.as_str(), "`"),
            ),
        );
    }
    let service = match find_service_at(documents, &key) {
        Ok(service) => service,
        Err(e) => {
            return Step::Failed(e);
        },
    };
    let parent = match value_mapping(&service.value) {
        None => {
            return Step::Done(service.value);
        },
        Some(entries) => match mapping_get(entries, "extends") {
            None => {
                return Step::Done(service.value);
            },
            Some(extends) => match extends_key(
                files,
                dir,
                &key,
                extends,
                Ghost(project.documents),
            ) {
                Step::Failed(e) => {
                    return Step::Failed(e);
                },
                Step::Need(request) => {
                    return Step::Need(request);
                },
                Step::Done(None) => {
                    return Step::Done(service.value);
                },
                Step::Done(Some(parent)) => parent,
            },
        },
    };
    proof {
        lemma_resolving_ends(project.documents, origin, before, key@);
    }
    let ghost seen = key@;
    let mut path_here = stack;
    path_here.push(key);
    assert(keys_view(path_here@) =~= before.push(seen));
    match resolve_service(files, documents, dir, parent, path_here, Ghost(origin)) {
        Step::Done(under) => Step::Done(merge_values(under, service.value)),
        Step::Failed(e) => Step::Failed(e),
        Step::Need(request) => Step::Need(request),
    }
}

/// The name under which the merged services of a project are kept.
pub open spec fn merged_name() -> Seq<char> {
    "<merged-compose>"@
}

/// What a resolved service contributes: its image, or that it is only built, or nothing.
pub open spec fn service_image(name: Seq<char>, resolved: YamlView) -> Option<ServiceImageView> {
    match value::get_text(resolved, "image"@) {
        Some(image) => Some(
            ServiceImageView {
                service: name,
                image: Some(image),
                build_only: false,
                profiles: profiles_of(resolved),
            },
        ),
        None => if value::has_key(resolved, "build"@) {
            Some(
                ServiceImageView {
                    service: name,
                    image: None,
                    build_only: true,
                    profiles: profiles_of(resolved),
                },
            )
        } else {
            None
        },
    }
}

fn find_service_image(name: &str, resolved: &Yaml) -> (r: Option<ComposeServiceImage>)
    ensures
        service_image(name@, resolved@) == match r {
            Some(service) => Some(service@),
            None => None,
        },
{
    match mapping_get_string(resolved, "image") {
        Some(image) => Some(
            ComposeServiceImage {
                service: name.to_owned(),
                image: Some(image),
                build_only: false,
                profiles: collect_profiles(resolved),
            },
        ),
        None => {
            if mapping_has_key(resolved, "build") {
                Some(
                    ComposeServiceImage {
                        service: name.to_owned(),
                        image: None,
                        build_only: true,
                        profiles: collect_profiles(resolved),
                    },
                )
            } else {
                None
            }
        },
    }
}

/// What the services contribute after what is there already, each with what it extends.
pub open spec fn service_images(
    files: FilesView,
    project: ProjectView,
    services: Seq<ServiceView>,
    found: Seq<ServiceImageView>,
) -> StepView<Seq<ServiceImageView>>
    decreases services.len(),
{
    if services.len() == 0 {
        StepView::Done(found)
    } else {
        let service = services[0];
        match resolved_service(
            files,
            project,
            service.source_file,
            KeyView {
                file: merged_name(),
                source_file: service.source_file,
                name: service.name,
            },
            seq![],
        ) {
            StepView::Failed(e) => StepView::Failed(e),
            StepView::Need(request) => StepView::Need(request),
            StepView::Done(resolved) => service_images(
                files,
                project,
                services.skip(1),
                match service_image(service.name, resolved) {
                    Some(image) => found.push(image),
                    None => found,
                },
            ),
        }
    }
}

/// The services of a project: those of its entry files, and those of the files they include.
pub open spec fn project_services(
    documents: DocumentsView,
    entries: Seq<Seq<char>>,
) -> std::result::Result<Seq<ServiceView>, ComposeErrorView> {
    match merged_services(documents, entries, seq![]) {
        Err(e) => Err(e),
        Ok(services) => match all_included(documents, entries, seq![]) {
            Err(e) => Err(e),
            Ok(included) => included_services(documents, entries, included, services),
        },
    }
}

/// The images of a project whose documents are loaded.
pub open spec fn loaded_images(
    files: FilesView,
    documents: DocumentsView,
    entries: Seq<Seq<char>>,
    dir: Seq<char>,
) -> StepView<ComposeImagesView> {
    match project_services(documents, entries) {
        Err(e) => StepView::Failed(e),
        Ok(merged) => {
            let synthetic = (merged_name(), DocumentView { services: merged, includes: seq![] });
            let project = ProjectView { documents: seq![synthetic] + documents, dir };
            match service_images(files, project, merged, seq![]) {
                StepView::Done(found) => StepView::Done(crate::compose::images_of(found)),
                StepView::Failed(e) => StepView::Failed(e),
                StepView::Need(request) => StepView::Need(request),
            }
        },
    }
}

/// The images of a compose project, as far as the file system is known: the project starts from
/// the given files or from the compose file of the directory, and sees the variables of the
/// process.
pub open spec fn project_images(
    files: FilesView,
    given: Seq<Seq<char>>,
    dir: Seq<char>,
    process: Map<Seq<char>, Seq<char>>,
) -> StepView<ComposeImagesView> {
    match entry_files(files, given, dir) {
        StepView::Failed(e) => StepView::Failed(e),
        StepView::Need(request) => StepView::Need(request),
        StepView::Done(entries) => match project_env(
            files,
            project_dir(files.family, entries, dir),
            process,
        ) {
            StepView::Failed(e) => StepView::Failed(e),
            StepView::Need(request) => StepView::Need(request),
            StepView::Done(values) => match load_all(files, values, entries, seq![]) {
                StepView::Failed(e) => StepView::Failed(e),
                StepView::Need(request) => StepView::Need(request),
                StepView::Done(documents) => loaded_images(
                    files,
                    documents,
                    entries,
                    project_dir(files.family, entries, dir),
                ),
            },
        },
    }
}

/// The step of a computation that gives the images of a project.
pub open spec fn images_step(step: Step<ComposeImages>) -> StepView<ComposeImagesView> {
    match step {
        Step::Done(images) => StepView::Done(images@),
        Step::Failed(e) => StepView::Failed(e@),
        Step::Need(request) => StepView::Need(request@),
    }
}

fn copy_services(services: &Vec<Service>) -> (out: Vec<Service>)
    ensures
        services::service_list(out@) == services::service_list(services@),
{
    let mut out: Vec<Service> = Vec::new();
    let mut i: usize = 0;
    while i < services.len()
        invariant
            i <= services@.len(),
            out@.len() == i,
            forall|j: int| 0 <= j < i ==> (#[trigger] out@[j])@ == services@[j]@,
        decreases services@.len() - i,
    {
        out.push(services[i].copy());
        i += 1;
    }
    assert(services::service_list(out@) =~= services::service_list(services@));
    out
}

/// Resolves the services of a project whose documents, the merged one among them, are loaded.
fn resolve_service_images(
    files: &Files,
    documents: &Vec<(String, ComposeDocument)>,
    dir: &str,
    services: &Vec<Service>,
) -> (r: Step<ComposeImages>)
    ensures
        images_step(r) == match service_images(
            files@,
            ProjectView { documents: documents_view(documents@), dir: dir@ },
            services::service_list(services@),
            seq![],
        ) {
            StepView::Done(found) => StepView::Done(crate::compose::images_of(found)),
            StepView::Failed(e) => StepView::Failed(e),
            StepView::Need(request) => StepView::Need(request),
        },
{
    let ghost project = ProjectView { documents: documents_view(documents@), dir: dir@ };
    let ghost all = services::service_list(services@);
    let ghost goal = service_images(files@, project, all, seq![]);
    let mut images = no_images();
    let mut i: usize = 0;
    assert(all.skip(0) =~= all);
    while i < services.len()
        invariant
            i <= services@.len(),
            project == (ProjectView { documents: documents_view(documents@), dir: dir@ }),
            all == services::service_list(services@),
            goal == service_images(files@, project, all, seq![]),
            images@ == crate::compose::images_of(images@.services),
            goal == service_images(files@, project, all.skip(i as int), images@.services),
        decreases services@.len() - i,
    {
        assert(all.skip(i as int)[0] == all[i as int]);
        assert(all.skip(i as int).skip(1) =~= all.skip(i + 1));
        let key = ServiceKey {
            file: "<merged-compose>".to_owned(),
            source_file: services[i].source_file.clone(),
            name: services[i].name.clone(),
        };
        let stack: Vec<ServiceKey> = Vec::new();
        assert(keys_view(stack@) =~= seq![]);
        let ghost origin = services@[i as int].source_file@;
        match resolve_service(files, documents, dir, key, stack, Ghost(origin)) {
            Step::Done(resolved) => {
                if let Some(image) = find_service_image(services[i].name.as_str(), &resolved) {
                    push_service(&mut images, image);
                }
            },
            Step::Failed(e) => {
                return Step::Failed(e);
            },
            Step::Need(request) => {
                return Step::Need(request);
            },
        }
        i += 1;
    }
    Step::Done(images)
}

/// Finds the images of a project whose documents are loaded.
fn resolve_loaded_images(
    files: &Files,
    documents: Vec<(String, ComposeDocument)>,
    entries: &Vec<String>,
    dir: &str,
) -> (r: Step<ComposeImages>)
    ensures
        images_step(r) == loaded_images(
            files@,
            documents_view(documents@),
            text::texts(entries@),
            dir@,
        ),
{
    let services = match merge_entry_services(&documents, entries) {
        Ok(services) => services,
        Err(e) => {
            return Step::Failed(e);
        },
    };
    let included = match collect_all_includes(&documents, entries) {
        Ok(included) => included,
        Err(e) => {
            return Step::Failed(e);
        },
    };
    let services = match add_included_services(&documents, entries, &included, services) {
        Ok(services) => services,
        Err(e) => {
            return Step::Failed(e);
        },
    };
    let ghost docs = documents_view(documents@);
    let merged = ComposeDocument { services: copy_services(&services), includes: Vec::new() };
    let ghost seen = (merged_name(), merged@);
    assert(merged@.includes =~= seq![]);
    let mut all = documents;
    all.insert(0, ("<merged-compose>".to_owned(), merged));
    assert(documents_view(all@) =~= seq![seen] + docs);
    resolve_service_images(files, &all, dir, &services)
}

/// Finds the images of a compose project, as far as the file system is known. Where something is
/// not known yet, the result asks for it.
pub fn resolve_images(
    files: &Files,
    given: &[String],
    working_dir: &str,
    process: Variables,
) -> (r: Step<ComposeImages>)
    ensures
        images_step(r) == project_images(files@, text::texts(given@), working_dir@, process@),
{
    let entries = match find_entry_files(files, given, working_dir) {
        Step::Done(entries) => entries,
        Step::Failed(e) => {
            return Step::Failed(e);
        },
        Step::Need(request) => {
            return Step::Need(request);
        },
    };
    let dir = find_project_dir(files.family, &entries, working_dir);
    let values = match load_compose_env(files, dir.as_str(), process) {
        Step::Done(values) => values,
        Step::Failed(e) => {
            return Step::Failed(e);
        },
        Step::Need(request) => {
            return Step::Need(request);
        },
    };
    match load_documents(files, &values, &entries) {
        Step::Done(documents) => resolve_loaded_images(files, documents, &entries, dir.as_str()),
        Step::Failed(e) => Step::Failed(e),
        Step::Need(request) => Step::Need(request),
    }
}

/// Whether nothing is recorded that would answer the request.
pub open spec fn is_open(files: FilesView, request: FileRequestView) -> bool {
    match request {
        FileRequestView::IsFile(path) => files::recorded(files.regular, path) is None,
        FileRequestView::Canonical(path) => files::recorded(files.canonical, path) is None,
        FileRequestView::Text(path) => files::recorded(files.texts, path) is None,
    }
}

/// Resolving a project never asks for what is recorded already, so that each answer that is
/// recorded brings it further.
pub proof fn law_never_asks_for_what_is_known(
    files: FilesView,
    given: Seq<Seq<char>>,
    dir: Seq<char>,
    process: Map<Seq<char>, Seq<char>>,
)
    ensures
        project_images(files, given, dir, process) matches StepView::Need(request) ==> is_open(
            files,
            request,
        ),
{
    lemma_open_first_existing(files, dir, default_names());
    lemma_open_canonical_paths(files, dir, given);
    match entry_files(files, given, dir) {
        StepView::Done(entries) => {
            let base = project_dir(files.family, entries, dir);
            match project_env(files, base, process) {
                StepView::Done(values) => {
                    lemma_open_load_all(files, values, entries, seq![]);
                    match load_all(files, values, entries, seq![]) {
                        StepView::Done(documents) => {
                            match project_services(documents, entries) {
                                Ok(merged) => {
                                    let synthetic = (
                                        merged_name(),
                                        DocumentView { services: merged, includes: seq![] },
                                    );
                                    let project = ProjectView {
                                        documents: seq![synthetic] + documents,
                                        dir: base,
                                    };
                                    lemma_open_service_images(files, project, merged, seq![]);
                                },
                                Err(_) => {},
                            }
                        },
                        _ => {},
                    }
                },
                _ => {},
            }
        },
        _ => {},
    }
}

proof fn lemma_open_first_existing(files: FilesView, dir: Seq<char>, names: Seq<Seq<char>>)
    ensures
        first_existing(files, dir, names) matches StepView::Need(request) ==> is_open(
            files,
            request,
        ),
    decreases names.len(),
{
    if names.len() > 0 {
        lemma_open_first_existing(files, dir, names.skip(1));
    }
}

proof fn lemma_open_canonical_paths(files: FilesView, base: Seq<char>, paths: Seq<Seq<char>>)
    ensures
        files::canonical_paths(files, base, paths) matches StepView::Need(request) ==> is_open(
            files,
            request,
        ),
    decreases paths.len(),
{
    if paths.len() > 0 {
        lemma_open_canonical_paths(files, base, paths.skip(1));
    }
}

proof fn lemma_open_document(files: FilesView, values: Map<Seq<char>, Seq<char>>, file: Seq<char>)
    ensures
        document_at(files, values, file) matches StepView::Need(request) ==> is_open(
            files,
            request,
        ),
{
    match files::recorded(files.texts, file) {
        Some(Ok(source)) => {
            match crate::compose::interpolate::interpolated(source, values) {
                Ok(source) => {
                    match value::yaml_document(source) {
                        Ok(document) => {
                            lemma_open_canonical_paths(
                                files,
                                document_dir(files.family, file),
                                services::includes_of(document),
                            );
                        },
                        Err(_) => {},
                    }
                },
                Err(_) => {},
            }
        },
        _ => {},
    }
}

proof fn lemma_open_load_all(
    files: FilesView,
    values: Map<Seq<char>, Seq<char>>,
    pending: Seq<Seq<char>>,
    documents: DocumentsView,
)
    ensures
        load_all(files, values, pending, documents) matches StepView::Need(request) ==> is_open(
            files,
            request,
        ),
    decreases unloaded(files.texts, documents), pending.len(),
{
    if pending.len() > 0 {
        match files::canonical_path(files, pending[0]) {
            StepView::Done(file) => {
                if files::recorded(documents, file) is Some {
                    lemma_open_load_all(files, values, pending.skip(1), documents);
                } else {
                    lemma_open_document(files, values, file);
                    match document_at(files, values, file) {
                        StepView::Done((document, extends)) => {
                            lemma_loading_ends(files, values, file, documents, document);
                            lemma_open_load_all(
                                files,
                                values,
                                document.includes + extends + pending.skip(1),
                                documents.push((file, document)),
                            );
                        },
                        _ => {},
                    }
                }
            },
            _ => {},
        }
    }
}

proof fn lemma_open_resolved_service(
    files: FilesView,
    project: ProjectView,
    origin: Seq<char>,
    key: KeyView,
    stack: Seq<KeyView>,
)
    requires
        key.source_file == key.file || key.source_file == origin,
    ensures
        resolved_service(files, project, origin, key, stack) matches StepView::Need(request)
            ==> is_open(files, request),
    decreases fresh_keys(project.documents, origin, stack),
{
    if !stack.contains(key) {
        match service_at(project.documents, key) {
            Ok(service) => {
                lemma_resolving_ends(project.documents, origin, stack, key);
                match extends_of(service.value) {
                    Some(extends) => {
                        match extended_key(files, project, key, extends) {
                            StepView::Done(Some(parent)) => {
                                lemma_open_resolved_service(
                                    files,
                                    project,
                                    origin,
                                    parent,
                                    stack.push(key),
                                );
                            },
                            _ => {},
                        }
                    },
                    None => {},
                }
            },
            Err(_) => {},
        }
    }
}

proof fn lemma_open_service_images(
    files: FilesView,
    project: ProjectView,
    services: Seq<ServiceView>,
    found: Seq<ServiceImageView>,
)
    ensures
        service_images(files, project, services, found) matches StepView::Need(request) ==> is_open(
            files,
            request,
        ),
    decreases services.len(),
{
    if services.len() > 0 {
        let service = services[0];
        let key = KeyView {
            file: merged_name(),
            source_file: service.source_file,
            name: service.name,
        };
        lemma_open_resolved_service(files, project, service.source_file, key, seq![]);
        match resolved_service(files, project, service.source_file, key, seq![]) {
            StepView::Done(resolved) => {
                let next = match service_image(service.name, resolved) {
                    Some(image) => found.push(image),
                    None => found,
                };
                lemma_open_service_images(files, project, services.skip(1), next);
            },
            _ => {},
        }
    }
}

/// What a service contributes is the image that it names; where it names none, that it is only
/// built, if it is; and otherwise nothing. Its profiles go with it.
pub proof fn law_a_service_contributes_its_image(name: Seq<char>, resolved: YamlView)
    ensures
        ({
            let found = service_image(name, resolved);
            let image = value::get_text(resolved, "image"@);
            &&& image is Some ==> found is Some && found->0.image == image && !found->0.build_only
            &&& image is None && value::has_key(resolved, "build"@) ==> found is Some
                && found->0.image is None && found->0.build_only
            &&& image is None && !value::has_key(resolved, "build"@) ==> found is None
            &&& found is Some ==> found->0.service == name && found->0.profiles == profiles_of(
                resolved,
            )
        }),
{
}

/// The compose file of a directory is the first that exists of `compose.yaml`, `compose.yml`,
/// `docker-compose.yaml` and `docker-compose.yml`; without any of them there is no project.
pub proof fn law_the_first_compose_file_is_taken(files: FilesView, dir: Seq<char>, i: int)
    requires
        0 <= i <= 4,
        ({
            let names = seq![
                "compose.yaml"@,
                "compose.yml"@,
                "docker-compose.yaml"@,
                "docker-compose.yml"@,
            ];
            &&& forall|j: int|
                0 <= j < i ==> files::recorded(
                    files.regular,
                    path::join_view(files.family, dir, #[trigger] names[j]),
                ) == Some(false)
            &&& i < 4 ==> files::recorded(
                files.regular,
                path::join_view(files.family, dir, names[i]),
            ) == Some(true)
        }),
    ensures
        ({
            let names = seq![
                "compose.yaml"@,
                "compose.yml"@,
                "docker-compose.yaml"@,
                "docker-compose.yml"@,
            ];
            let found = first_existing(files, dir, default_names());
            &&& i < 4 ==> found == files::canonical_path(
                files,
                path::join_view(files.family, dir, names[i]),
            )
            &&& i == 4 ==> found is Failed
        }),
{
    let names = default_names();
    assert(names[0] == "compose.yaml"@ && names[1] == "compose.yml"@ && names[2]
        == "docker-compose.yaml"@ && names[3] == "docker-compose.yml"@);
    lemma_first_existing(files, dir, names, i);
}

proof fn lemma_first_existing(
    files: FilesView,
    dir: Seq<char>,
    names: Seq<Seq<char>>,
    i: int,
)
    requires
        0 <= i <= names.len(),
        forall|j: int|
            0 <= j < i ==> files::recorded(
                files.regular,
                path::join_view(files.family, dir, #[trigger] names[j]),
            ) == Some(false),
        i < names.len() ==> files::recorded(
            files.regular,
            path::join_view(files.family, dir, names[i]),
        ) == Some(true),
    ensures
        i < names.len() ==> first_existing(files, dir, names) == files::canonical_path(
            files,
            path::join_view(files.family, dir, names[i]),
        ),
        i == names.len() ==> first_existing(files, dir, names) is Failed,
    decreases names.len(),
{
    if i > 0 {
        let rest = names.skip(1);
        assert(names[0] == names[0]);
        assert forall|j: int| 0 <= j < i - 1 implies files::recorded(
            files.regular,
            path::join_view(files.family, dir, #[trigger] rest[j]),
        ) == Some(false) by {
            assert(rest[j] == names[j + 1]);
        }
        if i < names.len() {
            assert(rest[i - 1] == names[i]);
        }
        lemma_first_existing(files, dir, rest, i - 1);
    }
}

/// The files that are given are those that a project starts from, in order; without any, it starts
/// from the compose file of the directory.
pub proof fn law_a_project_starts_from_the_given_files(
    files: FilesView,
    given: Seq<Seq<char>>,
    dir: Seq<char>,
    i: int,
)
    ensures
        ({
            let entries = entry_files(files, given, dir);
            &&& given.len() == 0 ==> (first_existing(files, dir, default_names())
                matches StepView::Done(file) ==> entries == StepView::Done(seq![file]))
            &&& given.len() > 0 && entries is Done ==> entries->Done_0.len() == given.len() && (0
                <= i < given.len() ==> files::canonical_path(
                files,
                path::join_view(files.family, dir, given[i]),
            ) == StepView::Done(entries->Done_0[i]))
        }),
{
    if given.len() > 0 && entry_files(files, given, dir) is Done {
        lemma_canonical_paths(files, dir, given, i);
    }
}

proof fn lemma_canonical_paths(
    files: FilesView,
    base: Seq<char>,
    paths: Seq<Seq<char>>,
    i: int,
)
    requires
        files::canonical_paths(files, base, paths) is Done,
    ensures
        files::canonical_paths(files, base, paths)->Done_0.len() == paths.len(),
        0 <= i < paths.len() ==> files::canonical_path(
            files,
            path::join_view(files.family, base, paths[i]),
        ) == StepView::Done(files::canonical_paths(files, base, paths)->Done_0[i]),
    decreases paths.len(),
{
    if paths.len() > 0 {
        lemma_canonical_paths(files, base, paths.skip(1), i - 1);
        if i > 0 && i < paths.len() {
            assert(paths.skip(1)[i - 1] == paths[i]);
        }
    }
}

/// The variables of the process win over those of the `.env` file of a project, which wins over
/// nothing else.
pub proof fn law_the_process_wins_over_the_env_file(
    files: FilesView,
    dir: Seq<char>,
    process: Map<Seq<char>, Seq<char>>,
    text: Seq<char>,
    name: Seq<char>,
)
    ensures
        ({
            let file = path::join_view(files.family, dir, ".env"@);
            let there = files::recorded(files.regular, file);
            let values = project_env(files, dir, process);
            &&& there == Some(false) ==> values == StepView::Done(process)
            &&& there == Some(true) && files::recorded(files.texts, file) == Some(
                Ok::<Seq<char>, Seq<char>>(text),
            ) ==> {
                &&& values is Done
                &&& process.contains_key(name) ==> values->Done_0.contains_key(name)
                    && values->Done_0[name] == process[name]
                &&& !process.contains_key(name) ==> (values->Done_0.contains_key(name)
                    <==> env::env_file(text).contains_key(name))
                &&& !process.contains_key(name) && env::env_file(text).contains_key(name)
                    ==> values->Done_0[name] == env::env_file(text)[name]
            }
        }),
{
}

/// A service of a later file is laid over the one of the same name, which keeps its place; a service
/// with a new name comes last. No other service changes.
pub proof fn law_later_services_are_laid_over(
    services: Seq<ServiceView>,
    service: ServiceView,
    i: int,
)
    requires
        0 <= i < services.len(),
    ensures
        ({
            let out = with_service(services, service);
            let first = services[i].name == service.name && forall|j: int|
                0 <= j < i ==> (#[trigger] services[j]).name != service.name;
            &&& first ==> out.len() == services.len() && out[i].name == service.name
                && out[i].source_file == service.source_file && out[i].value == value::merged(
                services[i].value,
                service.value,
            )
            &&& services[i].name != service.name ==> out[i] == services[i]
            &&& (forall|j: int|
                0 <= j < services.len() ==> (#[trigger] services[j]).name != service.name)
                ==> out == services.push(service)
        }),
{
    lemma_service_index(services, service.name);
    lemma_service_first(services, service.name);
}

proof fn lemma_service_first(services: Seq<ServiceView>, name: Seq<char>)
    ensures
        service_index(services, name) matches Some(i) ==> forall|j: int|
            0 <= j < i ==> (#[trigger] services[j]).name != name,
    decreases services.len(),
{
    if services.len() > 0 && services[0].name != name {
        let rest = services.skip(1);
        lemma_service_first(rest, name);
        lemma_service_index(services, name);
        if let Some(i) = service_index(services, name) {
            assert forall|j: int| 0 <= j < i implies (#[trigger] services[j]).name != name by {
                if j > 0 {
                    assert(rest[j - 1] == services[j]);
                }
            }
        }
    }
}

/// A service of an included file counts only where no service has its name yet.
pub proof fn law_included_services_come_after(
    services: Seq<ServiceView>,
    service: ServiceView,
)
    ensures
        with_included(services, seq![]) == services,
        (exists|i: int| 0 <= i < services.len() && (#[trigger] services[i]).name == service.name)
            ==> with_included(services, seq![service]) == services,
        (forall|i: int| 0 <= i < services.len() ==> (#[trigger] services[i]).name != service.name)
            ==> with_included(services, seq![service]) == services.push(service),
{
    lemma_service_index(services, service.name);
    assert(seq![service].skip(1) =~= seq![]);
    assert(with_included(services.push(service), seq![]) == services.push(service));
    assert(with_included(services, seq![]) == services);
}

/// A service is laid over the one that it extends, which is itself resolved first; one that extends
/// nothing stands for itself, and one that extends itself in the end is an error.
pub proof fn law_a_service_is_laid_over_what_it_extends(
    files: FilesView,
    project: ProjectView,
    origin: Seq<char>,
    key: KeyView,
    parent: KeyView,
    stack: Seq<KeyView>,
    service: ServiceView,
    extends: YamlView,
    under: YamlView,
)
    requires
        key.source_file == key.file || key.source_file == origin,
        service_at(project.documents, key) == Ok::<ServiceView, ComposeErrorView>(service),
    ensures
        ({
            let found = resolved_service(files, project, origin, key, stack);
            &&& stack.contains(key) ==> found is Failed
            &&& !stack.contains(key) && extends_of(service.value) is None ==> found
                == StepView::Done(service.value)
            &&& !stack.contains(key) && extends_of(service.value) == Some(extends) && extended_key(
                files,
                project,
                key,
                extends,
            ) == StepView::Done(Some(parent)) && resolved_service(
                files,
                project,
                origin,
                parent,
                stack.push(key),
            ) == StepView::Done(under) ==> found == StepView::Done(
                value::merged(under, service.value),
            )
        }),
{
}

/// What a service extends is a service of the same document where it is named alone, and one of the
/// named file, relative to the directory of its own, where a file is named.
pub proof fn law_an_extended_service_is_found_in_its_file(
    files: FilesView,
    project: ProjectView,
    key: KeyView,
    extends: YamlView,
    name: Seq<char>,
    file: Seq<char>,
    dir: Seq<char>,
    canonical: Seq<char>,
)
    ensures
        ({
            let found = extended_key(files, project, key, extends);
            let by_name = value::as_text(extends);
            let service = value::get_text(extends, "service"@);
            let named = value::get_text(extends, "file"@);
            &&& by_name == Some(name) ==> found == StepView::Done(
                Some(KeyView { file: key.file, source_file: key.source_file, name }),
            )
            &&& by_name is None && service is None ==> found == StepView::Done(None::<KeyView>)
            &&& by_name is None && service == Some(name) && named is None ==> found
                == StepView::Done(Some(KeyView { file: key.file, source_file: key.file, name }))
            &&& by_name is None && service == Some(name) && named == Some(file)
                && path::is_absolute_view(files.family, key.source_file) && path::parent_view(
                files.family,
                key.source_file,
            ) == Some(dir) && files::canonical_path(
                files,
                path::join_view(files.family, dir, file),
            ) == StepView::Done(canonical) ==> found == StepView::Done(
                Some(KeyView { file: canonical, source_file: canonical, name }),
            )
        }),
{
}

/// Every file that a project starts from is loaded, and what was loaded stays as it is.
pub proof fn law_pending_files_are_loaded(
    files: FilesView,
    values: Map<Seq<char>, Seq<char>>,
    pending: Seq<Seq<char>>,
    documents: DocumentsView,
    i: int,
    file: Seq<char>,
)
    requires
        load_all(files, values, pending, documents) is Done,
    ensures
        ({
            let loaded = load_all(files, values, pending, documents)->Done_0;
            &&& files::recorded(documents, file) is Some ==> files::recorded(loaded, file)
                == files::recorded(documents, file)
            &&& 0 <= i < pending.len() ==> files::canonical_path(files, pending[i]) is Done
                && files::recorded(
                loaded,
                files::canonical_path(files, pending[i])->Done_0,
            ) is Some
        }),
    decreases unloaded(files.texts, documents), pending.len(),
{
    if pending.len() > 0 {
        let at = files::canonical_path(files, pending[0])->Done_0;
        let rest = pending.skip(1);
        if files::recorded(documents, at) is Some {
            law_pending_files_are_loaded(files, values, rest, documents, i - 1, file);
            law_pending_files_are_loaded(files, values, rest, documents, i - 1, at);
            if 0 < i < pending.len() {
                assert(rest[i - 1] == pending[i]);
            }
        } else {
            let (document, extends) = document_at(files, values, at)->Done_0;
            let more = document.includes + extends + rest;
            let grown = documents.push((at, document));
            lemma_loading_ends(files, values, at, documents, document);
            lemma_recorded_push(documents, at, document, file);
            lemma_recorded_push(documents, at, document, at);
            let k = document.includes.len() + extends.len() + i - 1;
            law_pending_files_are_loaded(files, values, more, grown, k, file);
            law_pending_files_are_loaded(files, values, more, grown, k, at);
            if 0 < i < pending.len() {
                assert(more[k] == pending[i]);
            }
        }
    }
}

} // verus!
