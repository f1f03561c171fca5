//! The services of a compose document, and the other documents that it refers to.
use vstd::prelude::*;

use crate::compose::value::{
    self, as_str, mapping_get, mapping_get_string, strip_reset_tags, value_mapping, Yaml, YamlView,
};
use crate::text;

verus! {

/// A service of a compose document.
#[derive(Debug)]
pub struct Service {
    pub name: String,
    pub source_file: String,
    pub value: Yaml,
}

/// What a service holds.
pub struct ServiceView {
    pub name: Seq<char>,
    pub source_file: Seq<char>,
    pub value: YamlView,
}

impl View for Service {
    type V = ServiceView;

    open spec fn view(&self) -> ServiceView {
        ServiceView { name: self.name@, source_file: self.source_file@, value: self.value@ }
    }
}

impl Service {
    /// A copy of the service.
    pub fn copy(&self) -> (r: Service)
        ensures
            r@ == self@,
    {
        Service {
            name: self.name.clone(),
            source_file: self.source_file.clone(),
            value: self.value.copy(),
        }
    }
}

/// What the services of a list hold.
pub open spec fn service_list(services: Seq<Service>) -> Seq<ServiceView> {
    services.map_values(|s: Service| s@)
}

/// The services that the entries of a `services` mapping define, in order. An entry whose key is
/// no text defines none.
pub open spec fn services_of_entries(
    entries: Seq<(YamlView, YamlView)>,
    file: Seq<char>,
) -> Seq<ServiceView>
    decreases entries.len(),
{
    if entries.len() == 0 {
        seq![]
    } else {
        let before = services_of_entries(entries.drop_last(), file);
        match value::as_text(entries.last().0) {
            Some(name) => before.push(
                ServiceView {
                    name,
                    source_file: file,
                    value: value::without_tags(entries.last().1),
                },
            ),
            None => before,
        }
    }
}

/// The entries under a key of a mapping, where the value there is a mapping.
pub open spec fn inner_mapping(v: YamlView, key: Seq<char>) -> Option<Seq<(YamlView, YamlView)>> {
    match value::mapping_view(v) {
        Some(entries) => match value::mapping_get_view(entries, key) {
            Some(inner) => value::mapping_view(inner),
            None => None,
        },
        None => None,
    }
}

/// The services of a document.
pub open spec fn services_of(document: YamlView, file: Seq<char>) -> Seq<ServiceView> {
    match inner_mapping(document, "services"@) {
        Some(entries) => services_of_entries(entries, file),
        None => seq![],
    }
}

/// Reads the services of a document.
pub fn collect_services(document: &Yaml, file: &str) -> (services: Vec<Service>)
    ensures
        service_list(services@) == services_of(document@, file@),
{
    let mut services: Vec<Service> = Vec::new();
    assert(service_list(services@) =~= seq![]);
    let top = match value_mapping(document) {
        Some(entries) => entries,
        None => {
            return services;
        },
    };
    let inner = match mapping_get(top, "services") {
        Some(inner) => inner,
        None => {
            return services;
        },
    };
    let entries = match value_mapping(inner) {
        Some(entries) => entries,
        None => {
            return services;
        },
    };
    let ghost all = value::entries_view(entries@);
    let mut i: usize = 0;
    while i < entries.len()
        invariant
            i <= entries@.len(),
            all == value::entries_view(entries@),
            service_list(services@) == services_of_entries(all.take(i as int), file@),
        decreases entries@.len() - i,
    {
        assert(all.take(i + 1).drop_last() =~= all.take(i as int));
        assert(all.take(i + 1).last() == all[i as int]);
        let ghost before = services@;
        if let Some(name) = as_str(&entries[i].0) {
            let service = Service {
                name: name.to_owned(),
                source_file: file.to_owned(),
                value: strip_reset_tags(&entries[i].1),
            };
            let ghost seen = service@;
            services.push(service);
            assert(service_list(services@) =~= service_list(before).push(seen));
        }
        i += 1;
    }
    assert(all.take(i as int) =~= all);
    services
}

/// The path that an item of an `include` list names: the item itself, or its `path`.
pub open spec fn include_path(item: YamlView) -> Option<Seq<char>> {
    match item {
        YamlView::Text(path) => Some(path),
        YamlView::Mapping(entries) => match value::mapping_get_view(entries, "path"@) {
            Some(path) => value::as_text(path),
            None => None,
        },
        _ => None,
    }
}

/// The paths that the items of an `include` list name, in order.
pub open spec fn include_paths(items: Seq<YamlView>) -> Seq<Seq<char>>
    decreases items.len(),
{
    if items.len() == 0 {
        seq![]
    } else {
        let before = include_paths(items.drop_last());
        match include_path(items.last()) {
            Some(path) => before.push(path),
            None => before,
        }
    }
}

/// The paths that a document includes.
pub open spec fn includes_of(document: YamlView) -> Seq<Seq<char>> {
    match value::mapping_view(document) {
        Some(entries) => match value::mapping_get_view(entries, "include"@) {
            Some(YamlView::Text(path)) => seq![path],
            Some(YamlView::Sequence(items)) => include_paths(items),
            _ => seq![],
        },
        None => seq![],
    }
}

/// Reads the path of an item of an `include` list.
fn collect_include_path(item: &Yaml) -> (r: Option<String>)
    ensures
        text::opt_string(r) == include_path(item@),
{
    match item {
        Yaml::Text(path) => Some(path.clone()),
        Yaml::Mapping(entries) => {
            proof {
                value::lemma_mapping_contents(*entries);
            }
            match mapping_get(entries, "path") {
                Some(path) => match as_str(path) {
                    Some(t) => Some(t.to_owned()),
                    None => None,
                },
                None => None,
            }
        },
        _ => None,
    }
}

/// Reads the paths that a document includes.
pub fn collect_includes(document: &Yaml) -> (paths: Vec<String>)
    ensures
        text::texts(paths@) == includes_of(document@),
{
    let mut paths: Vec<String> = Vec::new();
    assert(text::texts(paths@) =~= seq![]);
    let top = match value_mapping(document) {
        Some(entries) => entries,
        None => {
            return paths;
        },
    };
    match mapping_get(top, "include") {
        Some(Yaml::Text(path)) => {
            paths.push(path.clone());
            assert(text::texts(paths@) =~= seq![path@]);
            paths
        },
        Some(Yaml::Sequence(items)) => {
            proof {
                value::lemma_sequence_contents(*items);
            }
            let ghost all = value::items_view(items@);
            let mut i: usize = 0;
            while i < items.len()
                invariant
                    i <= items@.len(),
                    all == value::items_view(items@),
                    text::texts(paths@) == include_paths(all.take(i as int)),
                decreases items@.len() - i,
            {
                assert(all.take(i + 1).drop_last() =~= all.take(i as int));
                assert(all.take(i + 1).last() == all[i as int]);
                let ghost before = paths@;
                if let Some(path) = collect_include_path(&items[i]) {
                    let ghost seen = path@;
                    paths.push(path);
                    assert(text::texts(paths@) =~= text::texts(before).push(seen));
                }
                i += 1;
            }
            assert(all.take(i as int) =~= all);
            paths
        },
        _ => paths,
    }
}

/// The file that a service extends a service of, where it names one.
pub open spec fn extends_file(service: YamlView) -> Option<Seq<char>> {
    match value::mapping_view(service) {
        Some(entries) => match value::mapping_get_view(entries, "extends"@) {
            Some(extends) => value::get_text(extends, "file"@),
            None => None,
        },
        None => None,
    }
}

/// The files that the services extend, in order.
pub open spec fn extends_files(services: Seq<ServiceView>) -> Seq<Seq<char>>
    decreases services.len(),
{
    if services.len() == 0 {
        seq![]
    } else {
        let before = extends_files(services.drop_last());
        match extends_file(services.last().value) {
            Some(file) => before.push(file),
            None => before,
        }
    }
}

/// Reads the files that the services extend.
pub fn collect_extends_files(services: &Vec<Service>) -> (files: Vec<String>)
    ensures
        text::texts(files@) == extends_files(service_list(services@)),
{
    let ghost all = service_list(services@);
    let mut files: Vec<String> = Vec::new();
    let mut i: usize = 0;
    assert(text::texts(files@) =~= extends_files(all.take(0)));
    while i < services.len()
        invariant
            i <= services@.len(),
            all == service_list(services@),
            text::texts(files@) == extends_files(all.take(i as int)),
        decreases services@.len() - i,
    {
        assert(all.take(i + 1).drop_last() =~= all.take(i as int));
        assert(all.take(i + 1).last() == services@[i as int]@);
        let ghost before = files@;
        if let Some(entries) = value_mapping(&services[i].value) {
            if let Some(extends) = mapping_get(entries, "extends") {
                if let Some(file) = mapping_get_string(extends, "file") {
                    let ghost seen = file@;
                    files.push(file);
                    assert(text::texts(files@) =~= text::texts(before).push(seen));
                }
            }
        }
        i += 1;
    }
    assert(all.take(i as int) =~= all);
    files
}

/// The texts among values, in order.
pub open spec fn texts_among(items: Seq<YamlView>) -> Seq<Seq<char>>
    decreases items.len(),
{
    if items.len() == 0 {
        seq![]
    } else {
        let before = texts_among(items.drop_last());
        match items.last() {
            YamlView::Text(t) => before.push(t),
            _ => before,
        }
    }
}

/// The profiles that a service belongs to.
pub open spec fn profiles_of(service: YamlView) -> Seq<Seq<char>> {
    match value::mapping_view(service) {
        Some(entries) => match value::mapping_get_view(entries, "profiles"@) {
            Some(YamlView::Sequence(items)) => texts_among(items),
            _ => seq![],
        },
        None => seq![],
    }
}

/// Reads the profiles that a service belongs to.
pub fn collect_profiles(service: &Yaml) -> (profiles: Vec<String>)
    ensures
        text::texts(profiles@) == profiles_of(service@),
{
    let mut profiles: Vec<String> = Vec::new();
    assert(text::texts(profiles@) =~= seq![]);
    let entries = match value_mapping(service) {
        Some(entries) => entries,
        None => {
            return profiles;
        },
    };
    if let Some(Yaml::Sequence(items)) = mapping_get(entries, "profiles") {
        proof {
            value::lemma_sequence_contents(*items);
        }
        let ghost all = value::items_view(items@);
        let mut i: usize = 0;
        while i < items.len()
            invariant
                i <= items@.len(),
                all == value::items_view(items@),
                text::texts(profiles@) == texts_among(all.take(i as int)),
            decreases items@.len() - i,
        {
            assert(all.take(i + 1).drop_last() =~= all.take(i as int));
            assert(all.take(i + 1).last() == items@[i as int]@);
            let ghost before = profiles@;
            if let Yaml::Text(profile) = &items[i] {
                profiles.push(profile.clone());
                assert(text::texts(profiles@) =~= text::texts(before).push(profile@));
            }
            i += 1;
        }
        assert(all.take(i as int) =~= all);
    }
    profiles
}

/// Each entry of a `services` mapping whose key is a text is a service of that name, in order, which
/// comes from the file of the document.
pub proof fn law_each_entry_is_a_service(
    entries: Seq<(YamlView, YamlView)>,
    name: Seq<char>,
    value: YamlView,
    file: Seq<char>,
)
    ensures
        services_of_entries(seq![], file).len() == 0,
        services_of_entries(entries.push((YamlView::Text(name), value)), file)
            == services_of_entries(entries, file).push(
            ServiceView { name, source_file: file, value: value::without_tags(value) },
        ),
{
    let more = entries.push((YamlView::Text(name), value));
    assert(more.drop_last() =~= entries);
    assert(value::as_text(YamlView::Text(name)) == Some(name));
}

/// An `include` names a path by itself or under `path`, and a list of them names each in order.
pub proof fn law_includes_are_named_in_order(
    items: Seq<YamlView>,
    path: Seq<char>,
    entries: Seq<(YamlView, YamlView)>,
)
    ensures
        include_paths(seq![]).len() == 0,
        include_paths(items.push(YamlView::Text(path))) == include_paths(items).push(path),
        value::get_text(YamlView::Mapping(entries), "path"@) == Some(path) ==> include_paths(
            items.push(YamlView::Mapping(entries)),
        ) == include_paths(items).push(path),
        value::get_text(YamlView::Mapping(entries), "path"@) is None ==> include_paths(
            items.push(YamlView::Mapping(entries)),
        ) == include_paths(items),
{
    assert(items.push(YamlView::Text(path)).drop_last() =~= items);
    assert(items.push(YamlView::Mapping(entries)).drop_last() =~= items);
}

/// The profiles of a service are the texts of its list of profiles, in order; a service without
/// such a list has none.
pub proof fn law_profiles_are_listed(
    entries: Seq<(YamlView, YamlView)>,
    items: Seq<YamlView>,
    profile: Seq<char>,
)
    ensures
        texts_among(seq![]).len() == 0,
        texts_among(items.push(YamlView::Text(profile))) == texts_among(items).push(profile),
        value::mapping_get_view(entries, "profiles"@) == Some(YamlView::Sequence(items))
            ==> profiles_of(YamlView::Mapping(entries)) == texts_among(items),
        value::mapping_get_view(entries, "profiles"@) is None ==> profiles_of(
            YamlView::Mapping(entries),
        ).len() == 0,
{
    assert(items.push(YamlView::Text(profile)).drop_last() =~= items);
}

/// The files that services extend are listed in the order of the services.
pub proof fn law_extended_files_are_listed(
    services: Seq<ServiceView>,
    service: ServiceView,
    entries: Seq<(YamlView, YamlView)>,
    extends: YamlView,
    file: Seq<char>,
)
    ensures
        extends_files(seq![]).len() == 0,
        service.value == YamlView::Mapping(entries) && value::mapping_get_view(entries, "extends"@)
            == Some(extends) && value::get_text(extends, "file"@) == Some(file) ==> extends_files(
            services.push(service),
        ) == extends_files(services).push(file),
        service.value == YamlView::Mapping(entries) && value::mapping_get_view(entries, "extends"@)
            is None ==> extends_files(services.push(service)) == extends_files(services),
{
    assert(services.push(service).drop_last() =~= services);
}

} // verus!
