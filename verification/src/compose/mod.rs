//! Compose projects: variables, documents, services and the images that they name.
use vstd::prelude::*;

use crate::text;

pub mod env;
pub mod files;
pub mod interpolate;
pub mod project;
pub mod services;
pub mod value;

verus! {

/// What can go wrong while reading a compose project.
///
/// `Io` and `Yaml` carry the message of a failure that was met outside the library.
#[derive(Debug)]
pub enum ComposeError {
    InvalidInput(String),
    Io(String),
    Yaml(String),
}

/// The contents of a compose error.
pub enum ComposeErrorView {
    InvalidInput(Seq<char>),
    Io(Seq<char>),
    Yaml(Seq<char>),
}

impl View for ComposeError {
    type V = ComposeErrorView;

    open spec fn view(&self) -> ComposeErrorView {
        match self {
            ComposeError::InvalidInput(text) => ComposeErrorView::InvalidInput(text@),
            ComposeError::Io(text) => ComposeErrorView::Io(text@),
            ComposeError::Yaml(text) => ComposeErrorView::Yaml(text@),
        }
    }
}

impl ComposeErrorView {
    /// The message that describes the error.
    pub open spec fn message(self) -> Seq<char> {
        match self {
            ComposeErrorView::InvalidInput(text) => text,
            ComposeErrorView::Io(text) => text,
            ComposeErrorView::Yaml(text) => text,
        }
    }
}

impl ComposeError {
    /// Describes the error.
    pub fn message(&self) -> (m: String)
        ensures
            m@ == self@.message(),
    {
        match self {
            ComposeError::InvalidInput(text) => text.clone(),
            ComposeError::Io(text) => text.clone(),
            ComposeError::Yaml(text) => text.clone(),
        }
    }
}

/// The result of reading a compose project.
pub type Result<T> = std::result::Result<T, ComposeError>;

/// The contents of a result that is a text.
pub open spec fn text_result(
    r: Result<String>,
) -> std::result::Result<Seq<char>, ComposeErrorView> {
    match r {
        Ok(s) => Ok(s@),
        Err(e) => Err(e@),
    }
}

/// The image of one service: the one that it names, or none where it is only built; and the
/// profiles that the service belongs to.
#[derive(Debug)]
pub struct ComposeServiceImage {
    pub service: String,
    pub image: Option<String>,
    pub build_only: bool,
    pub profiles: Vec<String>,
}

/// The images that a compose project uses.
#[derive(Debug)]
pub struct ComposeImages {
    pub images: Vec<String>,
    pub skipped_build_only: Vec<String>,
    pub services: Vec<ComposeServiceImage>,
}

/// What is known of the image of one service.
pub struct ServiceImageView {
    pub service: Seq<char>,
    pub image: Option<Seq<char>>,
    pub build_only: bool,
    pub profiles: Seq<Seq<char>>,
}

/// The images that a compose project uses, as text.
pub struct ComposeImagesView {
    pub images: Seq<Seq<char>>,
    pub skipped_build_only: Seq<Seq<char>>,
    pub services: Seq<ServiceImageView>,
}

impl View for ComposeServiceImage {
    type V = ServiceImageView;

    open spec fn view(&self) -> ServiceImageView {
        ServiceImageView {
            service: self.service@,
            image: text::opt_string(self.image),
            build_only: self.build_only,
            profiles: text::texts(self.profiles@),
        }
    }
}

/// What is known of each service of a list.
pub open spec fn services_view(services: Seq<ComposeServiceImage>) -> Seq<ServiceImageView> {
    services.map_values(|s: ComposeServiceImage| s@)
}

impl View for ComposeImages {
    type V = ComposeImagesView;

    open spec fn view(&self) -> ComposeImagesView {
        ComposeImagesView {
            images: text::texts(self.images@),
            skipped_build_only: text::texts(self.skipped_build_only@),
            services: services_view(self.services@),
        }
    }
}

impl ComposeServiceImage {
    /// A copy of the service.
    pub fn copy(&self) -> (r: ComposeServiceImage)
        ensures
            r@ == self@,
    {
        ComposeServiceImage {
            service: self.service.clone(),
            image: match &self.image {
                Some(image) => Some(image.clone()),
                None => None,
            },
            build_only: self.build_only,
            profiles: text::copy_list(&self.profiles),
        }
    }
}

/// Drops the repetitions from a list of images; the first of each stays where it is.
pub fn unique_images(images: &[String]) -> (unique: Vec<String>)
    ensures
        text::texts(unique@) == text::unique_view(text::texts(images@)),
{
    text::unique(images)
}

/// The images that the services name, in order.
pub open spec fn named_images(services: Seq<ServiceImageView>) -> Seq<Seq<char>>
    decreases services.len(),
{
    if services.len() == 0 {
        seq![]
    } else {
        let before = named_images(services.drop_last());
        match services.last().image {
            Some(image) => before.push(image),
            None => before,
        }
    }
}

/// The names of the services that are only built, in order.
pub open spec fn build_only_names(services: Seq<ServiceImageView>) -> Seq<Seq<char>>
    decreases services.len(),
{
    if services.len() == 0 {
        seq![]
    } else {
        let before = build_only_names(services.drop_last());
        if services.last().build_only {
            before.push(services.last().service)
        } else {
            before
        }
    }
}

/// The images of a list of services.
pub open spec fn images_of(services: Seq<ServiceImageView>) -> ComposeImagesView {
    ComposeImagesView {
        images: named_images(services),
        skipped_build_only: build_only_names(services),
        services,
    }
}

/// Whether a service of the project has the name.
pub open spec fn has_service(services: Seq<ServiceImageView>, name: Seq<char>) -> bool {
    exists|i: int| 0 <= i < services.len() && (#[trigger] services[i]).service == name
}

/// The requested names that no service of the project has, in order.
pub open spec fn unknown_services(
    services: Seq<ServiceImageView>,
    requested: Seq<Seq<char>>,
) -> Seq<Seq<char>> {
    requested.filter(|name: Seq<char>| !has_service(services, name))
}

/// The services whose names are requested, in the order of the project.
pub open spec fn selected(
    services: Seq<ServiceImageView>,
    requested: Seq<Seq<char>>,
) -> Seq<ServiceImageView> {
    services.filter(|s: ServiceImageView| requested.contains(s.service))
}

/// What a selection of services gives: all of the project where none is requested, an error that
/// names the unknown ones, or the images of the requested services.
pub open spec fn selection(
    resolved: ComposeImagesView,
    requested: Seq<Seq<char>>,
) -> std::result::Result<ComposeImagesView, ComposeErrorView> {
    if requested.len() == 0 {
        Ok(resolved)
    } else {
        let unknown = unknown_services(resolved.services, requested);
        if unknown.len() > 0 {
            Err(
                ComposeErrorView::InvalidInput(
                    "compose service(s) not found: "@ + text::join_view(unknown, ", "@),
                ),
            )
        } else {
            Ok(images_of(selected(resolved.services, requested)))
        }
    }
}

/// Whether a service of the project has the name.
fn knows_service(services: &Vec<ComposeServiceImage>, name: &str) -> (r: bool)
    ensures
        r == has_service(services_view(services@), name@),
{
    let ghost all = services_view(services@);
    let mut i: usize = 0;
    while i < services.len()
        invariant
            i <= services@.len(),
            all == services_view(services@),
            forall|j: int| 0 <= j < i ==> (#[trigger] all[j]).service != name@,
        decreases services@.len() - i,
    {
        assert(all[i as int] == services@[i as int]@);
        if text::same(services[i].service.as_str(), name) {
            return true;
        }
        i += 1;
    }
    false
}

/// Appends what a service contributes to the images of a project.
pub(crate) fn push_service(images: &mut ComposeImages, service: ComposeServiceImage)
    requires
        old(images)@ == images_of(old(images)@.services),
    ensures
        final(images)@ == images_of(old(images)@.services.push(service@)),
{
    let ghost before = images@;
    if let Some(image) = &service.image {
        images.images.push(image.clone());
    }
    if service.build_only {
        images.skipped_build_only.push(service.service.clone());
    }
    let ghost seen = service@;
    images.services.push(service);
    proof {
        assert(before.services.push(seen).drop_last() =~= before.services);
        assert(images@.services =~= before.services.push(seen));
        assert(images@.images =~= named_images(before.services.push(seen)));
        assert(images@.skipped_build_only =~= build_only_names(before.services.push(seen)));
    }
}

/// The images of a project with no services.
pub(crate) fn no_images() -> (images: ComposeImages)
    ensures
        images@ == images_of(seq![]),
{
    let images = ComposeImages {
        images: Vec::new(),
        skipped_build_only: Vec::new(),
        services: Vec::new(),
    };
    proof {
        assert(images@.images =~= seq![]);
        assert(images@.skipped_build_only =~= seq![]);
        assert(images@.services =~= seq![]);
    }
    images
}

/// Picks the requested services of a project.
pub fn select_services(resolved: &ComposeImages, services: &[String]) -> (r: Result<ComposeImages>)
    ensures
        selection(resolved@, text::texts(services@)) == match r {
            Ok(images) => Ok(images@),
            Err(e) => Err(e@),
        },
{
    let ghost requested = text::texts(services@);
    let ghost all = resolved@.services;
    if services.len() == 0 {
        return Ok(copy_images(resolved));
    }
    let ghost is_unknown = |name: Seq<char>| !has_service(all, name);
    let mut unknown: Vec<String> = Vec::new();
    let mut i: usize = 0;
    assert(text::texts(unknown@) =~= requested.take(0).filter(is_unknown)) by {
        reveal(Seq::filter);
    }
    while i < services.len()
        invariant
            i <= services@.len(),
            requested == text::texts(services@),
            all == resolved@.services,
            is_unknown == (|name: Seq<char>| !has_service(all, name)),
            text::texts(unknown@) == requested.take(i as int).filter(is_unknown),
        decreases services@.len() - i,
    {
        let ghost before = unknown@;
        assert(requested.take(i + 1).drop_last() =~= requested.take(i as int));
        assert(requested.take(i + 1).last() == services@[i as int]@);
        if !knows_service(&resolved.services, services[i].as_str()) {
            unknown.push(services[i].clone());
            assert(text::texts(unknown@) =~= text::texts(before).push(services@[i as int]@));
        }
        proof {
            reveal(Seq::filter);
        }
        i += 1;
    }
    assert(requested.take(i as int) =~= requested);
    assert(text::texts(unknown@).len() == unknown@.len());
    if unknown.len() > 0 {
        let list = text::join(unknown.as_slice(), ", ");
        return Err(
            ComposeError::InvalidInput(
                crate::error::concat2("compose service(s) not found: ", list.as_str()),
            ),
        );
    }
    let ghost wanted = |s: ServiceImageView| requested.contains(s.service);
    let mut images = no_images();
    let mut k: usize = 0;
    assert(images@.services =~= all.take(0).filter(wanted)) by {
        reveal(Seq::filter);
    }
    while k < resolved.services.len()
        invariant
            k <= resolved.services@.len(),
            requested == text::texts(services@),
            all == services_view(resolved.services@),
            wanted == (|s: ServiceImageView| requested.contains(s.service)),
            images@ == images_of(all.take(k as int).filter(wanted)),
        decreases resolved.services@.len() - k,
    {
        assert(all.take(k + 1).drop_last() =~= all.take(k as int));
        assert(all.take(k + 1).last() == resolved.services@[k as int]@);
        proof {
            reveal(Seq::filter);
        }
        if text::list_contains(services, resolved.services[k].service.as_str()) {
            push_service(&mut images, resolved.services[k].copy());
        }
        k += 1;
    }
    assert(all.take(k as int) =~= all);
    Ok(images)
}

/// Whether a service is enabled: it belongs to no profile, or to one that is active. The profile
/// `*` activates every other.
pub open spec fn is_enabled(profiles: Seq<Seq<char>>, active: Seq<Seq<char>>) -> bool {
    ||| profiles.len() == 0
    ||| active.contains("*"@)
    ||| exists|i: int| 0 <= i < profiles.len() && active.contains(#[trigger] profiles[i])
}

/// The services that are enabled, in the order of the project.
pub open spec fn enabled(
    services: Seq<ServiceImageView>,
    active: Seq<Seq<char>>,
) -> Seq<ServiceImageView> {
    services.filter(|s: ServiceImageView| is_enabled(s.profiles, active))
}

/// What is asked of a project: the services that are named, whatever their profiles; or, where
/// none is named, the services that are enabled.
pub open spec fn asked_images(
    resolved: ComposeImagesView,
    active: Seq<Seq<char>>,
    requested: Seq<Seq<char>>,
) -> std::result::Result<ComposeImagesView, ComposeErrorView> {
    if requested.len() == 0 {
        Ok(images_of(enabled(resolved.services, active)))
    } else {
        selection(resolved, requested)
    }
}

/// Whether a service is enabled.
fn enables(profiles: &Vec<String>, active: &[String]) -> (r: bool)
    ensures
        r == is_enabled(text::texts(profiles@), text::texts(active@)),
{
    if profiles.len() == 0 || text::list_contains(active, "*") {
        return true;
    }
    let ghost all = text::texts(profiles@);
    let mut i: usize = 0;
    while i < profiles.len()
        invariant
            i <= profiles@.len(),
            all == text::texts(profiles@),
            forall|j: int| 0 <= j < i ==> !text::texts(active@).contains(#[trigger] all[j]),
        decreases profiles@.len() - i,
    {
        assert(all[i as int] == profiles@[i as int]@);
        if text::list_contains(active, profiles[i].as_str()) {
            return true;
        }
        i += 1;
    }
    false
}

/// Picks the services that are enabled.
pub fn select_profiles(resolved: &ComposeImages, active: &[String]) -> (images: ComposeImages)
    ensures
        images@ == images_of(enabled(resolved@.services, text::texts(active@))),
{
    let ghost all = services_view(resolved.services@);
    let ghost wanted = |s: ServiceImageView| is_enabled(s.profiles, text::texts(active@));
    let mut images = no_images();
    let mut k: usize = 0;
    assert(images@.services =~= all.take(0).filter(wanted)) by {
        reveal(Seq::filter);
    }
    while k < resolved.services.len()
        invariant
            k <= resolved.services@.len(),
            all == services_view(resolved.services@),
            wanted == (|s: ServiceImageView| is_enabled(s.profiles, text::texts(active@))),
            images@ == images_of(all.take(k as int).filter(wanted)),
        decreases resolved.services@.len() - k,
    {
        assert(all.take(k + 1).drop_last() =~= all.take(k as int));
        assert(all.take(k + 1).last() == resolved.services@[k as int]@);
        proof {
            reveal(Seq::filter);
        }
        if enables(&resolved.services[k].profiles, active) {
            push_service(&mut images, resolved.services[k].copy());
        }
        k += 1;
    }
    assert(all.take(k as int) =~= all);
    images
}

/// Picks what is asked of a project.
pub fn select_images(resolved: &ComposeImages, active: &[String], services: &[String]) -> (r:
    Result<ComposeImages>)
    ensures
        asked_images(resolved@, text::texts(active@), text::texts(services@)) == match r {
            Ok(images) => Ok(images@),
            Err(e) => Err(e@),
        },
{
    if services.len() == 0 {
        Ok(select_profiles(resolved, active))
    } else {
        select_services(resolved, services)
    }
}

/// A copy of the images of a project.
pub fn copy_images(images: &ComposeImages) -> (r: ComposeImages)
    ensures
        r@ == images@,
{
    let mut services: Vec<ComposeServiceImage> = Vec::new();
    let mut i: usize = 0;
    while i < images.services.len()
        invariant
            i <= images.services@.len(),
            services@.len() == i,
            forall|j: int| 0 <= j < i ==> (#[trigger] services@[j])@ == images.services@[j]@,
        decreases images.services@.len() - i,
    {
        services.push(images.services[i].copy());
        i += 1;
    }
    let r = ComposeImages {
        images: text::copy_list(&images.images),
        skipped_build_only: text::copy_list(&images.skipped_build_only),
        services,
    };
    assert(r@.services =~= images@.services);
    r
}

/// The names of the services of a project.
pub open spec fn service_names(services: Seq<ServiceImageView>) -> Seq<Seq<char>> {
    services.map_values(|s: ServiceImageView| s.service)
}

/// Asking for every service of a project gives the project back.
pub proof fn law_selecting_every_service_changes_nothing(services: Seq<ServiceImageView>)
    ensures
        selection(images_of(services), service_names(services)) == std::result::Result::<
            ComposeImagesView,
            ComposeErrorView,
        >::Ok(images_of(services)),
{
    let names = service_names(services);
    assert forall|i: int| 0 <= i < names.len() implies has_service(services, names[i]) by {
        assert(services[i].service == names[i]);
    }
    crate::seqs::lemma_filter_none(names, |name: Seq<char>| !has_service(services, name));
    assert forall|i: int| 0 <= i < services.len() implies names.contains(services[i].service) by {
        assert(names[i] == services[i].service);
    }
    crate::seqs::lemma_filter_all(services, |s: ServiceImageView| names.contains(s.service));
}

/// A selection holds only requested services, and exactly those of them that the project has.
pub proof fn law_selection_is_what_was_requested(
    resolved: ComposeImagesView,
    requested: Seq<Seq<char>>,
    service: ServiceImageView,
)
    requires
        requested.len() > 0,
        selection(resolved, requested) is Ok,
    ensures
        selection(resolved, requested)->Ok_0.services.contains(service) <==> (
        resolved.services.contains(service) && requested.contains(service.service)),
{
    crate::seqs::lemma_filter_contains(
        resolved.services,
        |s: ServiceImageView| requested.contains(s.service),
        service,
    );
}

/// To activate more profiles never takes a service away, and a service without profiles is always
/// there.
pub proof fn law_profiles_only_add_services(
    services: Seq<ServiceImageView>,
    fewer: Seq<Seq<char>>,
    more: Seq<Seq<char>>,
    service: ServiceImageView,
)
    requires
        forall|i: int| 0 <= i < fewer.len() ==> more.contains(#[trigger] fewer[i]),
    ensures
        enabled(services, fewer).contains(service) ==> enabled(services, more).contains(service),
        services.contains(service) && service.profiles.len() == 0 ==> enabled(
            services,
            fewer,
        ).contains(service),
{
    crate::seqs::lemma_filter_contains(
        services,
        |s: ServiceImageView| is_enabled(s.profiles, fewer),
        service,
    );
    crate::seqs::lemma_filter_contains(
        services,
        |s: ServiceImageView| is_enabled(s.profiles, more),
        service,
    );
    if is_enabled(service.profiles, fewer) && service.profiles.len() > 0 {
        if fewer.contains("*"@) {
            let i = choose|i: int| 0 <= i < fewer.len() && fewer[i] == "*"@;
            assert(more.contains(fewer[i]));
        } else {
            let k = choose|k: int|
                0 <= k < service.profiles.len() && fewer.contains(#[trigger] service.profiles[k]);
            let i = choose|i: int| 0 <= i < fewer.len() && fewer[i] == service.profiles[k];
            assert(more.contains(fewer[i]));
        }
    }
}

/// The images of a project are those that its services name, in their order, and the services that
/// are only built are told apart from them.
pub proof fn law_images_are_those_of_the_services(
    services: Seq<ServiceImageView>,
    service: ServiceImageView,
    image: Seq<char>,
)
    ensures
        ({
            let before = images_of(services);
            let after = images_of(services.push(service));
            &&& images_of(seq![]).images.len() == 0
            &&& images_of(seq![]).skipped_build_only.len() == 0
            &&& after.services == services.push(service)
            &&& service.image == Some(image) ==> after.images == before.images.push(image)
            &&& service.image is None ==> after.images == before.images
            &&& service.build_only ==> after.skipped_build_only == before.skipped_build_only.push(
                service.service,
            )
            &&& !service.build_only ==> after.skipped_build_only == before.skipped_build_only
        }),
{
    assert(services.push(service).drop_last() =~= services);
}

/// Without a name, those services of a project are asked for that have no profile or an active one,
/// or all of them where the profile `*` is active.
pub proof fn law_enabled_services_are_asked_for(
    resolved: ComposeImagesView,
    active: Seq<Seq<char>>,
    service: ServiceImageView,
)
    ensures
        asked_images(resolved, active, seq![]) is Ok,
        asked_images(resolved, active, seq![])->Ok_0.services.contains(service) <==> {
            &&& resolved.services.contains(service)
            &&& service.profiles.len() == 0 || active.contains("*"@) || exists|i: int|
                0 <= i < service.profiles.len() && active.contains(#[trigger] service.profiles[i])
        },
{
    crate::seqs::lemma_filter_contains(
        resolved.services,
        |s: ServiceImageView| is_enabled(s.profiles, active),
        service,
    );
}

/// Services that are named are asked for whatever profiles are active; a name that no service has
/// is an error.
pub proof fn law_named_services_are_asked_for(
    resolved: ComposeImagesView,
    active: Seq<Seq<char>>,
    requested: Seq<Seq<char>>,
    service: ServiceImageView,
)
    requires
        requested.len() > 0,
    ensures
        ({
            let asked = asked_images(resolved, active, requested);
            let known = forall|i: int|
                0 <= i < requested.len() ==> has_service(resolved.services, #[trigger] requested[i]);
            &&& asked is Ok <==> known
            &&& known ==> (asked->Ok_0.services.contains(service) <==> resolved.services.contains(
                service,
            ) && requested.contains(service.service))
            &&& known ==> asked->Ok_0 == images_of(asked->Ok_0.services)
        }),
{
    let is_unknown = |name: Seq<char>| !has_service(resolved.services, name);
    let unknown = unknown_services(resolved.services, requested);
    if forall|i: int|
        0 <= i < requested.len() ==> has_service(resolved.services, #[trigger] requested[i]) {
        crate::seqs::lemma_filter_none(requested, is_unknown);
        law_selection_is_what_was_requested(resolved, requested, service);
    } else {
        let i = choose|i: int|
            0 <= i < requested.len() && !has_service(resolved.services, #[trigger] requested[i]);
        crate::seqs::lemma_filter_contains(requested, is_unknown, requested[i]);
        assert(requested.contains(requested[i]));
        assert(unknown.contains(requested[i]));
        assert(unknown.len() > 0);
    }
}

} // verus!
