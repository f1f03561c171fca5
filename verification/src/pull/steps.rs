//! The order in which an image is pulled, and what is decided on the way.
use vstd::prelude::*;

use crate::compose::env::Variables;
use crate::error::{concat2, DockerPullError, ErrorView};
use crate::image::{layers_view, pair_layers, LayerSpec, LayerSpecView};
use crate::reference::{ImageReference, ReferenceTarget, ReferenceView, TargetView};
use crate::registry::cache::{cache_repository, cached_name};
use crate::registry::types::{descriptors_view, Descriptor, DescriptorView};
use crate::text::{self, texts};

verus! {

/// How often a blob download is tried again where nothing else is asked for.
pub const DEFAULT_BLOB_RETRIES: u32 = 8;

/// How an image gets to the docker daemon.
#[derive(Debug, Copy, Clone, PartialEq, Eq, Structural)]
pub enum LoadMode {
    /// As an archive.
    Stream,
    /// By a pull from a temporary registry.
    Registry,
}

/// How an image is pulled.
#[derive(Debug, Clone, Copy, PartialEq, Eq, Structural)]
pub struct PullOptions {
    pub concurrency: usize,
    pub no_load: bool,
    pub keep_layer_blobs: bool,
    pub load_mode: LoadMode,
}

/// What happened during a pull.
#[derive(Debug)]
pub enum PullEvent {
    /// The pull begins; it may have been stopped before.
    Started { stopped: bool },
    /// The manifest is stored.
    ManifestSaved,
    /// The configuration names the unpacked digests of the layers.
    ConfigLoaded { layers: Vec<Descriptor>, diff_ids: Vec<String> },
    /// The layers are claimed.
    LayersClaimed,
    /// Whether the daemon has the image already.
    Existing(bool),
    /// The layers are shown.
    LayersShown,
    /// Which layers the daemon has, or why that is not known.
    Coverage(std::result::Result<(), String>),
    /// It is known for each layer whether it is stored.
    LayersChecked,
    /// The downloads are done.
    Downloaded,
    /// The reference is stored.
    ReferenceSaved,
    /// The image was loaded.
    Loaded,
}

/// What happened during a pull, as text.
pub enum PullEventView {
    Started { stopped: bool },
    ManifestSaved,
    ConfigLoaded { layers: Seq<DescriptorView>, diff_ids: Seq<Seq<char>> },
    LayersClaimed,
    Existing(bool),
    LayersShown,
    Coverage(std::result::Result<(), Seq<char>>),
    LayersChecked,
    Downloaded,
    ReferenceSaved,
    Loaded,
}

impl View for PullEvent {
    type V = PullEventView;

    open spec fn view(&self) -> PullEventView {
        match self {
            PullEvent::Started { stopped } => PullEventView::Started { stopped: *stopped },
            PullEvent::ManifestSaved => PullEventView::ManifestSaved,
            PullEvent::ConfigLoaded { layers, diff_ids } => PullEventView::ConfigLoaded {
                layers: descriptors_view(layers@),
                diff_ids: texts(diff_ids@),
            },
            PullEvent::LayersClaimed => PullEventView::LayersClaimed,
            PullEvent::Existing(found) => PullEventView::Existing(*found),
            PullEvent::LayersShown => PullEventView::LayersShown,
            PullEvent::Coverage(r) => PullEventView::Coverage(
                match r {
                    Ok(()) => Ok(()),
                    Err(message) => Err(message@),
                },
            ),
            PullEvent::LayersChecked => PullEventView::LayersChecked,
            PullEvent::Downloaded => PullEventView::Downloaded,
            PullEvent::ReferenceSaved => PullEventView::ReferenceSaved,
            PullEvent::Loaded => PullEventView::Loaded,
        }
    }
}

/// What to do next in a pull.
#[derive(Debug)]
pub enum PullAction {
    /// Show the image and store its manifest.
    SaveManifest,
    /// Read the configuration, from the store or from the registry.
    LoadConfig,
    /// Claim the layers.
    ClaimLayers(Vec<LayerSpec>),
    /// Ask the daemon whether it has the image.
    CheckExisting,
    /// Show the layers.
    ShowLayers,
    /// Ask the daemon which layers it has.
    InspectDaemon,
    /// Ask for each layer whether it is stored. The warning is shown before.
    CheckLayers { warning: Option<String> },
    /// Download what is missing.
    Download,
    /// Store the reference.
    SaveReference,
    /// Load the image.
    Load,
    /// Show that the image is done.
    Finish(&'static str),
    /// The pull is over.
    Done,
    /// The pull failed.
    Fail(DockerPullError),
}

/// What to do next in a pull, as text.
pub enum PullActionView {
    SaveManifest,
    LoadConfig,
    ClaimLayers(Seq<LayerSpecView>),
    CheckExisting,
    ShowLayers,
    InspectDaemon,
    CheckLayers { warning: Option<Seq<char>> },
    Download,
    SaveReference,
    Load,
    Finish(Seq<char>),
    Done,
    Fail(ErrorView),
}

impl View for PullAction {
    type V = PullActionView;

    open spec fn view(&self) -> PullActionView {
        match self {
            PullAction::SaveManifest => PullActionView::SaveManifest,
            PullAction::LoadConfig => PullActionView::LoadConfig,
            PullAction::ClaimLayers(layers) => PullActionView::ClaimLayers(layers_view(layers@)),
            PullAction::CheckExisting => PullActionView::CheckExisting,
            PullAction::ShowLayers => PullActionView::ShowLayers,
            PullAction::InspectDaemon => PullActionView::InspectDaemon,
            PullAction::CheckLayers { warning } => PullActionView::CheckLayers {
                warning: text::opt_string(*warning),
            },
            PullAction::Download => PullActionView::Download,
            PullAction::SaveReference => PullActionView::SaveReference,
            PullAction::Load => PullActionView::Load,
            PullAction::Finish(status) => PullActionView::Finish(status@),
            PullAction::Done => PullActionView::Done,
            PullAction::Fail(e) => PullActionView::Fail(e@),
        }
    }
}

/// What is done once the layers are shown: the daemon is asked for layers only where the image
/// will be loaded as an archive, which can leave them out.
pub open spec fn after_showing(options: PullOptions) -> PullActionView {
    if options.load_mode == LoadMode::Stream {
        PullActionView::InspectDaemon
    } else {
        PullActionView::CheckLayers { warning: None }
    }
}

/// What is said where the daemon's layers are not known.
pub open spec fn coverage_warning(error: Seq<char>) -> Seq<char> {
    "could not inspect existing Docker layers; downloading all missing cache layers: "@ + error
}

/// What to do after an event of a pull.
pub open spec fn pull_step(options: PullOptions, event: PullEventView) -> PullActionView {
    match event {
        PullEventView::Started { stopped } => if stopped {
            PullActionView::Fail(ErrorView::Interrupted)
        } else {
            PullActionView::SaveManifest
        },
        PullEventView::ManifestSaved => PullActionView::LoadConfig,
        PullEventView::ConfigLoaded { layers, diff_ids } => if layers.len() != diff_ids.len() {
            PullActionView::Fail(
                ErrorView::BadResponse(
                    "config diff_ids count "@ + text::decimal_view(diff_ids.len())
                        + " does not match manifest layers count "@ + text::decimal_view(
                        layers.len(),
                    ),
                ),
            )
        } else {
            PullActionView::ClaimLayers(crate::image::paired(layers, diff_ids))
        },
        PullEventView::LayersClaimed => if options.no_load {
            PullActionView::ShowLayers
        } else {
            PullActionView::CheckExisting
        },
        PullEventView::Existing(found) => if found {
            PullActionView::Done
        } else {
            PullActionView::ShowLayers
        },
        PullEventView::LayersShown => after_showing(options),
        PullEventView::Coverage(r) => PullActionView::CheckLayers {
            warning: match r {
                Ok(()) => None,
                Err(message) => Some(coverage_warning(message)),
            },
        },
        PullEventView::LayersChecked => PullActionView::Download,
        PullEventView::Downloaded => PullActionView::SaveReference,
        PullEventView::ReferenceSaved => if options.no_load {
            PullActionView::Finish("Pulled"@)
        } else {
            PullActionView::Load
        },
        PullEventView::Loaded => PullActionView::Done,
    }
}

/// Decides what to do after an event of a pull.
pub fn next_pull_action(options: &PullOptions, event: PullEvent) -> (action: PullAction)
    ensures
        action@ == pull_step(*options, event@),
{
    match event {
        PullEvent::Started { stopped } => {
            if stopped {
                PullAction::Fail(DockerPullError::Interrupted)
            } else {
                PullAction::SaveManifest
            }
        },
        PullEvent::ManifestSaved => PullAction::LoadConfig,
        PullEvent::ConfigLoaded { layers, diff_ids } => match pair_layers(&layers, &diff_ids) {
            Err(e) => PullAction::Fail(e),
            Ok(paired) => PullAction::ClaimLayers(paired),
        },
        PullEvent::LayersClaimed => {
            if options.no_load {
                PullAction::ShowLayers
            } else {
                PullAction::CheckExisting
            }
        },
        PullEvent::Existing(found) => {
            if found {
                PullAction::Done
            } else {
                PullAction::ShowLayers
            }
        },
        PullEvent::LayersShown => {
            if matches!(options.load_mode, LoadMode::Stream) {
                PullAction::InspectDaemon
            } else {
                PullAction::CheckLayers { warning: None }
            }
        },
        PullEvent::Coverage(r) => match r {
            Ok(()) => PullAction::CheckLayers { warning: None },
            Err(message) => PullAction::CheckLayers {
                warning: Some(
                    concat2(
                        "could not inspect existing Docker layers; downloading all missing cache layers: ",
                        message.as_str(),
                    ),
                ),
            },
        },
        PullEvent::LayersChecked => PullAction::Download,
        PullEvent::Downloaded => PullAction::SaveReference,
        PullEvent::ReferenceSaved => {
            if options.no_load {
                PullAction::Finish("Pulled")
            } else {
                PullAction::Load
            }
        },
        PullEvent::Loaded => PullAction::Done,
    }
}

/// What is done for a layer.
#[derive(Debug, Clone, Copy, PartialEq, Eq, Structural)]
pub enum LayerSource {
    /// It is stored.
    Cached,
    /// The daemon has it.
    Daemon,
    /// It has to be downloaded.
    Download,
}

/// Where a layer comes from: a stored layer is used first, then one that the daemon has.
pub open spec fn layer_source_view(
    cached: bool,
    diff_id: Seq<char>,
    daemon_layers: Map<Seq<char>, Seq<char>>,
) -> LayerSource {
    if cached {
        LayerSource::Cached
    } else if daemon_layers.contains_key(diff_id) {
        LayerSource::Daemon
    } else {
        LayerSource::Download
    }
}

/// Decides where a layer comes from.
pub fn layer_source(cached: bool, layer: &LayerSpec, daemon_layers: &Variables) -> (r: LayerSource)
    ensures
        r == layer_source_view(cached, layer.diff_id@, daemon_layers@),
{
    if cached {
        return LayerSource::Cached;
    }
    match daemon_layers.get(layer.diff_id.as_str()) {
        Some(_) => LayerSource::Daemon,
        None => LayerSource::Download,
    }
}

/// The layers that have to be downloaded, in the order in which they were checked.
pub open spec fn downloads_view(
    layers: Seq<LayerSpecView>,
    checked: Seq<(int, bool)>,
    daemon_layers: Map<Seq<char>, Seq<char>>,
) -> Seq<DescriptorView>
    decreases checked.len(),
{
    if checked.len() == 0 {
        seq![]
    } else {
        let before = downloads_view(layers, checked.drop_last(), daemon_layers);
        let (at, cached) = checked.last();
        if layer_source_view(cached, layers[at].diff_id, daemon_layers) == LayerSource::Download {
            before.push(layers[at].descriptor)
        } else {
            before
        }
    }
}

/// The places and answers of checked layers.
pub open spec fn checks_view(checked: Seq<(usize, bool)>) -> Seq<(int, bool)> {
    checked.map_values(|c: (usize, bool)| (c.0 as int, c.1))
}

/// Lists the layers that have to be downloaded. `checked` tells for layers, by their place, whether
/// they are stored.
pub fn layers_to_download(
    layers: &Vec<LayerSpec>,
    checked: &Vec<(usize, bool)>,
    daemon_layers: &Variables,
) -> (r: Vec<Descriptor>)
    requires
        forall|i: int| 0 <= i < checked@.len() ==> (#[trigger] checked@[i]).0 < layers@.len(),
    ensures
        descriptors_view(r@) == downloads_view(
            layers_view(layers@),
            checks_view(checked@),
            daemon_layers@,
        ),
{
    let ghost all = checks_view(checked@);
    let mut out: Vec<Descriptor> = Vec::new();
    assert(descriptors_view(out@) =~= Seq::<DescriptorView>::empty());
    let mut i: usize = 0;
    while i < checked.len()
        invariant
            i <= checked@.len(),
            all == checks_view(checked@),
            forall|k: int| 0 <= k < checked@.len() ==> (#[trigger] checked@[k]).0 < layers@.len(),
            descriptors_view(out@) == downloads_view(
                layers_view(layers@),
                all.take(i as int),
                daemon_layers@,
            ),
        decreases checked@.len() - i,
    {
        let (at, cached) = checked[i];
        assert(checked@[i as int].0 < layers@.len());
        assert(all.take(i + 1).drop_last() =~= all.take(i as int));
        assert(all.take(i + 1).last() == (at as int, cached));
        assert(layers_view(layers@)[at as int] == layers@[at as int]@);
        let source = layer_source(cached, &layers[at], daemon_layers);
        if matches!(source, LayerSource::Download) {
            let ghost before = out@;
            let descriptor = layers[at].descriptor.copy();
            out.push(descriptor);
            assert(descriptors_view(out@) =~= descriptors_view(before).push(descriptor@));
        }
        i += 1;
    }
    assert(all.take(i as int) =~= all);
    out
}

/// What is done to load an image.
#[derive(Debug, Clone, Copy, PartialEq, Eq, Structural)]
pub enum LoadRoute {
    /// It is sent as an archive.
    Stream,
    /// It is sent as an archive after a warning, for it has no tag to be pulled by.
    StreamForDigest,
    /// It is pulled from a temporary registry, tagged with its name, and the name that it was
    /// pulled by is removed.
    Registry,
}

/// How an image gets to the daemon.
pub open spec fn load_route_view(mode: LoadMode, target: TargetView) -> LoadRoute {
    match mode {
        LoadMode::Stream => LoadRoute::Stream,
        LoadMode::Registry => match target {
            TargetView::Digest(_) => LoadRoute::StreamForDigest,
            TargetView::Tag(_) => LoadRoute::Registry,
        },
    }
}

/// Decides how an image gets to the daemon.
pub fn load_route(mode: LoadMode, reference: &ImageReference) -> (route: LoadRoute)
    ensures
        route == load_route_view(mode, reference@.target),
{
    match mode {
        LoadMode::Stream => LoadRoute::Stream,
        LoadMode::Registry => match reference.target {
            ReferenceTarget::Digest(_) => LoadRoute::StreamForDigest,
            ReferenceTarget::Tag(_) => LoadRoute::Registry,
        },
    }
}

/// The name by which an image is pulled from a temporary registry at an address; an image without a
/// tag has none.
pub open spec fn synthetic_view(
    address: Seq<char>,
    reference: ReferenceView,
) -> std::result::Result<Seq<char>, ErrorView> {
    match reference.target {
        TargetView::Tag(tag) => Ok(
            address + "/"@ + cached_name(reference.registry, reference.repository) + ":"@ + tag,
        ),
        TargetView::Digest(_) => Err(
            ErrorView::InvalidInput("temporary cache registry requires a tag reference"@),
        ),
    }
}

/// The name by which an image is pulled from a temporary registry at an address.
pub fn synthetic_reference(address: &str, reference: &ImageReference) -> (r: std::result::Result<
    String,
    DockerPullError,
>)
    ensures
        synthetic_view(address@, reference@) == match r {
            Ok(s) => Ok(s@),
            Err(e) => Err(e@),
        },
{
    match &reference.target {
        ReferenceTarget::Digest(_) => Err(
            DockerPullError::InvalidInput(
                "temporary cache registry requires a tag reference".to_owned(),
            ),
        ),
        ReferenceTarget::Tag(tag) => {
            let repository = cache_repository(
                reference.registry.as_str(),
                reference.repository.as_str(),
            );
            let mut s = concat2(address, "/");
            s.append(repository.as_str());
            s.append(":");
            s.append(tag.as_str());
            Ok(s)
        },
    }
}

/// How an image is finished once the daemon has it.
#[derive(Debug, Clone, Copy)]
pub struct Finishing {
    /// Whether its layers leave the cache.
    pub prune: bool,
    /// What is told of it.
    pub status: &'static str,
}

/// Whether the layers of an image leave the cache once the daemon has it.
pub open spec fn prunes(options: PullOptions) -> bool {
    !options.keep_layer_blobs
}

/// What is told of an image that the daemon has, before or only now.
pub open spec fn finished_status(existing: bool) -> Seq<char> {
    if existing {
        "Already exists"@
    } else {
        "Ready"@
    }
}

/// Decides how an image is finished once the daemon has it; `existing` tells that it was there
/// before.
pub fn finishing(options: &PullOptions, existing: bool) -> (r: Finishing)
    ensures
        r.prune == prunes(*options),
        r.status@ == finished_status(existing),
{
    Finishing {
        prune: !options.keep_layer_blobs,
        status: if existing {
            "Already exists"
        } else {
            "Ready"
        },
    }
}

/// A task that runs beside others.
#[derive(Debug, Clone, Copy, PartialEq, Eq, Structural)]
pub enum Worker {
    /// It downloads a layer.
    Download,
    /// It pulls an image.
    Pull,
    /// It describes an image of the daemon.
    Inspect,
    /// It writes an archive.
    Archive,
}

/// The failure of a task that was lost.
pub open spec fn lost_view(worker: Worker, message: Seq<char>) -> ErrorView {
    match worker {
        Worker::Download => ErrorView::InvalidInput("download worker failed: "@ + message),
        Worker::Pull => ErrorView::CommandFailed("pull task failed: "@ + message),
        Worker::Inspect => ErrorView::CommandFailed(
            "docker image inspect task failed: "@ + message,
        ),
        Worker::Archive => ErrorView::CommandFailed("archive stream writer failed: "@ + message),
    }
}

/// The failure of a task that was lost.
pub fn lost_worker(worker: Worker, message: &str) -> (e: DockerPullError)
    ensures
        e@ == lost_view(worker, message@),
{
    match worker {
        Worker::Download => DockerPullError::InvalidInput(
            concat2("download worker failed: ", message),
        ),
        Worker::Pull => DockerPullError::CommandFailed(concat2("pull task failed: ", message)),
        Worker::Inspect => DockerPullError::CommandFailed(
            concat2("docker image inspect task failed: ", message),
        ),
        Worker::Archive => DockerPullError::CommandFailed(
            concat2("archive stream writer failed: ", message),
        ),
    }
}

/// How a task ended: with its own result, or lost with a message.
pub enum WorkerEnd {
    Finished(std::result::Result<(), DockerPullError>),
    Lost(String),
}

/// What came of an archive that one task wrote while the daemon read it. Where the daemon fails,
/// a failure of the writer is the reason and is told instead.
pub open spec fn stream_view(
    loaded: std::result::Result<(), DockerPullError>,
    writer: WorkerEnd,
) -> std::result::Result<(), ErrorView> {
    match writer {
        WorkerEnd::Lost(message) => Err(lost_view(Worker::Archive, message@)),
        WorkerEnd::Finished(Err(e)) => Err(e@),
        WorkerEnd::Finished(Ok(())) => match loaded {
            Ok(()) => Ok(()),
            Err(e) => Err(e@),
        },
    }
}

/// Decides what came of an archive that one task wrote while the daemon read it.
pub fn stream_outcome(
    loaded: std::result::Result<(), DockerPullError>,
    writer: WorkerEnd,
) -> (r: std::result::Result<(), DockerPullError>)
    ensures
        stream_view(loaded, writer) == match r {
            Ok(()) => Ok(()),
            Err(e) => Err(e@),
        },
{
    match writer {
        WorkerEnd::Lost(message) => Err(lost_worker(Worker::Archive, message.as_str())),
        WorkerEnd::Finished(Err(e)) => Err(e),
        WorkerEnd::Finished(Ok(())) => loaded,
    }
}

/// The daemon is never asked for an image that is not to be loaded, and such an image is never
/// loaded.
pub proof fn law_no_load_means_no_load(options: PullOptions, event: PullEventView)
    requires
        options.no_load,
    ensures
        !(pull_step(options, event) is CheckExisting),
        pull_step(options, event) != PullActionView::Load,
{
}

/// A layer that is stored is never downloaded, nor one that the daemon has.
pub proof fn law_only_missing_layers_are_downloaded(
    layers: Seq<LayerSpecView>,
    checked: Seq<(int, bool)>,
    daemon_layers: Map<Seq<char>, Seq<char>>,
    descriptor: DescriptorView,
)
    requires
        forall|i: int|
            0 <= i < checked.len() ==> 0 <= (#[trigger] checked[i]).0 < layers.len(),
    ensures
        downloads_view(layers, checked, daemon_layers).contains(descriptor) <==> exists|i: int|
            0 <= i < checked.len() && !(#[trigger] checked[i]).1 && layers[checked[i].0].descriptor
                == descriptor && !daemon_layers.contains_key(layers[checked[i].0].diff_id),
    decreases checked.len(),
{
    let out = downloads_view(layers, checked, daemon_layers);
    if checked.len() > 0 {
        let shorter = checked.drop_last();
        assert forall|i: int| 0 <= i < shorter.len() implies 0 <= (#[trigger] shorter[i]).0
            < layers.len() by {
            assert(shorter[i] == checked[i]);
        }
        law_only_missing_layers_are_downloaded(layers, shorter, daemon_layers, descriptor);
        let before = downloads_view(layers, shorter, daemon_layers);
        let last = checked.len() - 1;
        assert(checked[last] == checked.last());
        if out.contains(descriptor) {
            let j = choose|j: int| 0 <= j < out.len() && out[j] == descriptor;
            if j < before.len() {
                assert(before[j] == descriptor);
                assert(before.contains(descriptor));
                let i = choose|i: int|
                    0 <= i < shorter.len() && !(#[trigger] shorter[i]).1
                        && layers[shorter[i].0].descriptor == descriptor
                        && !daemon_layers.contains_key(layers[shorter[i].0].diff_id);
                assert(checked[i] == shorter[i]);
            } else {
                assert(!checked[last].1);
            }
        }
        if exists|i: int|
            0 <= i < checked.len() && !(#[trigger] checked[i]).1 && layers[checked[i].0].descriptor
                == descriptor && !daemon_layers.contains_key(layers[checked[i].0].diff_id) {
            let i = choose|i: int|
                0 <= i < checked.len() && !(#[trigger] checked[i]).1
                    && layers[checked[i].0].descriptor == descriptor
                    && !daemon_layers.contains_key(layers[checked[i].0].diff_id);
            if i < last {
                assert(shorter[i] == checked[i]);
                assert(before.contains(descriptor));
                let k = choose|k: int| 0 <= k < before.len() && before[k] == descriptor;
                assert(out[k] == descriptor);
            } else {
                assert(out[out.len() - 1] == descriptor);
            }
        }
    }
}

/// A pull that is not stopped goes on from step to step: it stores the manifest, reads the
/// configuration, claims and shows the layers, checks and downloads them, stores the reference, and
/// hands the image to the daemon unless that is not wanted.
pub proof fn law_a_pull_goes_on_from_step_to_step(
    options: PullOptions,
    layers: Seq<DescriptorView>,
    diff_ids: Seq<Seq<char>>,
    message: Seq<char>,
)
    ensures
        pull_step(options, PullEventView::Started { stopped: true }) == PullActionView::Fail(
            ErrorView::Interrupted,
        ),
        pull_step(options, PullEventView::Started { stopped: false })
            == PullActionView::SaveManifest,
        pull_step(options, PullEventView::ManifestSaved) == PullActionView::LoadConfig,
        pull_step(options, PullEventView::ConfigLoaded { layers, diff_ids }) is ClaimLayers
            <==> layers.len() == diff_ids.len(),
        !(pull_step(options, PullEventView::ConfigLoaded { layers, diff_ids }) is ClaimLayers)
            ==> pull_step(options, PullEventView::ConfigLoaded { layers, diff_ids }) is Fail,
        !options.no_load ==> pull_step(options, PullEventView::LayersClaimed)
            == PullActionView::CheckExisting,
        options.no_load ==> pull_step(options, PullEventView::LayersClaimed)
            == PullActionView::ShowLayers,
        pull_step(options, PullEventView::Existing(true)) == PullActionView::Done,
        pull_step(options, PullEventView::Existing(false)) == PullActionView::ShowLayers,
        options.load_mode is Stream ==> pull_step(options, PullEventView::LayersShown)
            == PullActionView::InspectDaemon,
        options.load_mode is Registry ==> pull_step(options, PullEventView::LayersShown) == (
        PullActionView::CheckLayers { warning: None }),
        pull_step(options, PullEventView::Coverage(Ok(()))) == (PullActionView::CheckLayers {
            warning: None,
        }),
        pull_step(options, PullEventView::Coverage(Err(message))) matches
            PullActionView::CheckLayers { warning: Some(_) },
        pull_step(options, PullEventView::LayersChecked) == PullActionView::Download,
        pull_step(options, PullEventView::Downloaded) == PullActionView::SaveReference,
        !options.no_load ==> pull_step(options, PullEventView::ReferenceSaved)
            == PullActionView::Load,
        options.no_load ==> pull_step(options, PullEventView::ReferenceSaved)
            == PullActionView::Finish("Pulled"@),
        pull_step(options, PullEventView::Loaded) == PullActionView::Done,
{
}

/// Each layer is claimed with its unpacked digest, in the order of the manifest.
pub proof fn law_layers_are_claimed_with_their_unpacked_digests(
    options: PullOptions,
    layers: Seq<DescriptorView>,
    diff_ids: Seq<Seq<char>>,
    i: int,
)
    requires
        layers.len() == diff_ids.len(),
        0 <= i < layers.len(),
    ensures
        ({
            let action = pull_step(options, PullEventView::ConfigLoaded { layers, diff_ids });
            &&& action is ClaimLayers
            &&& action->ClaimLayers_0.len() == layers.len()
            &&& action->ClaimLayers_0[i].descriptor == layers[i]
            &&& action->ClaimLayers_0[i].diff_id == diff_ids[i]
        }),
{
}

/// A layer is taken from the cache where it is stored, otherwise from the daemon where it has it,
/// and is downloaded only where neither has it.
pub proof fn law_the_nearest_layer_is_taken(
    cached: bool,
    diff_id: Seq<char>,
    daemon_layers: Map<Seq<char>, Seq<char>>,
)
    ensures
        layer_source_view(cached, diff_id, daemon_layers) == LayerSource::Cached <==> cached,
        layer_source_view(cached, diff_id, daemon_layers) == LayerSource::Daemon <==> !cached
            && daemon_layers.contains_key(diff_id),
        layer_source_view(cached, diff_id, daemon_layers) == LayerSource::Download <==> !cached
            && !daemon_layers.contains_key(diff_id),
{
}

/// An image is pulled from a temporary registry only where that is asked for and it has a tag to be
/// pulled by; then it goes by its registry, its repository and its tag.
pub proof fn law_only_tagged_images_are_pulled_from_the_cache(
    mode: LoadMode,
    address: Seq<char>,
    reference: ReferenceView,
    tag: Seq<char>,
)
    ensures
        load_route_view(mode, reference.target) == LoadRoute::Registry <==> mode is Registry
            && reference.target is Tag,
        load_route_view(mode, reference.target) == LoadRoute::Stream <==> mode is Stream,
        load_route_view(mode, reference.target) == LoadRoute::StreamForDigest <==> mode is Registry
            && reference.target is Digest,
        synthetic_view(address, reference) is Ok <==> reference.target is Tag,
        reference.target == TargetView::Tag(tag) ==> synthetic_view(address, reference) == Ok::<
            _,
            ErrorView,
        >(address + "/"@ + (reference.registry + "/"@ + reference.repository) + ":"@ + tag),
{
}

/// The layers of an image leave the cache once the daemon has it unless they are to stay, whether
/// or not it was there before.
pub proof fn law_kept_layers_stay(options: PullOptions)
    ensures
        options.keep_layer_blobs <==> !prunes(options),
        finished_status(true) == "Already exists"@,
        finished_status(false) == "Ready"@,
{
}

/// An archive is loaded only where it was both written and read to its end, and a failure of the
/// writer is told before one of the reader.
pub proof fn law_a_half_written_archive_is_not_loaded(
    loaded: std::result::Result<(), DockerPullError>,
    writer: WorkerEnd,
)
    ensures
        stream_view(loaded, writer) is Ok <==> loaded is Ok && (writer
            matches WorkerEnd::Finished(Ok(()))),
        writer matches WorkerEnd::Finished(Err(e)) ==> stream_view(loaded, writer) == Err::<(), _>(
            e@,
        ),
        writer matches WorkerEnd::Finished(Ok(())) ==> (loaded matches Err(e) ==> stream_view(
            loaded,
            writer,
        ) == Err::<(), _>(e@)),
{
}

} // verus!
