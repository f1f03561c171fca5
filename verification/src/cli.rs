//! The arguments of the program.
use vstd::prelude::*;

use crate::pull::steps::LoadMode;

verus! {

/// What the program is asked to do.
#[derive(Debug)]
pub struct Cli {
    pub global: GlobalArgs,
    pub command: Commands,
}

/// What holds for every command.
#[derive(Debug)]
pub struct GlobalArgs {
    /// The directory of blobs and partial downloads.
    pub cache_dir: String,
    pub quiet: bool,
}

/// The commands.
#[derive(Debug)]
pub enum Commands {
    /// Pull images from a registry.
    Pull(PullArgs),
    /// Work on a Compose project.
    Compose(ComposeArgs),
    /// Serve the cache as a registry.
    Serve(ServeArgs),
    /// Manage the cache.
    Cache(CacheArgs),
    /// Work on images of the docker daemon.
    Image(ImageArgs),
    /// List the images of the docker daemon.
    Images(ImageLsArgs),
    /// Tell the version.
    Version,
}

/// Which layers are downloaded, and how many at a time.
#[derive(Debug)]
pub struct DownloadArgs {
    pub platform: Option<String>,
    pub concurrency: usize,
}

/// How often requests and downloads are tried again.
#[derive(Debug)]
pub struct RetryArgs {
    pub blob_retries: Option<u32>,
    pub request_retries: Option<u32>,
    pub retry_forever: bool,
}

/// What is done with a pulled image.
#[derive(Debug)]
pub struct ImportArgs {
    pub no_load: bool,
    pub keep_layer_blobs: bool,
    pub load_mode: LoadMode,
}

/// How registries are reached.
#[derive(Debug)]
pub struct RegistryArgs {
    pub plain_http: bool,
    pub insecure_skip_tls_verify: bool,
    pub ca_file: Option<String>,
}

/// How the program shows itself to registries.
#[derive(Debug)]
pub struct AuthArgs {
    pub username: Option<String>,
    pub password_stdin: bool,
}

/// Where images are taken from before their own registry.
#[derive(Debug)]
pub struct CacheSourceArgs {
    pub cache_from: Option<String>,
    pub cache_only: bool,
}

/// The arguments of every pull.
#[derive(Debug)]
pub struct PullCommonArgs {
    pub download: DownloadArgs,
    pub image_concurrency: usize,
    pub retry: RetryArgs,
    pub import: ImportArgs,
    pub registry: RegistryArgs,
    pub auth: AuthArgs,
    pub cache: CacheSourceArgs,
    pub quiet: bool,
}

/// The arguments of a pull.
#[derive(Debug)]
pub struct PullArgs {
    pub references: Vec<String>,
    pub common: PullCommonArgs,
    pub no_animations: bool,
}

/// The Compose files of a project, and what to do with it.
#[derive(Debug)]
pub struct ComposeArgs {
    pub file: Vec<String>,
    pub profile: Vec<String>,
    pub command: ComposeCommands,
}

/// The commands on a Compose project.
#[derive(Debug)]
pub enum ComposeCommands {
    /// Show the project.
    Config(ComposeConfigArgs),
    /// Pull the images of the project.
    Pull(ComposePullArgs),
}

/// The form in which a project is shown.
#[derive(Debug, Clone, Copy, PartialEq, Eq, Structural)]
pub enum ComposeConfigFormat {
    Json,
}

/// What is shown of a project.
#[derive(Debug)]
pub struct ComposeConfigArgs {
    pub services: Vec<String>,
    pub images: bool,
    pub services_only: bool,
    pub pull_plan: bool,
    pub format: Option<ComposeConfigFormat>,
}

/// The arguments of a pull of a project.
#[derive(Debug)]
pub struct ComposePullArgs {
    pub services: Vec<String>,
    pub common: PullCommonArgs,
}

/// The arguments of a server.
#[derive(Debug)]
pub struct ServeArgs {
    pub listen: String,
    pub pull_missing: bool,
    pub concurrency: usize,
    pub retry: RetryArgs,
    pub registry: RegistryArgs,
    pub auth: AuthArgs,
    pub connect_timeout_seconds: i64,
    pub quiet: bool,
}

/// What to do with the cache.
#[derive(Debug)]
pub struct CacheArgs {
    pub command: CacheCommands,
}

/// The commands on the cache.
#[derive(Debug)]
pub enum CacheCommands {
    /// Delete what is cached.
    Clean(CacheCleanArgs),
}

/// How deletion is reported.
#[derive(Debug)]
pub struct CacheCleanArgs {
    pub verbose: bool,
}

/// What to do with an image of the daemon.
#[derive(Debug)]
pub struct ImageArgs {
    pub command: ImageCommands,
}

/// The commands on images of the daemon.
#[derive(Debug)]
pub enum ImageCommands {
    Ls(ImageLsArgs),
    Inspect(ImageInspectArgs),
    Save(ImageSaveArgs),
    Load(ImageLoadArgs),
}

/// A list of images takes no arguments.
#[derive(Debug)]
pub struct ImageLsArgs {}

/// The image to describe.
#[derive(Debug)]
pub struct ImageInspectArgs {
    pub reference: String,
}

/// The image to save, and where.
#[derive(Debug)]
pub struct ImageSaveArgs {
    pub reference: String,
    pub output: String,
}

/// The archive to load.
#[derive(Debug)]
pub struct ImageLoadArgs {
    pub input: String,
}

} // verus!
