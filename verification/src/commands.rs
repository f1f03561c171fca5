//! What each command does, and what it writes.
use vstd::prelude::*;

use crate::cli::{
    AuthArgs, CacheCommands, Cli, Commands, ComposeCommands, ImageCommands, RegistryArgs,
};
use crate::compose::{services_view, unique_images, ComposeImages, ServiceImageView};
use crate::error::{concat2, concat3};
use crate::pull::request::PullRequestOptions;
use crate::pull::steps::DEFAULT_BLOB_RETRIES;
use crate::registry::client::DEFAULT_REQUEST_RETRIES;
use crate::retry::{limit_view, retry_limit};
use crate::store::{ClearedCacheFile, ClearedFileView};
use crate::text::{self, opt_string, texts};
use crate::ui::{paint, painted, Style};

verus! {

/// What is shown of a Compose project.
#[derive(Debug, Clone, Copy, PartialEq, Eq, Structural)]
pub enum ConfigOutput {
    /// What a pull would do.
    PullPlan,
    /// The images, each once.
    Images,
    /// The names of the services.
    Services,
    /// Everything, as JSON.
    Json,
}

/// How the cache is served.
#[derive(Debug)]
pub struct ServePlan {
    pub listen: String,
    pub registry: RegistryArgs,
    pub auth: AuthArgs,
    pub pull_missing: bool,
    pub blob_retry_limit: Option<u32>,
    pub request_retry_limit: Option<u32>,
    pub connect_timeout_seconds: i64,
    pub concurrency: usize,
    pub quiet: bool,
}

/// What a command does.
#[derive(Debug)]
pub enum CommandPlan {
    /// Pull images.
    Pull { cache_dir: String, quiet: bool, references: Vec<String>, request: PullRequestOptions },
    /// Show a Compose project.
    ComposeConfig {
        files: Vec<String>,
        profiles: Vec<String>,
        services: Vec<String>,
        output: ConfigOutput,
    },
    /// Report what will be pulled for a Compose project, unless `silent`, and pull it.
    ComposePull {
        cache_dir: String,
        files: Vec<String>,
        profiles: Vec<String>,
        services: Vec<String>,
        silent: bool,
        quiet: bool,
        request: PullRequestOptions,
    },
    /// Serve the cache.
    Serve { cache_dir: String, plan: ServePlan },
    /// Delete what is cached.
    CleanCache { cache_dir: String, quiet: bool, verbose: bool },
    /// List the images of the daemon.
    ListImages,
    /// Describe an image of the daemon.
    InspectImage(String),
    /// Save an image of the daemon to a file.
    SaveImage { reference: String, output: String },
    /// Load a file into the daemon.
    LoadImage(String),
    /// Tell the version.
    Version,
}

/// What is shown of a project: the plan of a pull wins over the images, these over the names of
/// the services, and these over everything.
pub open spec fn output_view(pull_plan: bool, images: bool, services_only: bool) -> ConfigOutput {
    if pull_plan {
        ConfigOutput::PullPlan
    } else if images {
        ConfigOutput::Images
    } else if services_only {
        ConfigOutput::Services
    } else {
        ConfigOutput::Json
    }
}

/// What a command does.
pub open spec fn planned(cli: Cli) -> CommandPlan {
    match cli.command {
        Commands::Pull(args) => CommandPlan::Pull {
            cache_dir: cli.global.cache_dir,
            quiet: cli.global.quiet,
            references: args.references,
            request: PullRequestOptions::asked(args.common, args.no_animations),
        },
        Commands::Compose(args) => match args.command {
            ComposeCommands::Config(config) => CommandPlan::ComposeConfig {
                files: args.file,
                profiles: args.profile,
                services: config.services,
                output: output_view(config.pull_plan, config.images, config.services_only),
            },
            ComposeCommands::Pull(pull) => CommandPlan::ComposePull {
                cache_dir: cli.global.cache_dir,
                files: args.file,
                profiles: args.profile,
                services: pull.services,
                silent: cli.global.quiet || pull.common.quiet,
                quiet: cli.global.quiet,
                request: PullRequestOptions::asked(pull.common, true),
            },
        },
        Commands::Serve(args) => CommandPlan::Serve {
            cache_dir: cli.global.cache_dir,
            plan: ServePlan {
                listen: args.listen,
                registry: args.registry,
                auth: args.auth,
                pull_missing: args.pull_missing,
                blob_retry_limit: limit_view(
                    args.retry.blob_retries,
                    args.retry.retry_forever,
                    DEFAULT_BLOB_RETRIES,
                ),
                request_retry_limit: limit_view(
                    args.retry.request_retries,
                    args.retry.retry_forever,
                    DEFAULT_REQUEST_RETRIES,
                ),
                connect_timeout_seconds: args.connect_timeout_seconds,
                concurrency: if args.concurrency < 1 {
                    1
                } else {
                    args.concurrency
                },
                quiet: cli.global.quiet || args.quiet,
            },
        },
        Commands::Cache(args) => match args.command {
            CacheCommands::Clean(clean) => CommandPlan::CleanCache {
                cache_dir: cli.global.cache_dir,
                quiet: cli.global.quiet,
                verbose: clean.verbose,
            },
        },
        Commands::Image(args) => match args.command {
            ImageCommands::Ls(_) => CommandPlan::ListImages,
            ImageCommands::Inspect(inspect) => CommandPlan::InspectImage(inspect.reference),
            ImageCommands::Save(save) => CommandPlan::SaveImage {
                reference: save.reference,
                output: save.output,
            },
            ImageCommands::Load(load) => CommandPlan::LoadImage(load.input),
        },
        Commands::Images(_) => CommandPlan::ListImages,
        Commands::Version => CommandPlan::Version,
    }
}

/// Decides what a command does.
pub fn execute(cli: Cli) -> (plan: CommandPlan)
    ensures
        plan == planned(cli),
{
    match cli.command {
        Commands::Pull(args) => {
            let (references, request) = PullRequestOptions::from_pull_args(args);
            CommandPlan::Pull {
                cache_dir: cli.global.cache_dir,
                quiet: cli.global.quiet,
                references,
                request,
            }
        },
        Commands::Compose(args) => match args.command {
            ComposeCommands::Config(config) => {
                let output = if config.pull_plan {
                    ConfigOutput::PullPlan
                } else if config.images {
                    ConfigOutput::Images
                } else if config.services_only {
                    ConfigOutput::Services
                } else {
                    ConfigOutput::Json
                };
                CommandPlan::ComposeConfig {
                    files: args.file,
                    profiles: args.profile,
                    services: config.services,
                    output,
                }
            },
            ComposeCommands::Pull(pull) => CommandPlan::ComposePull {
                cache_dir: cli.global.cache_dir,
                files: args.file,
                profiles: args.profile,
                silent: cli.global.quiet || pull.common.quiet,
                quiet: cli.global.quiet,
                services: pull.services,
                request: PullRequestOptions::from_args(pull.common, true),
            },
        },
        Commands::Serve(args) => CommandPlan::Serve {
            cache_dir: cli.global.cache_dir,
            plan: ServePlan {
                listen: args.listen,
                registry: args.registry,
                auth: args.auth,
                pull_missing: args.pull_missing,
                blob_retry_limit: retry_limit(
                    args.retry.blob_retries,
                    args.retry.retry_forever,
                    DEFAULT_BLOB_RETRIES,
                ),
                request_retry_limit: retry_limit(
                    args.retry.request_retries,
                    args.retry.retry_forever,
                    DEFAULT_REQUEST_RETRIES,
                ),
                connect_timeout_seconds: args.connect_timeout_seconds,
                concurrency: if args.concurrency < 1 {
                    1
                } else {
                    args.concurrency
                },
                quiet: cli.global.quiet || args.quiet,
            },
        },
        Commands::Cache(args) => match args.command {
            CacheCommands::Clean(clean) => CommandPlan::CleanCache {
                cache_dir: cli.global.cache_dir,
                quiet: cli.global.quiet,
                verbose: clean.verbose,
            },
        },
        Commands::Image(args) => match args.command {
            ImageCommands::Ls(_) => CommandPlan::ListImages,
            ImageCommands::Inspect(inspect) => CommandPlan::InspectImage(inspect.reference),
            ImageCommands::Save(save) => CommandPlan::SaveImage {
                reference: save.reference,
                output: save.output,
            },
            ImageCommands::Load(load) => CommandPlan::LoadImage(load.input),
        },
        Commands::Images(_) => CommandPlan::ListImages,
        Commands::Version => CommandPlan::Version,
    }
}

/// What a server says of itself.
pub fn serve_banner(listen: &str, pull_missing: bool) -> (s: String)
    ensures
        s@ == "Serving pocker cache on "@ + listen@ + " ("@ + (if pull_missing {
            "pull missing enabled"@
        } else {
            "cache only"@
        }) + ")"@,
{
    let mut s = concat3("Serving pocker cache on ", listen, " (");
    s.append(
        if pull_missing {
            "pull missing enabled"
        } else {
            "cache only"
        },
    );
    s.append(")");
    s
}

/// Lines, each with its end.
pub open spec fn unlines(lines: Seq<Seq<char>>) -> Seq<char>
    decreases lines.len(),
{
    if lines.len() == 0 {
        seq![]
    } else {
        unlines(lines.drop_last()) + lines.last() + "\n"@
    }
}

/// Writes lines, each with its end.
fn write_lines(lines: &Vec<String>) -> (s: String)
    ensures
        s@ == unlines(texts(lines@)),
{
    let ghost all = texts(lines@);
    let mut s = "".to_owned();
    proof {
        reveal_strlit("");
    }
    assert(s@ =~= unlines(all.take(0)));
    let mut i: usize = 0;
    while i < lines.len()
        invariant
            i <= lines@.len(),
            all == texts(lines@),
            s@ == unlines(all.take(i as int)),
        decreases lines@.len() - i,
    {
        assert(all.take(i + 1).drop_last() =~= all.take(i as int));
        assert(all.take(i + 1).last() == lines@[i as int]@);
        s.append(lines[i].as_str());
        s.append("\n");
        i += 1;
    }
    assert(all.take(i as int) =~= all);
    s
}

/// The names of services.
pub open spec fn service_names(services: Seq<ServiceImageView>) -> Seq<Seq<char>> {
    services.map_values(|s: ServiceImageView| s.service)
}

/// What is written of a project: its images, each once, or the names of its services. There is
/// nothing to write line by line for the other outputs.
pub open spec fn config_view(resolved: ComposeImages, output: ConfigOutput) -> Option<Seq<char>> {
    match output {
        ConfigOutput::Images => Some(unlines(text::unique_view(texts(resolved.images@)))),
        ConfigOutput::Services => Some(
            unlines(service_names(services_view(resolved.services@))),
        ),
        ConfigOutput::PullPlan => None,
        ConfigOutput::Json => None,
    }
}

/// Writes the images of a project, each once, or the names of its services, one in each line.
pub fn write_compose_config(resolved: &ComposeImages, output: ConfigOutput) -> (r: Option<String>)
    ensures
        opt_string(r) == config_view(*resolved, output),
{
    match output {
        ConfigOutput::Images => {
            let images = unique_images(resolved.images.as_slice());
            Some(write_lines(&images))
        },
        ConfigOutput::Services => {
            let ghost goal = service_names(services_view(resolved.services@));
            let mut names: Vec<String> = Vec::new();
            let mut i: usize = 0;
            while i < resolved.services.len()
                invariant
                    i <= resolved.services@.len(),
                    goal == service_names(services_view(resolved.services@)),
                    texts(names@) == goal.take(i as int),
                decreases resolved.services@.len() - i,
            {
                let ghost before = names@;
                names.push(resolved.services[i].service.clone());
                assert(texts(names@) =~= texts(before).push(resolved.services@[i as int].service@));
                assert(goal.take(i + 1) =~= goal.take(i as int).push(
                    resolved.services@[i as int].service@,
                ));
                i += 1;
            }
            assert(goal.take(i as int) =~= goal);
            Some(write_lines(&names))
        },
        ConfigOutput::PullPlan => None,
        ConfigOutput::Json => None,
    }
}

/// The first service from place `from` on that uses an image.
pub open spec fn first_user(services: Seq<ServiceImageView>, image: Seq<char>, from: int) -> int
    decreases services.len() - from,
{
    if from < 0 || from >= services.len() || services[from].image == Some(image) {
        from
    } else {
        first_user(services, image, from + 1)
    }
}

/// The line for a service in the plan of a pull. A service that shares its image with one before
/// says so; one without an image has a line only where it is built.
pub open spec fn plan_line(services: Seq<ServiceImageView>, i: int, color: bool) -> Option<
    Seq<char>,
> {
    let service = services[i];
    let start = "  "@ + painted(service.service, Style::Green, color) + " "@ + painted(
        "->"@,
        Style::Dim,
        color,
    ) + " "@;
    match service.image {
        Some(image) => {
            let first = first_user(services, image, 0);
            if first < i {
                Some(
                    start + image + " "@ + painted(
                        "(shared with "@ + services[first].service + ")"@,
                        Style::Dim,
                        color,
                    ),
                )
            } else {
                Some(start + image)
            }
        },
        None => if service.build_only {
            Some(start + painted("build-only (skipped)"@, Style::Yellow, color))
        } else {
            None
        },
    }
}

/// The lines of the plan of a pull for the first `n` services.
pub open spec fn plan_lines(
    services: Seq<ServiceImageView>,
    color: bool,
    n: nat,
) -> Seq<Seq<char>>
    decreases n,
{
    if n == 0 {
        seq![]
    } else {
        let before = plan_lines(services, color, (n - 1) as nat);
        match plan_line(services, n - 1, color) {
            Some(line) => before.push(line),
            None => before,
        }
    }
}

/// The plan of a pull.
pub open spec fn pull_plan_view(resolved: ComposeImages, quiet: bool, color: bool) -> Seq<char> {
    let services = services_view(resolved.services@);
    if quiet {
        seq![]
    } else {
        unlines(
            seq![
                painted("Compose pull plan:"@, Style::Cyan, color) + " "@ + text::decimal_view(
                    services.len(),
                ) + " service(s), "@ + text::decimal_view(
                    text::unique_view(texts(resolved.images@)).len(),
                ) + " unique image(s)"@,
            ] + plan_lines(services, color, services.len()),
        )
    }
}

/// Finds the first service that uses an image.
fn find_first_user(resolved: &ComposeImages, image: &str) -> (r: usize)
    ensures
        r == first_user(services_view(resolved.services@), image@, 0),
        r <= resolved.services@.len(),
{
    let ghost all = services_view(resolved.services@);
    let mut i: usize = 0;
    while i < resolved.services.len()
        invariant
            i <= resolved.services@.len(),
            all == services_view(resolved.services@),
            first_user(all, image@, 0) == first_user(all, image@, i as int),
        decreases resolved.services@.len() - i,
    {
        assert(all[i as int] == resolved.services@[i as int]@);
        if let Some(used) = &resolved.services[i].image {
            if text::same(used.as_str(), image) {
                return i;
            }
        }
        i += 1;
    }
    i
}

/// Writes the plan of a pull: how much there is to do, and a line for each service.
pub fn write_compose_pull_plan(resolved: &ComposeImages, quiet: bool, color: bool) -> (s: String)
    ensures
        s@ == pull_plan_view(*resolved, quiet, color),
{
    if quiet {
        proof {
            reveal_strlit("");
        }
        let s = "".to_owned();
        assert(s@ =~= Seq::<char>::empty());
        return s;
    }
    let ghost all = services_view(resolved.services@);
    let images = unique_images(resolved.images.as_slice());
    let mut head = concat3(
        paint("Compose pull plan:", Style::Cyan, color).as_str(),
        " ",
        text::decimal(resolved.services.len() as u64).as_str(),
    );
    head.append(" service(s), ");
    head.append(text::decimal(images.len() as u64).as_str());
    head.append(" unique image(s)");
    let ghost first_line = head@;
    let mut lines: Vec<String> = Vec::new();
    lines.push(head);
    assert(texts(lines@) =~= seq![first_line] + plan_lines(all, color, 0));
    let mut i: usize = 0;
    while i < resolved.services.len()
        invariant
            i <= resolved.services@.len(),
            all == services_view(resolved.services@),
            texts(lines@) == seq![first_line] + plan_lines(all, color, i as nat),
        decreases resolved.services@.len() - i,
    {
        assert(all[i as int] == resolved.services@[i as int]@);
        let mut line = concat3(
            "  ",
            paint(resolved.services[i].service.as_str(), Style::Green, color).as_str(),
            " ",
        );
        line.append(paint("->", Style::Dim, color).as_str());
        line.append(" ");
        let ghost before = lines@;
        let mut shown = false;
        if let Some(image) = &resolved.services[i].image {
            let first = find_first_user(resolved, image.as_str());
            line.append(image.as_str());
            if first < i {
                assert(all[first as int] == resolved.services@[first as int]@);
                let note = concat3(
                    "(shared with ",
                    resolved.services[first].service.as_str(),
                    ")",
                );
                line.append(" ");
                line.append(paint(note.as_str(), Style::Dim, color).as_str());
            }
            shown = true;
        } else if resolved.services[i].build_only {
            line.append(paint("build-only (skipped)", Style::Yellow, color).as_str());
            shown = true;
        }
        if shown {
            assert(plan_line(all, i as int, color) == Some(line@));
            lines.push(line);
            assert(texts(lines@) =~= texts(before).push(line@));
            assert(texts(lines@) =~= seq![first_line] + plan_lines(all, color, (i + 1) as nat));
        }
        i += 1;
    }
    assert(text::unique_view(texts(resolved.images@)).len() == images@.len()) by {
        assert(texts(images@).len() == images@.len());
    }
    write_lines(&lines)
}

/// Every image of a project is pulled once: exactly the first service that uses it has a line
/// without a note that it is shared.
pub proof fn law_an_image_is_shared_with_its_first_user(
    services: Seq<ServiceImageView>,
    i: int,
    image: Seq<char>,
)
    requires
        0 <= i < services.len(),
        services[i].image == Some(image),
    ensures
        ({
            let first = first_user(services, image, 0);
            &&& 0 <= first <= i
            &&& services[first].image == Some(image)
            &&& forall|j: int| 0 <= j < first ==> (#[trigger] services[j]).image != Some(image)
        }),
{
    lemma_first_user(services, image, 0, i);
}

proof fn lemma_first_user(
    services: Seq<ServiceImageView>,
    image: Seq<char>,
    from: int,
    i: int,
)
    requires
        0 <= from <= i < services.len(),
        services[i].image == Some(image),
    ensures
        ({
            let first = first_user(services, image, from);
            &&& from <= first <= i
            &&& services[first].image == Some(image)
            &&& forall|j: int| from <= j < first ==> (#[trigger] services[j]).image != Some(image)
        }),
    decreases i - from,
{
    if services[from].image != Some(image) {
        lemma_first_user(services, image, from + 1, i);
    }
}

/// What is said of services that are only built.
pub fn skipped_warning(resolved: &ComposeImages, silent: bool) -> (r: Option<String>)
    ensures
        opt_string(r) == if silent || resolved.skipped_build_only@.len() == 0 {
            None
        } else {
            Some(
                "skipping build-only compose services without image: "@ + text::join_view(
                    texts(resolved.skipped_build_only@),
                    ", "@,
                ),
            )
        },
{
    if silent || resolved.skipped_build_only.len() == 0 {
        return None;
    }
    Some(
        concat2(
            "skipping build-only compose services without image: ",
            text::join(resolved.skipped_build_only.as_slice(), ", ").as_str(),
        ),
    )
}

/// What was deleted from the cache: blobs and other content, and files for coordination.
#[derive(Debug, Clone, Copy, PartialEq, Eq, Structural)]
pub struct DeletedSummary {
    pub cache_files: usize,
    pub cache_bytes: u64,
    pub coordination_files: usize,
    pub coordination_bytes: u64,
}

/// Whether a file of the cache is for coordination: it lies below the directory of the locks.
pub open spec fn is_coordination(path: Seq<char>) -> bool {
    path == "locks"@ || text::strip_prefix_view(path, "locks/"@) is Some
}

/// How many of the files are for coordination, or are not.
pub open spec fn file_count(files: Seq<ClearedFileView>, coordination: bool) -> nat
    decreases files.len(),
{
    if files.len() == 0 {
        0
    } else {
        file_count(files.drop_last(), coordination) + if is_coordination(files.last().path)
            == coordination {
            1nat
        } else {
            0nat
        }
    }
}

/// The bytes of the files that are for coordination, or are not, up to the greatest number that
/// can be counted.
pub open spec fn file_bytes(files: Seq<ClearedFileView>, coordination: bool) -> int
    decreases files.len(),
{
    if files.len() == 0 {
        0
    } else {
        let before = file_bytes(files.drop_last(), coordination);
        if is_coordination(files.last().path) == coordination {
            if before + files.last().size > u64::MAX {
                u64::MAX as int
            } else {
                before + files.last().size
            }
        } else {
            before
        }
    }
}

/// Sums up what was deleted from the cache.
pub fn deleted_cache_summary(files: &Vec<ClearedCacheFile>) -> (r: DeletedSummary)
    ensures
        ({
            let all = crate::store::files_view(files@);
            &&& r.cache_files == file_count(all, false)
            &&& r.cache_bytes == file_bytes(all, false)
            &&& r.coordination_files == file_count(all, true)
            &&& r.coordination_bytes == file_bytes(all, true)
        }),
{
    let ghost all = crate::store::files_view(files@);
    let mut r = DeletedSummary {
        cache_files: 0,
        cache_bytes: 0,
        coordination_files: 0,
        coordination_bytes: 0,
    };
    let mut i: usize = 0;
    while i < files.len()
        invariant
            i <= files@.len(),
            all == crate::store::files_view(files@),
            r.cache_files == file_count(all.take(i as int), false),
            r.cache_bytes == file_bytes(all.take(i as int), false),
            r.coordination_files == file_count(all.take(i as int), true),
            r.coordination_bytes == file_bytes(all.take(i as int), true),
            r.cache_files + r.coordination_files == i,
        decreases files@.len() - i,
    {
        assert(all.take(i + 1).drop_last() =~= all.take(i as int));
        assert(all.take(i + 1).last() == files@[i as int]@);
        let path = files[i].path.as_str();
        let size = files[i].size;
        if text::same(path, "locks") || text::starts_with(path, "locks/") {
            r.coordination_files = r.coordination_files + 1;
            r.coordination_bytes = if size > u64::MAX - r.coordination_bytes {
                u64::MAX
            } else {
                r.coordination_bytes + size
            };
        } else {
            r.cache_files = r.cache_files + 1;
            r.cache_bytes = if size > u64::MAX - r.cache_bytes {
                u64::MAX
            } else {
                r.cache_bytes + size
            };
        }
        i += 1;
    }
    assert(all.take(i as int) =~= all);
    r
}

/// A number of files.
pub fn format_file_count(count: usize) -> (s: String)
    ensures
        s@ == text::decimal_view(count as nat) + " "@ + if count == 1 {
            "file"@
        } else {
            "files"@
        },
{
    let noun = if count == 1 {
        "file"
    } else {
        "files"
    };
    concat3(text::decimal(count as u64).as_str(), " ", noun)
}

/// The plan of a pull is shown before all else, the images before the names of the services, and
/// without any of them the whole project is shown.
pub proof fn law_the_plan_is_shown_first(pull_plan: bool, images: bool, services_only: bool)
    ensures
        output_view(pull_plan, images, services_only) is PullPlan <==> pull_plan,
        output_view(pull_plan, images, services_only) is Images <==> images && !pull_plan,
        output_view(pull_plan, images, services_only) is Services <==> services_only && !images
            && !pull_plan,
        output_view(pull_plan, images, services_only) is Json <==> !services_only && !images
            && !pull_plan,
{
}

/// Lines are written one after the other, each with an end of its own.
pub proof fn law_lines_are_written_in_order(a: Seq<Seq<char>>, b: Seq<Seq<char>>)
    ensures
        unlines(a + b) == unlines(a) + unlines(b),
        forall|line: Seq<char>| #[trigger] unlines(seq![line]) == line + "\n"@,
    decreases b.len(),
{
    if b.len() == 0 {
        assert(a + b =~= a);
        assert(unlines(a) + unlines(b) =~= unlines(a));
    } else {
        law_lines_are_written_in_order(a, b.drop_last());
        assert((a + b).drop_last() =~= a + b.drop_last());
        assert((a + b).last() == b.last());
        assert(unlines(a + b) =~= unlines(a) + unlines(b));
    }
    assert forall|line: Seq<char>| #[trigger] unlines(seq![line]) == line + "\n"@ by {
        assert(seq![line].drop_last() =~= Seq::<Seq<char>>::empty());
        assert(unlines(Seq::<Seq<char>>::empty()) == Seq::<char>::empty());
        assert(seq![line].last() == line);
        assert(Seq::<char>::empty() + line + "\n"@ =~= line + "\n"@);
    }
}

proof fn lemma_first_user_is(services: Seq<ServiceImageView>, image: Seq<char>, from: int, at: int)
    requires
        0 <= from <= at < services.len(),
        services[at].image == Some(image),
        forall|j: int| from <= j < at ==> (#[trigger] services[j]).image != Some(image),
    ensures
        first_user(services, image, from) == at,
    decreases at - from,
{
    if from < at {
        assert(services[from].image != Some(image));
        lemma_first_user_is(services, image, from + 1, at);
    }
}

/// In the plan of a pull a service stands with its image; one whose image a service before it uses
/// says with which it is shared, the first of those. A service that is built is said to be left
/// out, and any other without an image has no line.
pub proof fn law_a_service_stands_with_its_image(
    services: Seq<ServiceImageView>,
    i: int,
    first: int,
)
    requires
        0 <= first <= i < services.len(),
    ensures
        ({
            let name = services[i].service;
            let line = plan_line(services, i, false);
            &&& services[i].image matches Some(image) ==> (services[first].image == Some(image)
                && (forall|j: int| 0 <= j < first ==> (#[trigger] services[j]).image != Some(image))
                ==> line == Some(
                if first == i {
                    "  "@ + name + " -> "@ + image
                } else {
                    "  "@ + name + " -> "@ + image + " (shared with "@ + services[first].service
                        + ")"@
                },
            ))
            &&& services[i].image is None && services[i].build_only ==> line == Some(
                "  "@ + name + " -> build-only (skipped)"@,
            )
            &&& services[i].image is None && !services[i].build_only ==> line is None
        }),
{
    reveal_strlit(" -> ");
    reveal_strlit("->");
    reveal_strlit(" ");
    reveal_strlit(" (shared with ");
    reveal_strlit("(shared with ");
    reveal_strlit(" -> build-only (skipped)");
    reveal_strlit("build-only (skipped)");
    let name = services[i].service;
    assert("  "@ + name + " "@ + "->"@ + " "@ =~= "  "@ + name + " -> "@);
    match services[i].image {
        Some(image) => {
            if services[first].image == Some(image) && (forall|j: int|
                0 <= j < first ==> (#[trigger] services[j]).image != Some(image)) {
                lemma_first_user_is(services, image, 0, first);
                let with = services[first].service;
                assert("  "@ + name + " -> "@ + image + " "@ + ("(shared with "@ + with + ")"@)
                    =~= "  "@ + name + " -> "@ + image + " (shared with "@ + with + ")"@);
            }
        },
        None => {
            assert("  "@ + name + " -> "@ + "build-only (skipped)"@ =~= "  "@ + name
                + " -> build-only (skipped)"@);
        },
    }
}

/// A file is for coordination where it lies below the directory of the locks.
pub proof fn law_what_is_for_coordination(file: Seq<char>)
    ensures
        is_coordination("locks/"@ + file),
        is_coordination("locks"@),
        file.len() > 0 && file[0] != 'l' ==> !is_coordination(file),
        file.len() > 0 && file[0] != '/' ==> !is_coordination("locks"@ + file),
{
    reveal_strlit("locks/");
    reveal_strlit("locks");
    let below = "locks/"@ + file;
    assert(below.subrange(0, 6) =~= "locks/"@);
    if file.len() > 0 {
        let beside = "locks"@ + file;
        assert(beside[5] == file[0]);
        assert("locks/"@[5] == '/');
        assert("locks/"@[0] == 'l');
        assert("locks"@[0] == 'l');
        assert(beside.len() > 5);
    }
}

/// Every deleted file is counted once, and its bytes are added up with those of its kind, as long
/// as they can be counted.
pub proof fn law_each_deleted_file_is_counted_once(
    files: Seq<ClearedFileView>,
    file: ClearedFileView,
)
    ensures
        file_count(files, true) + file_count(files, false) == files.len(),
        ({
            let kind = is_coordination(file.path);
            let all = files.push(file);
            &&& file_count(all, kind) == file_count(files, kind) + 1
            &&& file_count(all, !kind) == file_count(files, !kind)
            &&& file_bytes(all, !kind) == file_bytes(files, !kind)
            &&& file_bytes(files, kind) + file.size <= u64::MAX ==> file_bytes(all, kind)
                == file_bytes(files, kind) + file.size
            &&& file_bytes(files, kind) + file.size > u64::MAX ==> file_bytes(all, kind)
                == u64::MAX
        }),
        file_bytes(Seq::<ClearedFileView>::empty(), true) == 0,
        file_bytes(Seq::<ClearedFileView>::empty(), false) == 0,
    decreases files.len(),
{
    if files.len() > 0 {
        law_each_deleted_file_is_counted_once(files.drop_last(), files.last());
        assert(files.drop_last().push(files.last()) =~= files);
    }
    assert(files.push(file).drop_last() =~= files);
}

} // verus!
