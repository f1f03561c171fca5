//! How a blob is downloaded: from where it goes on, when progress is saved, and what is tried
//! again.
use vstd::prelude::*;

use crate::digest::{self, DigestRun};
use crate::error::{concat2, concat3, DockerPullError, ErrorView};
use crate::registry::types::Status;
use crate::retry::{
    budget_view, format_retry_delay, is_exhausted, record_retry_attempt, retry_delay_view, Delay,
};
use crate::store::{digest_check, law_only_a_whole_blob_is_reused, size_check, BlobCheck};
use crate::text::{self, opt_string};

verus! {

/// After how many bytes progress is saved.
pub const CHECKPOINT_BYTES: u64 = 8388608;

/// After how many seconds progress is saved.
pub const CHECKPOINT_SECONDS: u64 = 2;

/// How far a download has come. Times are readings of one clock.
#[derive(Debug, Clone, Copy, PartialEq, Eq, Structural)]
pub struct DownloadProgress {
    pub offset: u64,
    pub bytes_since_checkpoint: u64,
    pub last_checkpoint: Delay,
}

impl DownloadProgress {
    /// The bytes since the last save are among those of the download.
    pub open spec fn wf(self) -> bool {
        self.bytes_since_checkpoint <= self.offset && self.last_checkpoint.wf()
    }

    /// Whether progress is due to be saved.
    pub open spec fn is_due(self, now: Delay) -> bool {
        self.bytes_since_checkpoint >= CHECKPOINT_BYTES || now.total()
            - self.last_checkpoint.total() >= CHECKPOINT_SECONDS * 1_000_000_000
    }

    /// A download that goes on from an offset.
    pub fn new(offset: u64, now: Delay) -> (p: DownloadProgress)
        requires
            now.wf(),
        ensures
            p.wf(),
            p == (DownloadProgress { offset, bytes_since_checkpoint: 0, last_checkpoint: now }),
    {
        DownloadProgress { offset, bytes_since_checkpoint: 0, last_checkpoint: now }
    }

    /// Counts bytes that arrived.
    pub fn advance(&mut self, bytes: u64)
        requires
            old(self).wf(),
            old(self).offset + bytes <= u64::MAX,
        ensures
            final(self).wf(),
            final(self).offset == old(self).offset + bytes,
            final(self).bytes_since_checkpoint == old(self).bytes_since_checkpoint + bytes,
            final(self).last_checkpoint == old(self).last_checkpoint,
    {
        self.offset = self.offset + bytes;
        self.bytes_since_checkpoint = self.bytes_since_checkpoint + bytes;
    }

    /// Whether progress is due to be saved: enough bytes arrived, or enough time passed.
    pub fn should_checkpoint(&self, now: Delay) -> (r: bool)
        requires
            self.wf(),
            now.wf(),
        ensures
            r == self.is_due(now),
    {
        if self.bytes_since_checkpoint >= CHECKPOINT_BYTES {
            return true;
        }
        let elapsed = now.saturating_sub(self.last_checkpoint);
        !elapsed.less(Delay::from_secs(CHECKPOINT_SECONDS))
    }

    /// Notes that progress was saved.
    pub fn checkpointed(&mut self, now: Delay)
        requires
            now.wf(),
        ensures
            final(self).wf(),
            *final(self) == (DownloadProgress {
                offset: old(self).offset,
                bytes_since_checkpoint: 0,
                last_checkpoint: now,
            }),
    {
        self.bytes_since_checkpoint = 0;
        self.last_checkpoint = now;
    }

    /// Starts over.
    pub fn reset(&mut self, now: Delay)
        requires
            now.wf(),
        ensures
            final(self).wf(),
            *final(self) == (DownloadProgress {
                offset: 0,
                bytes_since_checkpoint: 0,
                last_checkpoint: now,
            }),
    {
        self.offset = 0;
        self.bytes_since_checkpoint = 0;
        self.last_checkpoint = now;
    }
}

/// What is said of a download that ended too early.
pub open spec fn short_view(offset: u64, expected_size: u64) -> Option<Seq<char>> {
    if offset < expected_size {
        Some(
            "download ended at byte "@ + text::decimal_view(offset as nat)
                + " before expected size "@ + text::decimal_view(expected_size as nat),
        )
    } else {
        None
    }
}

/// Says of a download that ended too early where it ended.
pub fn premature_eof_detail(offset: u64, expected_size: u64) -> (r: Option<String>)
    ensures
        opt_string(r) == short_view(offset, expected_size),
{
    if offset < expected_size {
        let mut m = concat3(
            "download ended at byte ",
            text::decimal(offset).as_str(),
            " before expected size ",
        );
        m.append(text::decimal(expected_size).as_str());
        Some(m)
    } else {
        None
    }
}

/// The first byte of a content range: `bytes`, a first and a last byte that does not lie before
/// it, a slash and anything.
pub open spec fn range_start(value: Seq<char>) -> Option<nat> {
    match text::strip_prefix_view(value, "bytes "@) {
        None => None,
        Some(rest) => match text::split_once_view(rest, '/') {
            None => None,
            Some((range, _)) => match text::split_once_view(range, '-') {
                None => None,
                Some((start, end)) => match (
                    text::parse_unsigned_view(start, u64::MAX as nat),
                    text::parse_unsigned_view(end, u64::MAX as nat),
                ) {
                    (Some(first), Some(last)) => if first <= last {
                        Some(first)
                    } else {
                        None
                    },
                    _ => None,
                },
            },
        },
    }
}

/// Reads the first byte of a content range.
pub fn content_range_start(value: &str) -> (r: Option<u64>)
    ensures
        range_start(value@) == match r {
            Some(start) => Some(start as nat),
            None => None,
        },
{
    let rest = match text::strip_prefix(value, "bytes ") {
        None => {
            return None;
        },
        Some(rest) => rest,
    };
    let range = match text::split_once(rest, '/') {
        None => {
            return None;
        },
        Some((range, _)) => range,
    };
    match text::split_once(range, '-') {
        None => None,
        Some((start, end)) => match (
            text::parse_unsigned(start, u64::MAX),
            text::parse_unsigned(end, u64::MAX),
        ) {
            (Some(first), Some(last)) => {
                if first <= last {
                    Some(first)
                } else {
                    None
                }
            },
            _ => None,
        },
    }
}

/// What is wrong with the response to a request for a blob from an offset on.
pub open spec fn blob_response_error(
    code: u16,
    status: Seq<char>,
    content_range: Option<Seq<char>>,
    offset: u64,
    digest: Seq<char>,
) -> Option<ErrorView> {
    let at = digest + " at offset "@ + text::decimal_view(offset as nat);
    if code == 404 {
        Some(ErrorView::BlobNotFound(digest))
    } else if offset == 0 && code == 200 {
        None
    } else if offset > 0 && code == 206 {
        let start = match content_range {
            Some(value) => range_start(value),
            None => None,
        };
        match start {
            None => Some(
                ErrorView::BadResponse("missing or invalid Content-Range for "@ + at),
            ),
            Some(first) => if first == offset {
                None
            } else {
                Some(
                    ErrorView::BadResponse(
                        "unexpected Content-Range start "@ + text::decimal_view(first) + " for "@
                            + at,
                    ),
                )
            },
        }
    } else {
        Some(
            ErrorView::BadResponse("unexpected blob response status "@ + status + " for "@ + at),
        )
    }
}

/// Checks that the response to a request for a blob holds the bytes from the offset on.
pub fn validate_blob_response_status(
    status: &Status,
    content_range: Option<&str>,
    offset: u64,
    digest: &str,
) -> (r: Result<(), DockerPullError>)
    ensures
        blob_response_error(
            status.code,
            status.text@,
            text::opt_view(content_range),
            offset,
            digest@,
        ) == match r {
            Ok(()) => None,
            Err(e) => Some(e@),
        },
{
    if status.code == 404 {
        return Err(DockerPullError::BlobNotFound(digest.to_owned()));
    }
    if offset == 0 && status.code == 200 {
        return Ok(());
    }
    let at = concat3(digest, " at offset ", text::decimal(offset).as_str());
    if offset > 0 && status.code == 206 {
        let start = match content_range {
            Some(value) => content_range_start(value),
            None => None,
        };
        match start {
            None => {
                return Err(
                    DockerPullError::BadResponse(
                        concat2("missing or invalid Content-Range for ", at.as_str()),
                    ),
                );
            },
            Some(first) => {
                if first == offset {
                    return Ok(());
                }
                let mut m = concat3(
                    "unexpected Content-Range start ",
                    text::decimal(first).as_str(),
                    " for ",
                );
                m.append(at.as_str());
                return Err(DockerPullError::BadResponse(m));
            },
        }
    }
    let mut m = concat3("unexpected blob response status ", status.text.as_str(), " for ");
    m.append(at.as_str());
    Err(DockerPullError::BadResponse(m))
}

/// What is told of a blob that another process downloads.
pub const WAITING_STATUS: &'static str = "Waiting for another pocker process";

/// What follows from a try to lock a blob.
#[derive(Debug)]
pub enum LockStep {
    /// The blob is locked.
    Locked,
    /// Another process has the lock, which is told before the lock is tried again.
    Tell(&'static str),
    /// The lock is tried again.
    Wait,
    /// The download is given up.
    Fail(DockerPullError),
}

/// Decides what follows from a try to lock a blob. `told` says whether it was told before that
/// another process has the lock.
pub fn next_lock_step(locked: bool, stopped: bool, told: bool) -> (step: LockStep)
    ensures
        if locked {
            step is Locked
        } else if stopped {
            step matches LockStep::Fail(e) && e@ == ErrorView::Interrupted
        } else if told {
            step is Wait
        } else {
            step matches LockStep::Tell(status) && status@ == WAITING_STATUS@
        },
{
    if locked {
        LockStep::Locked
    } else if stopped {
        LockStep::Fail(DockerPullError::Interrupted)
    } else if told {
        LockStep::Wait
    } else {
        LockStep::Tell(WAITING_STATUS)
    }
}

/// What becomes of a blob once it is locked.
#[derive(Debug, Clone, Copy, PartialEq, Eq, Structural)]
pub enum BlobStep {
    /// The blob is in the cache, and is shown as such.
    MarkCached,
    /// The blob is downloaded.
    Download,
}

/// What becomes of a blob of which something was found in the cache.
pub open spec fn blob_step(found: BlobCheck) -> BlobStep {
    if found == BlobCheck::Complete {
        BlobStep::MarkCached
    } else {
        BlobStep::Download
    }
}

/// Decides what becomes of a blob from what was found of it in the cache while it is locked.
pub fn next_blob_step(found: BlobCheck) -> (step: BlobStep)
    ensures
        step == blob_step(found),
{
    if found.is_complete() {
        BlobStep::MarkCached
    } else {
        BlobStep::Download
    }
}

/// A blob that is whole in the cache is not downloaded, and only such a blob is not.
pub proof fn law_a_whole_blob_is_not_downloaded(
    digest: Seq<char>,
    expected_size: u64,
    size: u64,
    read: DigestRun,
)
    requires
        read.fed().len() == size,
        digest::parsed(digest) is Ok,
        read.algorithm() == digest::parsed(digest)->Ok_0.0,
    ensures
        ({
            let by_size = size_check(Some(size), expected_size);
            let found = if by_size == BlobCheck::CheckDigest {
                digest_check(digest, read.digest())
            } else {
                by_size
            };
            blob_step(found) == BlobStep::MarkCached <==> read.fed().len() == expected_size
                && digest::parsed(digest)->Ok_0.1 == digest::hex_view(
                read.algorithm().hash_of(read.fed()),
            )
        }),
{
    law_only_a_whole_blob_is_reused(digest, expected_size, size, read);
}

/// What is downloaded, and how often it may be tried again.
pub struct DownloadPolicy {
    pub digest: String,
    pub expected_size: u64,
    pub retry_limit: Option<u32>,
}

/// How far a download has come, and how often it was tried again.
#[derive(Debug, Clone, Copy, PartialEq, Eq, Structural)]
pub struct DownloadState {
    pub progress: DownloadProgress,
    pub retries: u32,
}

/// What happens during a download.
#[derive(Debug)]
pub enum DownloadEvent {
    /// The download can go on.
    Ready,
    /// The download is to stop.
    Stopped,
    /// The registry answered a request.
    Responded { status: Status, content_range: Option<String> },
    /// Bytes arrived and were written.
    Received(u64),
    /// Progress was saved during the stream.
    Saved,
    /// The stream broke.
    StreamFailed(String),
    /// The stream ended.
    StreamEnded,
    /// Progress was saved at the end of the stream.
    Settled,
}

/// What happens during a download, as text.
pub enum DownloadEventView {
    Ready,
    Stopped,
    Responded { code: u16, status: Seq<char>, content_range: Option<Seq<char>> },
    Received(u64),
    Saved,
    StreamFailed(Seq<char>),
    StreamEnded,
    Settled,
}

impl View for DownloadEvent {
    type V = DownloadEventView;

    open spec fn view(&self) -> DownloadEventView {
        match self {
            DownloadEvent::Ready => DownloadEventView::Ready,
            DownloadEvent::Stopped => DownloadEventView::Stopped,
            DownloadEvent::Responded { status, content_range } => DownloadEventView::Responded {
                code: status.code,
                status: status.text@,
                content_range: opt_string(*content_range),
            },
            DownloadEvent::Received(bytes) => DownloadEventView::Received(*bytes),
            DownloadEvent::Saved => DownloadEventView::Saved,
            DownloadEvent::StreamFailed(message) => DownloadEventView::StreamFailed(message@),
            DownloadEvent::StreamEnded => DownloadEventView::StreamEnded,
            DownloadEvent::Settled => DownloadEventView::Settled,
        }
    }
}

/// What has to be done before a download is tried again.
#[derive(Debug, Clone, Copy, PartialEq, Eq, Structural)]
pub enum Preparation {
    /// Nothing.
    Nothing,
    /// What was written is made durable, and progress is saved.
    Save,
    /// What was written is discarded.
    Discard,
    /// What was written is discarded, and the download is prepared anew.
    DiscardAndPrepare,
}

/// What to do next.
#[derive(Debug)]
pub enum DownloadAction {
    /// Ask for the blob from an offset on.
    Request(u64),
    /// Open the partial file, behind its bytes or empty, and read the stream.
    Open { append: bool },
    /// Read on.
    Read,
    /// Make what was written durable, save progress, and read on.
    Save(u64),
    /// Make what was written durable and save progress at the end of the stream.
    Settle(u64),
    /// Prepare, wait, and go on.
    Retry {
        preparation: Preparation,
        budget: String,
        status: String,
        warning: Option<String>,
        delay: Delay,
    },
    /// Go on.
    Proceed,
    /// Check the blob and put it in its place.
    Verify,
    /// The download failed.
    Fail(DockerPullError),
}

/// What to do next, as text.
pub enum DownloadActionView {
    Request(u64),
    Open { append: bool },
    Read,
    Save(u64),
    Settle(u64),
    Retry {
        preparation: Preparation,
        budget: Seq<char>,
        status: Seq<char>,
        warning: Option<Seq<char>>,
        delay: Delay,
    },
    Proceed,
    Verify,
    Fail(ErrorView),
}

impl View for DownloadAction {
    type V = DownloadActionView;

    open spec fn view(&self) -> DownloadActionView {
        match self {
            DownloadAction::Request(offset) => DownloadActionView::Request(*offset),
            DownloadAction::Open { append } => DownloadActionView::Open { append: *append },
            DownloadAction::Read => DownloadActionView::Read,
            DownloadAction::Save(offset) => DownloadActionView::Save(*offset),
            DownloadAction::Settle(offset) => DownloadActionView::Settle(*offset),
            DownloadAction::Retry { preparation, budget, status, warning, delay } =>
                DownloadActionView::Retry {
                    preparation: *preparation,
                    budget: budget@,
                    status: status@,
                    warning: opt_string(*warning),
                    delay: *delay,
                },
            DownloadAction::Proceed => DownloadActionView::Proceed,
            DownloadAction::Verify => DownloadActionView::Verify,
            DownloadAction::Fail(e) => DownloadActionView::Fail(e@),
        }
    }
}

/// A step of a download: the state after it, and what to do.
pub type DownloadStep = (DownloadState, DownloadActionView);

/// A further try, or the failure where none is left.
pub open spec fn retry_download(
    digest: Seq<char>,
    limit: Option<u32>,
    state: DownloadState,
    detail: Seq<char>,
    preparation: Preparation,
    warning: Option<Seq<char>>,
    delay: Delay,
    progress: DownloadProgress,
) -> DownloadStep {
    if is_exhausted(state.retries, limit) {
        (
            state,
            DownloadActionView::Fail(
                ErrorView::RetryLimitExceeded {
                    operation: "blob download "@ + digest,
                    retries: state.retries,
                    detail,
                },
            ),
        )
    } else {
        let retries = (state.retries + 1) as u32;
        let budget = budget_view(retries, limit);
        (
            DownloadState { progress, retries },
            DownloadActionView::Retry {
                preparation,
                budget,
                status: "Retrying in "@ + retry_delay_view(delay) + " ("@ + budget + ")"@,
                warning,
                delay,
            },
        )
    }
}

/// A download that starts over.
pub open spec fn restarted(now: Delay) -> DownloadProgress {
    DownloadProgress { offset: 0, bytes_since_checkpoint: 0, last_checkpoint: now }
}

/// A step of a download. `delay` is how long to wait where it has to be tried again, and `now` a
/// reading of the clock.
pub open spec fn download_step(
    digest: Seq<char>,
    expected_size: u64,
    limit: Option<u32>,
    state: DownloadState,
    event: DownloadEventView,
    delay: Delay,
    now: Delay,
) -> DownloadStep {
    let progress = state.progress;
    match event {
        DownloadEventView::Stopped => (state, DownloadActionView::Fail(ErrorView::Interrupted)),
        DownloadEventView::Ready => if progress.offset >= expected_size {
            (state, DownloadActionView::Verify)
        } else {
            (state, DownloadActionView::Request(progress.offset))
        },
        DownloadEventView::Responded { code, status, content_range } => if code == 200
            && progress.offset > 0 {
            retry_download(
                digest,
                limit,
                state,
                "registry ignored ranged resume"@,
                Preparation::DiscardAndPrepare,
                Some("registry ignored range request for "@ + digest + ", restarting blob"@),
                delay,
                restarted(now),
            )
        } else if code == 416 {
            retry_download(
                digest,
                limit,
                state,
                "registry rejected the resumable range"@,
                Preparation::Discard,
                None,
                delay,
                restarted(now),
            )
        } else {
            match blob_response_error(code, status, content_range, progress.offset, digest) {
                Some(e) => (state, DownloadActionView::Fail(e)),
                None => (state, DownloadActionView::Open { append: progress.offset > 0 }),
            }
        },
        DownloadEventView::Received(bytes) => {
            let after = DownloadProgress {
                offset: (progress.offset + bytes) as u64,
                bytes_since_checkpoint: (progress.bytes_since_checkpoint + bytes) as u64,
                last_checkpoint: progress.last_checkpoint,
            };
            let next = DownloadState { progress: after, retries: state.retries };
            if after.is_due(now) {
                (next, DownloadActionView::Save(after.offset))
            } else {
                (next, DownloadActionView::Read)
            }
        },
        DownloadEventView::Saved => (
            DownloadState {
                progress: DownloadProgress {
                    offset: progress.offset,
                    bytes_since_checkpoint: 0,
                    last_checkpoint: now,
                },
                retries: state.retries,
            },
            DownloadActionView::Read,
        ),
        DownloadEventView::StreamFailed(message) => retry_download(
            digest,
            limit,
            state,
            "download interrupted: "@ + message,
            Preparation::Save,
            Some("stream error for "@ + digest + ": "@ + message),
            delay,
            progress,
        ),
        DownloadEventView::StreamEnded => (state, DownloadActionView::Settle(progress.offset)),
        DownloadEventView::Settled => {
            let after = DownloadProgress {
                offset: progress.offset,
                bytes_since_checkpoint: 0,
                last_checkpoint: now,
            };
            let next = DownloadState { progress: after, retries: state.retries };
            match short_view(progress.offset, expected_size) {
                None => (next, DownloadActionView::Proceed),
                Some(detail) => retry_download(
                    digest,
                    limit,
                    next,
                    detail,
                    Preparation::Nothing,
                    Some(
                        "stream ended early for "@ + digest + " at byte "@ + text::decimal_view(
                            progress.offset as nat,
                        ) + " of "@ + text::decimal_view(expected_size as nat),
                    ),
                    delay,
                    after,
                ),
            }
        },
    }
}

/// Tries again, or fails where no try is left.
fn try_again(
    policy: &DownloadPolicy,
    state: &mut DownloadState,
    detail: &str,
    preparation: Preparation,
    warning: Option<String>,
    delay: Delay,
    progress: DownloadProgress,
) -> (action: DownloadAction)
    requires
        policy.retry_limit is None ==> old(state).retries < u32::MAX,
        delay.wf(),
    ensures
        (*final(state), action@) == retry_download(
            policy.digest@,
            policy.retry_limit,
            *old(state),
            detail@,
            preparation,
            opt_string(warning),
            delay,
            progress,
        ),
{
    let operation = concat2("blob download ", policy.digest.as_str());
    let mut retries = state.retries;
    match record_retry_attempt(&mut retries, policy.retry_limit, operation.as_str(), detail) {
        Err(e) => DownloadAction::Fail(e),
        Ok(budget) => {
            state.retries = retries;
            state.progress = progress;
            let mut status = concat3("Retrying in ", format_retry_delay(delay).as_str(), " (");
            status.append(budget.as_str());
            status.append(")");
            DownloadAction::Retry { preparation, budget, status, warning, delay }
        },
    }
}

/// Decides what to do after something happened during a download.
pub fn next_download_action(
    policy: &DownloadPolicy,
    state: &mut DownloadState,
    event: DownloadEvent,
    delay: Delay,
    now: Delay,
) -> (action: DownloadAction)
    requires
        old(state).progress.wf(),
        policy.retry_limit is None ==> old(state).retries < u32::MAX,
        event matches DownloadEvent::Received(bytes) ==> old(state).progress.offset + bytes
            <= u64::MAX,
        delay.wf(),
        now.wf(),
    ensures
        final(state).progress.wf(),
        (*final(state), action@) == download_step(
            policy.digest@,
            policy.expected_size,
            policy.retry_limit,
            *old(state),
            event@,
            delay,
            now,
        ),
{
    match event {
        DownloadEvent::Stopped => DownloadAction::Fail(DockerPullError::Interrupted),
        DownloadEvent::Ready => {
            if state.progress.offset >= policy.expected_size {
                DownloadAction::Verify
            } else {
                DownloadAction::Request(state.progress.offset)
            }
        },
        DownloadEvent::Responded { status, content_range } => {
            if status.code == 200 && state.progress.offset > 0 {
                let mut progress = state.progress;
                progress.reset(now);
                let warning = concat3(
                    "registry ignored range request for ",
                    policy.digest.as_str(),
                    ", restarting blob",
                );
                return try_again(
                    policy,
                    state,
                    "registry ignored ranged resume",
                    Preparation::DiscardAndPrepare,
                    Some(warning),
                    delay,
                    progress,
                );
            }
            if status.code == 416 {
                let mut progress = state.progress;
                progress.reset(now);
                return try_again(
                    policy,
                    state,
                    "registry rejected the resumable range",
                    Preparation::Discard,
                    None,
                    delay,
                    progress,
                );
            }
            let range = match &content_range {
                Some(value) => Some(value.as_str()),
                None => None,
            };
            match validate_blob_response_status(
                &status,
                range,
                state.progress.offset,
                policy.digest.as_str(),
            ) {
                Err(e) => DownloadAction::Fail(e),
                Ok(()) => DownloadAction::Open { append: state.progress.offset > 0 },
            }
        },
        DownloadEvent::Received(bytes) => {
            let mut progress = state.progress;
            progress.advance(bytes);
            state.progress = progress;
            if progress.should_checkpoint(now) {
                DownloadAction::Save(progress.offset)
            } else {
                DownloadAction::Read
            }
        },
        DownloadEvent::Saved => {
            let mut progress = state.progress;
            progress.checkpointed(now);
            state.progress = progress;
            DownloadAction::Read
        },
        DownloadEvent::StreamFailed(message) => {
            let detail = concat2("download interrupted: ", message.as_str());
            let mut warning = concat3("stream error for ", policy.digest.as_str(), ": ");
            warning.append(message.as_str());
            let progress = state.progress;
            try_again(
                policy,
                state,
                detail.as_str(),
                Preparation::Save,
                Some(warning),
                delay,
                progress,
            )
        },
        DownloadEvent::StreamEnded => DownloadAction::Settle(state.progress.offset),
        DownloadEvent::Settled => {
            let mut progress = state.progress;
            progress.checkpointed(now);
            state.progress = progress;
            match premature_eof_detail(progress.offset, policy.expected_size) {
                None => DownloadAction::Proceed,
                Some(detail) => {
                    let mut warning = concat3(
                        "stream ended early for ",
                        policy.digest.as_str(),
                        " at byte ",
                    );
                    warning.append(text::decimal(progress.offset).as_str());
                    warning.append(" of ");
                    warning.append(text::decimal(policy.expected_size).as_str());
                    try_again(
                        policy,
                        state,
                        detail.as_str(),
                        Preparation::Nothing,
                        Some(warning),
                        delay,
                        progress,
                    )
                },
            }
        },
    }
}

/// A blob is checked and put in its place only when as many bytes as it should have were written.
pub proof fn law_only_a_whole_blob_is_verified(
    digest: Seq<char>,
    expected_size: u64,
    limit: Option<u32>,
    state: DownloadState,
    event: DownloadEventView,
    delay: Delay,
    now: Delay,
)
    ensures
        download_step(digest, expected_size, limit, state, event, delay, now).1
            == DownloadActionView::Verify ==> state.progress.offset >= expected_size,
{
}

/// A download that is tried again goes on behind the bytes that were written, unless they were
/// discarded; then it starts over.
pub proof fn law_a_retry_resumes(
    digest: Seq<char>,
    expected_size: u64,
    limit: Option<u32>,
    state: DownloadState,
    event: DownloadEventView,
    delay: Delay,
    now: Delay,
    later: Delay,
)
    requires
        download_step(digest, expected_size, limit, state, event, delay, now).1 is Retry,
    ensures
        ({
            let (next, action) = download_step(
                digest,
                expected_size,
                limit,
                state,
                event,
                delay,
                now,
            );
            let offset = match action->preparation {
                Preparation::Nothing => state.progress.offset,
                Preparation::Save => state.progress.offset,
                Preparation::Discard => 0,
                Preparation::DiscardAndPrepare => 0,
            };
            next.progress.offset == offset && (offset < expected_size ==> download_step(
                digest,
                expected_size,
                limit,
                next,
                DownloadEventView::Ready,
                delay,
                later,
            ).1 == DownloadActionView::Request(offset))
        }),
{
}

/// Every further try is counted, and with a limit there are no more than it allows.
pub proof fn law_retries_are_counted(
    digest: Seq<char>,
    expected_size: u64,
    limit: Option<u32>,
    state: DownloadState,
    event: DownloadEventView,
    delay: Delay,
    now: Delay,
)
    requires
        state.retries < u32::MAX,
        limit matches Some(n) ==> state.retries <= n,
    ensures
        ({
            let (next, action) = download_step(
                digest,
                expected_size,
                limit,
                state,
                event,
                delay,
                now,
            );
            &&& next.retries == state.retries + if action is Retry {
                1int
            } else {
                0
            }
            &&& limit matches Some(n) ==> next.retries <= n
        }),
{
}

/// A response is read only from the offset that was asked for.
pub proof fn law_bytes_are_written_where_they_belong(
    digest: Seq<char>,
    expected_size: u64,
    limit: Option<u32>,
    state: DownloadState,
    code: u16,
    status: Seq<char>,
    content_range: Option<Seq<char>>,
    delay: Delay,
    now: Delay,
)
    ensures
        ({
            let event = DownloadEventView::Responded { code, status, content_range };
            let (next, action) = download_step(
                digest,
                expected_size,
                limit,
                state,
                event,
                delay,
                now,
            );
            action matches DownloadActionView::Open { append } ==> next == state && append == (
            state.progress.offset > 0) && if append {
                code == 206 && content_range is Some && range_start(content_range->0) == Some(
                    state.progress.offset as nat,
                )
            } else {
                code == 200
            }
        }),
{
}

/// A download asks for the bytes behind those that it has, as long as some are missing, and is
/// checked once none is.
pub proof fn law_a_download_asks_for_what_is_missing(
    digest: Seq<char>,
    expected_size: u64,
    limit: Option<u32>,
    state: DownloadState,
    delay: Delay,
    now: Delay,
)
    ensures
        ({
            let (next, action) = download_step(
                digest,
                expected_size,
                limit,
                state,
                DownloadEventView::Ready,
                delay,
                now,
            );
            &&& next == state
            &&& state.progress.offset < expected_size ==> action == DownloadActionView::Request(
                state.progress.offset,
            )
            &&& state.progress.offset >= expected_size ==> action == DownloadActionView::Verify
        }),
{
}

/// The range of a partial response begins at its first byte.
pub proof fn law_a_content_range_begins_at_its_first_byte(first: u64, last: u64, size: Seq<char>)
    ensures
        range_start(
            "bytes "@ + text::decimal_view(first as nat) + "-"@ + text::decimal_view(last as nat)
                + "/"@ + size,
        ) == if first <= last {
            Some(first as nat)
        } else {
            None
        },
{
    let a = text::decimal_view(first as nat);
    let b = text::decimal_view(last as nat);
    let value = "bytes "@ + a + "-"@ + b + "/"@ + size;
    reveal_strlit("-");
    reveal_strlit("/");
    let range = a + seq!['-'] + b;
    assert(value.skip("bytes "@.len() as int) =~= range + seq!['/'] + size);
    assert(value.take("bytes "@.len() as int) =~= "bytes "@);
    text::lemma_decimal_lacks(first as nat, '-');
    text::lemma_decimal_lacks(first as nat, '/');
    text::lemma_decimal_lacks(last as nat, '/');
    assert(!range.contains('/')) by {
        if range.contains('/') {
            let k = choose|k: int| 0 <= k < range.len() && range[k] == '/';
            if k < a.len() {
                assert(a.contains(range[k]));
            } else if k > a.len() {
                assert(b[k - a.len() - 1] == '/');
                assert(b.contains(range[k]));
            }
        }
    }
    text::lemma_split_once_at(range, '/', size);
    text::lemma_split_once_at(a, '-', b);
    text::law_a_number_reads_back(first as nat, u64::MAX as nat);
    text::law_a_number_reads_back(last as nat, u64::MAX as nat);
}

/// A registry that sends what it was asked for is read: the whole blob from its start, or the rest
/// of it from the offset on, which is put behind the bytes that are there.
pub proof fn law_a_fitting_response_is_read(
    digest: Seq<char>,
    expected_size: u64,
    limit: Option<u32>,
    state: DownloadState,
    status: Seq<char>,
    content_range: Option<Seq<char>>,
    last: u64,
    size: Seq<char>,
    delay: Delay,
    now: Delay,
)
    ensures
        state.progress.offset == 0 ==> download_step(
            digest,
            expected_size,
            limit,
            state,
            DownloadEventView::Responded { code: 200, status, content_range },
            delay,
            now,
        ) == (state, DownloadActionView::Open { append: false }),
        0 < state.progress.offset <= last ==> download_step(
            digest,
            expected_size,
            limit,
            state,
            DownloadEventView::Responded {
                code: 206,
                status,
                content_range: Some(
                    "bytes "@ + text::decimal_view(state.progress.offset as nat) + "-"@
                        + text::decimal_view(last as nat) + "/"@ + size,
                ),
            },
            delay,
            now,
        ) == (state, DownloadActionView::Open { append: true }),
{
    law_a_content_range_begins_at_its_first_byte(state.progress.offset, last, size);
}

/// A registry that refuses the rest of a blob, or sends all of it instead, is asked for the whole
/// blob: what was written is discarded, and the download starts over while tries are left. One
/// that lacks the blob ends the download.
pub proof fn law_a_refused_rest_starts_over(
    digest: Seq<char>,
    expected_size: u64,
    limit: Option<u32>,
    state: DownloadState,
    code: u16,
    status: Seq<char>,
    content_range: Option<Seq<char>>,
    delay: Delay,
    now: Delay,
)
    ensures
        ({
            let (next, action) = download_step(
                digest,
                expected_size,
                limit,
                state,
                DownloadEventView::Responded { code, status, content_range },
                delay,
                now,
            );
            let left = limit is None || state.retries < limit->0;
            &&& code == 416 || (code == 200 && state.progress.offset > 0) ==> if left {
                &&& action is Retry
                &&& action->preparation == if code == 416 {
                    Preparation::Discard
                } else {
                    Preparation::DiscardAndPrepare
                }
                &&& action->delay == delay
                &&& next.progress.offset == 0
                &&& next.progress.bytes_since_checkpoint == 0
                &&& next.progress.last_checkpoint == now
            } else {
                action is Fail && action->Fail_0 is RetryLimitExceeded && next == state
            }
            &&& code == 404 ==> action == DownloadActionView::Fail(ErrorView::BlobNotFound(digest))
                && next == state
            &&& code != 200 && code != 206 && code != 404 && code != 416 ==> action is Fail && next
                == state
        }),
{
}

/// A stream that breaks or ends early is taken up again where it stopped, while tries are left: all
/// bytes that were written are kept, and are saved first where they were not yet. A stream that
/// brought all bytes ends the download.
pub proof fn law_a_broken_stream_is_taken_up_again(
    digest: Seq<char>,
    expected_size: u64,
    limit: Option<u32>,
    state: DownloadState,
    message: Seq<char>,
    delay: Delay,
    now: Delay,
)
    ensures
        ({
            let left = limit is None || state.retries < limit->0;
            let (broken, after_break) = download_step(
                digest,
                expected_size,
                limit,
                state,
                DownloadEventView::StreamFailed(message),
                delay,
                now,
            );
            let (ended, after_end) = download_step(
                digest,
                expected_size,
                limit,
                state,
                DownloadEventView::StreamEnded,
                delay,
                now,
            );
            let (settled, after_settling) = download_step(
                digest,
                expected_size,
                limit,
                state,
                DownloadEventView::Settled,
                delay,
                now,
            );
            &&& left ==> after_break is Retry && after_break->preparation == Preparation::Save
                && after_break->delay == delay && broken.progress == state.progress
            &&& !left ==> after_break is Fail && after_break->Fail_0 is RetryLimitExceeded
            &&& ended == state && after_end == DownloadActionView::Settle(state.progress.offset)
            &&& settled.progress.offset == state.progress.offset
            &&& settled.progress.bytes_since_checkpoint == 0
            &&& settled.progress.last_checkpoint == now
            &&& state.progress.offset >= expected_size ==> after_settling
                == DownloadActionView::Proceed
            &&& state.progress.offset < expected_size && left ==> after_settling is Retry
                && after_settling->preparation == Preparation::Nothing && after_settling->delay
                == delay
            &&& state.progress.offset < expected_size && !left ==> after_settling is Fail
                && after_settling->Fail_0 is RetryLimitExceeded
        }),
{
}

/// Bytes that arrive are counted, and progress is saved once 8 MiB arrived or two seconds passed
/// since it was saved last; saving it loses no byte.
pub proof fn law_progress_is_saved_in_time(
    digest: Seq<char>,
    expected_size: u64,
    limit: Option<u32>,
    state: DownloadState,
    bytes: u64,
    delay: Delay,
    now: Delay,
)
    requires
        state.progress.wf(),
        state.progress.offset + bytes <= u64::MAX,
    ensures
        ({
            let (next, action) = download_step(
                digest,
                expected_size,
                limit,
                state,
                DownloadEventView::Received(bytes),
                delay,
                now,
            );
            let (saved, after) = download_step(
                digest,
                expected_size,
                limit,
                next,
                DownloadEventView::Saved,
                delay,
                now,
            );
            let waited = now.total() - state.progress.last_checkpoint.total();
            &&& next.progress.offset == state.progress.offset + bytes
            &&& next.progress.bytes_since_checkpoint == state.progress.bytes_since_checkpoint
                + bytes
            &&& next.progress.last_checkpoint == state.progress.last_checkpoint
            &&& next.retries == state.retries
            &&& action == if state.progress.bytes_since_checkpoint + bytes >= 8 * 1024 * 1024
                || waited >= 2_000_000_000 {
                DownloadActionView::Save((state.progress.offset + bytes) as u64)
            } else {
                DownloadActionView::Read
            }
            &&& after == DownloadActionView::Read
            &&& saved.progress.offset == next.progress.offset
            &&& saved.progress.bytes_since_checkpoint == 0
            &&& saved.progress.last_checkpoint == now
        }),
{
}

/// A download that is to stop stops, and changes nothing.
pub proof fn law_a_stopped_download_changes_nothing(
    digest: Seq<char>,
    expected_size: u64,
    limit: Option<u32>,
    state: DownloadState,
    delay: Delay,
    now: Delay,
)
    ensures
        download_step(
            digest,
            expected_size,
            limit,
            state,
            DownloadEventView::Stopped,
            delay,
            now,
        ) == (state, DownloadActionView::Fail(ErrorView::Interrupted)),
{
}

} // verus!
