//! The errors of the library and the messages that describe them.
use vstd::prelude::*;

verus! {

/// What can go wrong while pulling, storing, serving or exporting an image.
///
/// The variants from `Io` on carry the message of a failure that was met outside the library.
#[derive(Debug)]
pub enum DockerPullError {
    InvalidInput(String),
    UnsupportedMediaType(String),
    UnsupportedDigestAlgorithm(String),
    ManifestNotFound,
    BlobNotFound(String),
    PlatformNotFound(String),
    Unauthorized(String),
    BadResponse(String),
    DigestMismatch { expected: String, actual: String },
    Interrupted,
    CacheLocked { operation: String, path: String },
    MissingBlobFile(String, String),
    CommandFailed(String),
    RetryLimitExceeded { operation: String, retries: u32, detail: String },
    ImageResolutionFailed { reference: String, source: Box<DockerPullError> },
    Io(String),
    Http(String),
    Json(String),
    Compose(String),
    Url(String),
    Header(String),
    Base64(String),
}

/// The result of an operation of the library.
pub type Result<T> = std::result::Result<T, DockerPullError>;

/// The contents of an error: its kind and the text that it carries.
pub enum ErrorView {
    InvalidInput(Seq<char>),
    UnsupportedMediaType(Seq<char>),
    UnsupportedDigestAlgorithm(Seq<char>),
    ManifestNotFound,
    BlobNotFound(Seq<char>),
    PlatformNotFound(Seq<char>),
    Unauthorized(Seq<char>),
    BadResponse(Seq<char>),
    DigestMismatch { expected: Seq<char>, actual: Seq<char> },
    Interrupted,
    CacheLocked { operation: Seq<char>, path: Seq<char> },
    MissingBlobFile(Seq<char>, Seq<char>),
    CommandFailed(Seq<char>),
    RetryLimitExceeded { operation: Seq<char>, retries: u32, detail: Seq<char> },
    ImageResolutionFailed { reference: Seq<char>, source: Box<ErrorView> },
    Io(Seq<char>),
    Http(Seq<char>),
    Json(Seq<char>),
    Compose(Seq<char>),
    Url(Seq<char>),
    Header(Seq<char>),
    Base64(Seq<char>),
}

impl DockerPullError {
    /// The contents of the error.
    pub open spec fn contents(self) -> ErrorView
        decreases self,
    {
        match self {
            DockerPullError::InvalidInput(a) => ErrorView::InvalidInput(a@),
            DockerPullError::UnsupportedMediaType(a) => ErrorView::UnsupportedMediaType(a@),
            DockerPullError::UnsupportedDigestAlgorithm(a) => ErrorView::UnsupportedDigestAlgorithm(a@),
            DockerPullError::ManifestNotFound => ErrorView::ManifestNotFound,
            DockerPullError::BlobNotFound(a) => ErrorView::BlobNotFound(a@),
            DockerPullError::PlatformNotFound(a) => ErrorView::PlatformNotFound(a@),
            DockerPullError::Unauthorized(a) => ErrorView::Unauthorized(a@),
            DockerPullError::BadResponse(a) => ErrorView::BadResponse(a@),
            DockerPullError::DigestMismatch { expected, actual } => ErrorView::DigestMismatch {
                expected: expected@,
                actual: actual@,
            },
            DockerPullError::Interrupted => ErrorView::Interrupted,
            DockerPullError::CacheLocked { operation, path } => ErrorView::CacheLocked {
                operation: operation@,
                path: path@,
            },
            DockerPullError::MissingBlobFile(a, b) => ErrorView::MissingBlobFile(a@, b@),
            DockerPullError::CommandFailed(a) => ErrorView::CommandFailed(a@),
            DockerPullError::RetryLimitExceeded { operation, retries, detail } =>
                ErrorView::RetryLimitExceeded {
                    operation: operation@,
                    retries,
                    detail: detail@,
                },
            DockerPullError::ImageResolutionFailed { reference, source } =>
                ErrorView::ImageResolutionFailed {
                    reference: reference@,
                    source: Box::new((*source).contents()),
                },
            DockerPullError::Io(a) => ErrorView::Io(a@),
            DockerPullError::Http(a) => ErrorView::Http(a@),
            DockerPullError::Json(a) => ErrorView::Json(a@),
            DockerPullError::Compose(a) => ErrorView::Compose(a@),
            DockerPullError::Url(a) => ErrorView::Url(a@),
            DockerPullError::Header(a) => ErrorView::Header(a@),
            DockerPullError::Base64(a) => ErrorView::Base64(a@),
        }
    }
}

impl View for DockerPullError {
    type V = ErrorView;

    open spec fn view(&self) -> ErrorView {
        self.contents()
    }
}

impl ErrorView {
    /// The message that describes the error.
    pub open spec fn message(self) -> Seq<char>
        decreases self,
    {
        match self {
            ErrorView::InvalidInput(text) => text,
            ErrorView::UnsupportedMediaType(media_type) => "unsupported media type `"@
                + media_type + "`"@,
            ErrorView::UnsupportedDigestAlgorithm(algorithm) =>
                "unsupported digest algorithm `"@ + algorithm
                + "`; pocker currently supports sha256 digests only"@,
            ErrorView::ManifestNotFound => "manifest not found"@,
            ErrorView::BlobNotFound(digest) => "blob not found: "@ + digest,
            ErrorView::PlatformNotFound(platform) => "requested platform `"@ + platform
                + "` not found in image index"@,
            ErrorView::Unauthorized(text) => "unauthorized: "@ + text,
            ErrorView::BadResponse(text) => "bad registry response: "@ + text,
            ErrorView::DigestMismatch { expected, actual } => "digest mismatch: expected "@
                + expected + ", got "@ + actual,
            ErrorView::Interrupted => "download interrupted"@,
            ErrorView::CacheLocked { operation, path } => operation
                + " cannot continue because the cache is in use by another pocker process: "@
                + path
                + "\nThe .lock file may remain after exit; only a live OS lock blocks this operation."@,
            ErrorView::MissingBlobFile(digest, path) => "missing blob file `"@ + digest
                + "` at `"@ + path + "`"@,
            ErrorView::CommandFailed(text) => "command failed: "@ + text,
            ErrorView::RetryLimitExceeded { operation, retries, detail } =>
                "retry limit exceeded for "@ + operation + " after "@
                + crate::text::decimal_view(retries as nat) + " retries: "@ + detail,
            ErrorView::ImageResolutionFailed { reference, source } =>
                "failed to resolve image `"@ + reference + "`: "@ + source.message(),
            ErrorView::Io(text) => text,
            ErrorView::Http(text) => text,
            ErrorView::Json(text) => text,
            ErrorView::Compose(text) => text,
            ErrorView::Url(text) => text,
            ErrorView::Header(text) => text,
            ErrorView::Base64(text) => text,
        }
    }

}

impl DockerPullError {
    /// Describes the error.
    pub fn message(&self) -> (m: String)
        ensures
            m@ == self@.message(),
        decreases self,
    {
        match self {
            DockerPullError::InvalidInput(text) => text.clone(),
            DockerPullError::UnsupportedMediaType(media_type) => concat3(
                "unsupported media type `",
                media_type,
                "`",
            ),
            DockerPullError::UnsupportedDigestAlgorithm(algorithm) => concat3(
                "unsupported digest algorithm `",
                algorithm,
                "`; pocker currently supports sha256 digests only",
            ),
            DockerPullError::ManifestNotFound => "manifest not found".to_owned(),
            DockerPullError::BlobNotFound(digest) => concat2("blob not found: ", digest),
            DockerPullError::PlatformNotFound(platform) => concat3(
                "requested platform `",
                platform,
                "` not found in image index",
            ),
            DockerPullError::Unauthorized(text) => concat2("unauthorized: ", text),
            DockerPullError::BadResponse(text) => concat2("bad registry response: ", text),
            DockerPullError::DigestMismatch { expected, actual } => {
                let mut m = concat3("digest mismatch: expected ", expected, ", got ");
                m.append(actual);
                m
            },
            DockerPullError::Interrupted => "download interrupted".to_owned(),
            DockerPullError::CacheLocked { operation, path } => {
                let mut m = concat3(
                    operation,
                    " cannot continue because the cache is in use by another pocker process: ",
                    path,
                );
                m.append(
                    "\nThe .lock file may remain after exit; only a live OS lock blocks this operation.",
                );
                m
            },
            DockerPullError::MissingBlobFile(digest, path) => {
                let mut m = concat3("missing blob file `", digest, "` at `");
                m.append(path);
                m.append("`");
                m
            },
            DockerPullError::CommandFailed(text) => concat2("command failed: ", text),
            DockerPullError::RetryLimitExceeded { operation, retries, detail } => {
                let mut m = concat3("retry limit exceeded for ", operation, " after ");
                m.append(crate::text::decimal(*retries as u64).as_str());
                m.append(" retries: ");
                m.append(detail);
                m
            },
            DockerPullError::ImageResolutionFailed { reference, source } => {
                let mut m = concat3("failed to resolve image `", reference, "`: ");
                let inner = source.message();
                m.append(inner.as_str());
                m
            },
            DockerPullError::Io(text) => text.clone(),
            DockerPullError::Http(text) => text.clone(),
            DockerPullError::Json(text) => text.clone(),
            DockerPullError::Compose(text) => text.clone(),
            DockerPullError::Url(text) => text.clone(),
            DockerPullError::Header(text) => text.clone(),
            DockerPullError::Base64(text) => text.clone(),
        }
    }
}

/// Concatenates two pieces of text.
pub fn concat2(a: &str, b: &str) -> (s: String)
    ensures
        s@ == a@ + b@,
{
    let mut s = a.to_owned();
    s.append(b);
    s
}

/// Concatenates three pieces of text.
pub fn concat3(a: &str, b: &str, c: &str) -> (s: String)
    ensures
        s@ == a@ + b@ + c@,
{
    let mut s = a.to_owned();
    s.append(b);
    s.append(c);
    s
}

/// The error for malformed input, with a message in three parts.
pub fn invalid_input(a: &str, b: &str, c: &str) -> (e: DockerPullError)
    ensures
        e@ == ErrorView::InvalidInput(a@ + b@ + c@),
{
    DockerPullError::InvalidInput(concat3(a, b, c))
}

} // verus!
