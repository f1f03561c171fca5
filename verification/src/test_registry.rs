//! A small registry with one image, for tests of programs that pull.
use vstd::prelude::*;
use vstd::utf8::{decode_utf8, valid_utf8};

use crate::bytes::{self, find_bytes, find_bytes_view};
use crate::digest::{self, DigestAlgorithm};
use crate::docker::api::bytes_of;
use crate::docker::chunked::head_end;
use crate::error::{concat2, concat3};
use crate::text;

verus! {

/// How long the head of a request may be.
pub const REQUEST_HEAD_LIMIT: usize = 8192;

/// The layer of an image of which nothing else is asked.
pub const DEFAULT_LAYER_PAYLOAD: &'static str = "fake layer payload";

/// An image with a single layer.
#[derive(Debug, Clone)]
pub struct TestImage {
    manifest_bytes: Vec<u8>,
    manifest_digest: String,
    config_bytes: Vec<u8>,
    config_digest: String,
    layer_bytes: Vec<u8>,
    layer_descriptor_digest: String,
    layer_digest: String,
}

/// An image with a single layer, as bytes and text.
pub struct TestImageView {
    pub manifest: Seq<u8>,
    pub manifest_digest: Seq<char>,
    pub config: Seq<u8>,
    pub config_digest: Seq<char>,
    pub layer: Seq<u8>,
    pub layer_descriptor_digest: Seq<char>,
    pub layer_digest: Seq<char>,
}

impl View for TestImage {
    type V = TestImageView;

    closed spec fn view(&self) -> TestImageView {
        TestImageView {
            manifest: self.manifest_bytes@,
            manifest_digest: self.manifest_digest@,
            config: self.config_bytes@,
            config_digest: self.config_digest@,
            layer: self.layer_bytes@,
            layer_descriptor_digest: self.layer_descriptor_digest@,
            layer_digest: self.layer_digest@,
        }
    }
}

/// The hexadecimal SHA-256 of bytes.
pub open spec fn sha256_text(bytes: Seq<u8>) -> Seq<char> {
    digest::hex_view(digest::sha256_of(bytes))
}

/// The configuration of an image with one layer.
pub open spec fn config_text(layer: Seq<u8>) -> Seq<char> {
    "{\"architecture\":\"amd64\",\"os\":\"linux\",\"rootfs\":{\"type\":\"layers\",\"diff_ids\":[\"sha256:"@
        + sha256_text(layer) + "\"]}}"@
}

/// The manifest of an image with one layer.
pub open spec fn manifest_text(layer: Seq<u8>, descriptor_digest: Seq<char>) -> Seq<char> {
    let config = bytes_of(config_text(layer));
    "{\"schemaVersion\":2,\"mediaType\":\"application/vnd.oci.image.manifest.v1+json\",\"config\":{\"mediaType\":\"application/vnd.oci.image.config.v1+json\",\"digest\":\"sha256:"@
        + sha256_text(config) + "\",\"size\":"@ + text::decimal_view(config.len())
        + "},\"layers\":[{\"mediaType\":\"application/vnd.oci.image.layer.v1.tar\",\"digest\":\""@
        + descriptor_digest + "\",\"size\":"@ + text::decimal_view(layer.len()) + "}]}"@
}

/// The image with a layer that its manifest names by a digest.
pub open spec fn image_of(layer: Seq<u8>, descriptor_digest: Seq<char>) -> TestImageView {
    let config = bytes_of(config_text(layer));
    let manifest = bytes_of(manifest_text(layer, descriptor_digest));
    TestImageView {
        manifest,
        manifest_digest: sha256_text(manifest),
        config,
        config_digest: sha256_text(config),
        layer,
        layer_descriptor_digest: descriptor_digest,
        layer_digest: match text::split_once_view(descriptor_digest, ':') {
            Some((_, value)) => value,
            None => descriptor_digest,
        },
    }
}

/// The bytes of a text.
fn text_bytes(s: &str) -> (bytes: Vec<u8>)
    ensures
        bytes@ == bytes_of(s@),
{
    vstd::slice::slice_to_vec(s.as_bytes())
}

impl TestImage {
    /// An image with a small layer.
    pub fn single_layer() -> (image: TestImage)
        ensures
            image@ == image_of(
                bytes_of(DEFAULT_LAYER_PAYLOAD@),
                "sha256:"@ + sha256_text(bytes_of(DEFAULT_LAYER_PAYLOAD@)),
            ),
    {
        TestImage::with_layer_payload(text_bytes(DEFAULT_LAYER_PAYLOAD))
    }

    /// An image with a small layer that is named by a digest of the given algorithm.
    pub fn with_layer_algorithm(algorithm: &str) -> (image: TestImage)
        requires
            digest::algorithm_of(algorithm@) is Some,
        ensures
            ({
                let layer = bytes_of(DEFAULT_LAYER_PAYLOAD@);
                let a = digest::algorithm_of(algorithm@)->0;
                image@ == image_of(layer, a.digest_view(digest::hex_view(a.hash_of(layer))))
            }),
    {
        let layer = text_bytes(DEFAULT_LAYER_PAYLOAD);
        let a = match DigestAlgorithm::parse(algorithm) {
            Ok(a) => a,
            Err(_) => DigestAlgorithm::Sha256,
        };
        let digest = a.digest_bytes(layer.as_slice());
        TestImage::build(layer, digest)
    }

    /// An image with the given layer.
    pub fn with_layer_payload(layer_bytes: Vec<u8>) -> (image: TestImage)
        ensures
            image@ == image_of(layer_bytes@, "sha256:"@ + sha256_text(layer_bytes@)),
    {
        let digest = concat2("sha256:", digest::sha256_hex(layer_bytes.as_slice()).as_str());
        TestImage::build(layer_bytes, digest)
    }

    /// An image whose manifest names its layer by the given text, which may be no digest.
    pub fn with_layer_descriptor_digest(layer_descriptor_digest: String) -> (image: TestImage)
        ensures
            image@ == image_of(bytes_of(DEFAULT_LAYER_PAYLOAD@), layer_descriptor_digest@),
    {
        TestImage::build(text_bytes(DEFAULT_LAYER_PAYLOAD), layer_descriptor_digest)
    }

    /// The image with a layer that its manifest names by a digest.
    fn build(layer_bytes: Vec<u8>, layer_descriptor_digest: String) -> (image: TestImage)
        ensures
            image@ == image_of(layer_bytes@, layer_descriptor_digest@),
    {
        let diff_id = digest::sha256_hex(layer_bytes.as_slice());
        let layer_digest = match text::split_once(layer_descriptor_digest.as_str(), ':') {
            Some((_, value)) => value.to_owned(),
            None => layer_descriptor_digest.clone(),
        };
        let config = concat3(
            "{\"architecture\":\"amd64\",\"os\":\"linux\",\"rootfs\":{\"type\":\"layers\",\"diff_ids\":[\"sha256:",
            diff_id.as_str(),
            "\"]}}",
        );
        let config_bytes = text_bytes(config.as_str());
        let config_digest = digest::sha256_hex(config_bytes.as_slice());
        let mut manifest = concat3(
            "{\"schemaVersion\":2,\"mediaType\":\"application/vnd.oci.image.manifest.v1+json\",\"config\":{\"mediaType\":\"application/vnd.oci.image.config.v1+json\",\"digest\":\"sha256:",
            config_digest.as_str(),
            "\",\"size\":",
        );
        manifest.append(text::decimal(config_bytes.len() as u64).as_str());
        manifest.append(
            "},\"layers\":[{\"mediaType\":\"application/vnd.oci.image.layer.v1.tar\",\"digest\":\"",
        );
        manifest.append(layer_descriptor_digest.as_str());
        manifest.append("\",\"size\":");
        manifest.append(text::decimal(layer_bytes.len() as u64).as_str());
        manifest.append("}]}");
        let manifest_bytes = text_bytes(manifest.as_str());
        let manifest_digest = digest::sha256_hex(manifest_bytes.as_slice());
        TestImage {
            manifest_bytes,
            manifest_digest,
            config_bytes,
            config_digest,
            layer_bytes,
            layer_descriptor_digest,
            layer_digest,
        }
    }

    /// The value of the digest of the manifest.
    pub fn manifest_digest(&self) -> (s: &str)
        ensures
            s@ == self@.manifest_digest,
    {
        self.manifest_digest.as_str()
    }

    /// The value of the digest of the configuration.
    pub fn config_digest(&self) -> (s: &str)
        ensures
            s@ == self@.config_digest,
    {
        self.config_digest.as_str()
    }

    /// The value of the digest of the layer.
    pub fn layer_digest(&self) -> (s: &str)
        ensures
            s@ == self@.layer_digest,
    {
        self.layer_digest.as_str()
    }
}

/// How the registry answers.
pub enum ResponseMode {
    /// It serves an image.
    Image(TestImage),
    /// It is not available.
    Unavailable,
}

/// Which requests are counted.
#[derive(Debug, Clone, Copy, PartialEq, Eq, Structural)]
pub enum Counted {
    Nothing,
    Manifest,
    Layer,
}

/// An answer: its head, its body, which count it adds to, whether its body waits until layers are
/// released, and the request where it was not expected.
#[derive(Debug)]
pub struct FixtureAnswer {
    pub head: String,
    pub body: Vec<u8>,
    pub counted: Counted,
    pub gated: bool,
    pub unexpected: Option<String>,
}

/// An answer, as text and bytes.
pub struct FixtureAnswerView {
    pub head: Seq<char>,
    pub body: Seq<u8>,
    pub counted: Counted,
    pub gated: bool,
    pub unexpected: Option<Seq<char>>,
}

impl View for FixtureAnswer {
    type V = FixtureAnswerView;

    open spec fn view(&self) -> FixtureAnswerView {
        FixtureAnswerView {
            head: self.head@,
            body: self.body@,
            counted: self.counted,
            gated: self.gated,
            unexpected: text::opt_string(self.unexpected),
        }
    }
}

/// The head of an answer.
pub open spec fn fixture_head(
    status: Seq<char>,
    content_type: Seq<char>,
    content_length: nat,
    digest: Option<Seq<char>>,
) -> Seq<char> {
    "HTTP/1.1 "@ + status + "\r\nContent-Type: "@ + content_type + "\r\nContent-Length: "@
        + text::decimal_view(content_length)
        + "\r\nDocker-Distribution-API-Version: registry/2.0\r\n"@ + (match digest {
        Some(d) => "Docker-Content-Digest: "@ + d + "\r\n"@,
        None => seq![],
    }) + "Connection: close\r\n\r\n"@
}

/// Writes the head of an answer.
fn write_head(status: &str, content_type: &str, content_length: usize, digest: Option<&str>) -> (s:
    String)
    ensures
        s@ == fixture_head(status@, content_type@, content_length as nat, text::opt_view(digest)),
{
    let mut s = concat3("HTTP/1.1 ", status, "\r\nContent-Type: ");
    s.append(content_type);
    s.append("\r\nContent-Length: ");
    s.append(text::decimal(content_length as u64).as_str());
    s.append("\r\nDocker-Distribution-API-Version: registry/2.0\r\n");
    if let Some(d) = digest {
        let line = concat3("Docker-Content-Digest: ", d, "\r\n");
        s.append(line.as_str());
    } else {
        assert(s@ + Seq::<char>::empty() =~= s@);
    }
    s.append("Connection: close\r\n\r\n");
    s
}

/// An answer that carries content.
pub open spec fn content_answer(
    content_type: Seq<char>,
    body: Seq<u8>,
    digest: Seq<char>,
    head_only: bool,
    counted: Counted,
    gated: bool,
) -> FixtureAnswerView {
    FixtureAnswerView {
        head: fixture_head("200 OK"@, content_type, body.len(), Some(digest)),
        body: if head_only {
            seq![]
        } else {
            body
        },
        counted: if head_only {
            Counted::Nothing
        } else {
            counted
        },
        gated: gated && !head_only,
        unexpected: None,
    }
}

/// An answer without content.
pub open spec fn bare_answer(head: Seq<char>, unexpected: Option<Seq<char>>) -> FixtureAnswerView {
    FixtureAnswerView {
        head,
        body: seq![],
        counted: Counted::Nothing,
        gated: false,
        unexpected,
    }
}

/// How a request is answered. Every manifest request gets the manifest, and a request for a blob
/// is told by the end of its path.
pub open spec fn fixture_answer(
    mode: ResponseMode,
    method: Seq<char>,
    path: Seq<char>,
) -> FixtureAnswerView {
    let head_only = method == "HEAD"@;
    match mode {
        ResponseMode::Unavailable => bare_answer(
            "HTTP/1.1 503 Service Unavailable\r\nRetry-After: 0\r\nContent-Length: 0\r\nConnection: close\r\n\r\n"@,
            None,
        ),
        ResponseMode::Image(image) => if path == "/v2/"@ {
            bare_answer(fixture_head("200 OK"@, "text/plain"@, 0, None), None)
        } else if text::contains_text(path, "/manifests/"@) {
            content_answer(
                "application/vnd.oci.image.manifest.v1+json"@,
                image@.manifest,
                "sha256:"@ + image@.manifest_digest,
                head_only,
                Counted::Manifest,
                false,
            )
        } else if text::ends_with_view(path, "sha256:"@ + image@.config_digest) {
            content_answer(
                "application/vnd.oci.image.config.v1+json"@,
                image@.config,
                "sha256:"@ + image@.config_digest,
                head_only,
                Counted::Nothing,
                false,
            )
        } else if text::ends_with_view(path, image@.layer_descriptor_digest) {
            content_answer(
                "application/vnd.oci.image.layer.v1.tar"@,
                image@.layer,
                image@.layer_descriptor_digest,
                head_only,
                Counted::Layer,
                true,
            )
        } else {
            bare_answer(
                fixture_head("404 Not Found"@, "text/plain"@, 0, None),
                Some(method + " "@ + path),
            )
        },
    }
}

/// An answer that carries content.
fn answer_content(
    content_type: &str,
    body: &Vec<u8>,
    digest: &str,
    head_only: bool,
    counted: Counted,
    gated: bool,
) -> (r: FixtureAnswer)
    ensures
        r@ == content_answer(content_type@, body@, digest@, head_only, counted, gated),
{
    let head = write_head("200 OK", content_type, body.len(), Some(digest));
    if head_only {
        let none: Vec<u8> = Vec::new();
        assert(none@ =~= seq![]);
        FixtureAnswer {
            head,
            body: none,
            counted: Counted::Nothing,
            gated: false,
            unexpected: None,
        }
    } else {
        FixtureAnswer {
            head,
            body: vstd::slice::slice_to_vec(body.as_slice()),
            counted,
            gated,
            unexpected: None,
        }
    }
}

/// An answer without content.
fn answer_bare(head: String, unexpected: Option<String>) -> (r: FixtureAnswer)
    ensures
        r@ == bare_answer(head@, text::opt_string(unexpected)),
{
    let none: Vec<u8> = Vec::new();
    assert(none@ =~= seq![]);
    FixtureAnswer { head, body: none, counted: Counted::Nothing, gated: false, unexpected }
}

/// Decides how a request is answered.
pub fn handle_request(mode: &ResponseMode, method: &str, path: &str) -> (r: FixtureAnswer)
    ensures
        r@ == fixture_answer(*mode, method@, path@),
{
    let head_only = text::same(method, "HEAD");
    let image = match mode {
        ResponseMode::Unavailable => {
            return answer_bare(
                "HTTP/1.1 503 Service Unavailable\r\nRetry-After: 0\r\nContent-Length: 0\r\nConnection: close\r\n\r\n".to_owned(),
                None,
            );
        },
        ResponseMode::Image(image) => image,
    };
    if text::same(path, "/v2/") {
        return answer_bare(write_head("200 OK", "text/plain", 0, None), None);
    }
    if text::contains_str(path, "/manifests/") {
        let digest = concat2("sha256:", image.manifest_digest.as_str());
        return answer_content(
            "application/vnd.oci.image.manifest.v1+json",
            &image.manifest_bytes,
            digest.as_str(),
            head_only,
            Counted::Manifest,
            false,
        );
    }
    let config = concat2("sha256:", image.config_digest.as_str());
    if text::ends_with(path, config.as_str()) {
        return answer_content(
            "application/vnd.oci.image.config.v1+json",
            &image.config_bytes,
            config.as_str(),
            head_only,
            Counted::Nothing,
            false,
        );
    }
    if text::ends_with(path, image.layer_descriptor_digest.as_str()) {
        return answer_content(
            "application/vnd.oci.image.layer.v1.tar",
            &image.layer_bytes,
            image.layer_descriptor_digest.as_str(),
            head_only,
            Counted::Layer,
            true,
        );
    }
    answer_bare(
        write_head("404 Not Found", "text/plain", 0, None),
        Some(concat3(method, " ", path)),
    )
}

/// What follows from the bytes of a request that were read so far.
#[derive(Debug)]
pub enum FixtureRead {
    /// The method and the path.
    Done(String, String),
    /// More has to be read.
    More,
    /// The request cannot be read.
    Fail(String),
}

/// What follows from the bytes of a request, as text.
pub enum FixtureReadView {
    Done(Seq<char>, Seq<char>),
    More,
    Fail(Seq<char>),
}

impl View for FixtureRead {
    type V = FixtureReadView;

    open spec fn view(&self) -> FixtureReadView {
        match self {
            FixtureRead::Done(method, path) => FixtureReadView::Done(method@, path@),
            FixtureRead::More => FixtureReadView::More,
            FixtureRead::Fail(message) => FixtureReadView::Fail(message@),
        }
    }
}

/// The first line of a head.
pub open spec fn first_line(head: Seq<char>) -> Seq<char> {
    match text::split_once_text(head, "\r\n"@) {
        Some((line, _)) => line,
        None => head,
    }
}

/// A word of a line, where there is one.
pub open spec fn word_at(words: Seq<Seq<char>>, i: int) -> Seq<char> {
    if i < words.len() {
        words[i]
    } else {
        seq![]
    }
}

/// What follows from the bytes of a request that were read so far.
pub open spec fn fixture_read(buffer: Seq<u8>, ended: bool) -> FixtureReadView {
    if ended {
        FixtureReadView::Fail("request ended before its headers"@)
    } else if find_bytes_view(buffer, head_end()) is None {
        if buffer.len() > REQUEST_HEAD_LIMIT {
            FixtureReadView::Fail("request headers exceeded fixture limit"@)
        } else {
            FixtureReadView::More
        }
    } else if !valid_utf8(buffer) {
        FixtureReadView::Fail(bytes::utf8_error(buffer))
    } else {
        let words = text::words_view(first_line(decode_utf8(buffer)));
        FixtureReadView::Done(word_at(words, 0), word_at(words, 1))
    }
}

/// A word of a line, where there is one.
fn pick_word(words: &Vec<&str>, i: usize) -> (s: String)
    ensures
        s@ == word_at(text::str_texts(words@), i as int),
{
    if i < words.len() {
        assert(text::str_texts(words@)[i as int] == words@[i as int]@);
        words[i].to_owned()
    } else {
        proof {
            reveal_strlit("");
        }
        let s = "".to_owned();
        assert(s@ =~= Seq::<char>::empty());
        s
    }
}

/// Decides what follows from the bytes of a request that were read so far; `ended` tells that the
/// last read gave nothing.
pub fn read_request(buffer: &[u8], ended: bool) -> (r: FixtureRead)
    ensures
        r@ == fixture_read(buffer@, ended),
{
    if ended {
        return FixtureRead::Fail("request ended before its headers".to_owned());
    }
    let end: [u8; 4] = [0x0d, 0x0a, 0x0d, 0x0a];
    assert(end@ =~= head_end());
    if find_bytes(buffer, end.as_slice()).is_none() {
        if buffer.len() > REQUEST_HEAD_LIMIT {
            return FixtureRead::Fail("request headers exceeded fixture limit".to_owned());
        }
        return FixtureRead::More;
    }
    match bytes::read_utf8(buffer) {
        Err(message) => FixtureRead::Fail(message),
        Ok(head) => {
            let line = match text::split_once_str(head.as_str(), "\r\n") {
                Some((line, _)) => line,
                None => head.as_str(),
            };
            let words = text::split_whitespace(line);
            FixtureRead::Done(pick_word(&words, 0), pick_word(&words, 1))
        },
    }
}

/// The name of an image at an address.
pub fn reference(address: &str, repository: &str, tag: &str) -> (s: String)
    ensures
        s@ == address@ + "/"@ + repository@ + ":"@ + tag@,
{
    let mut s = concat3(address, "/", repository);
    s.append(":");
    s.append(tag);
    s
}

/// A request for the headers of content gets none of the content, is not counted, and does not
/// wait.
pub proof fn law_head_requests_get_no_content(mode: ResponseMode, path: Seq<char>)
    ensures
        ({
            let r = fixture_answer(mode, "HEAD"@, path);
            r.body.len() == 0 && r.counted == Counted::Nothing && !r.gated
        }),
{
}

} // verus!
