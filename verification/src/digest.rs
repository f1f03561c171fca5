//! Content digests: their text form, and computing them.
use vstd::prelude::*;

use crate::error::{concat3, invalid_input, DockerPullError, ErrorView, Result};
use crate::text;

verus! {

/// The hash functions that a digest can be made with.
#[derive(Debug, Clone, Copy, PartialEq, Eq, Structural)]
pub enum DigestAlgorithm {
    Sha256,
    Sha384,
    Sha512,
}

/// The parts of a digest.
#[derive(Debug, Clone, Copy)]
pub struct ParsedDigest<'a> {
    pub algorithm: DigestAlgorithm,
    pub value: &'a str,
}

/// The SHA-256 hash of the bytes.
pub uninterp spec fn sha256_of(bytes: Seq<u8>) -> Seq<u8>;

/// The SHA-384 hash of the bytes.
pub uninterp spec fn sha384_of(bytes: Seq<u8>) -> Seq<u8>;

/// The SHA-512 hash of the bytes.
pub uninterp spec fn sha512_of(bytes: Seq<u8>) -> Seq<u8>;

/// A `sha2::Sha256` that is being fed.
#[verifier::external_body]
pub struct Sha256Run {
    state: sha2::Sha256,
}

/// What a SHA-256 run was fed.
pub uninterp spec fn sha256_fed(run: Sha256Run) -> Seq<u8>;

/// Calls `sha2::Sha256::new`: nothing was fed yet.
#[verifier::external_body]
fn sha256_start() -> (run: Sha256Run)
    ensures
        sha256_fed(run) == Seq::<u8>::empty(),
{
    Sha256Run { state: <sha2::Sha256 as sha2::Digest>::new() }
}

/// Calls `update` of `sha2::Sha256`: the bytes follow what was fed before.
#[verifier::external_body]
fn sha256_feed(run: &mut Sha256Run, bytes: &[u8])
    ensures
        sha256_fed(*final(run)) == sha256_fed(*old(run)) + bytes@,
{
    sha2::Digest::update(&mut run.state, bytes);
}

/// Calls `finalize` of `sha2::Sha256`: the hash depends on what was fed alone, however it was cut
/// into pieces, and has 32 bytes.
#[verifier::external_body]
fn sha256_finish(run: Sha256Run) -> (hash: Vec<u8>)
    ensures
        hash@ == sha256_of(sha256_fed(run)),
        hash@.len() == 32,
{
    sha2::Digest::finalize(run.state).to_vec()
}

/// A `sha2::Sha384` that is being fed.
#[verifier::external_body]
pub struct Sha384Run {
    state: sha2::Sha384,
}

/// What a SHA-384 run was fed.
pub uninterp spec fn sha384_fed(run: Sha384Run) -> Seq<u8>;

/// Calls `sha2::Sha384::new`: nothing was fed yet.
#[verifier::external_body]
fn sha384_start() -> (run: Sha384Run)
    ensures
        sha384_fed(run) == Seq::<u8>::empty(),
{
    Sha384Run { state: <sha2::Sha384 as sha2::Digest>::new() }
}

/// Calls `update` of `sha2::Sha384`: the bytes follow what was fed before.
#[verifier::external_body]
fn sha384_feed(run: &mut Sha384Run, bytes: &[u8])
    ensures
        sha384_fed(*final(run)) == sha384_fed(*old(run)) + bytes@,
{
    sha2::Digest::update(&mut run.state, bytes);
}

/// Calls `finalize` of `sha2::Sha384`: the hash depends on what was fed alone, however it was cut
/// into pieces, and has 48 bytes.
#[verifier::external_body]
fn sha384_finish(run: Sha384Run) -> (hash: Vec<u8>)
    ensures
        hash@ == sha384_of(sha384_fed(run)),
        hash@.len() == 48,
{
    sha2::Digest::finalize(run.state).to_vec()
}

/// A `sha2::Sha512` that is being fed.
#[verifier::external_body]
pub struct Sha512Run {
    state: sha2::Sha512,
}

/// What a SHA-512 run was fed.
pub uninterp spec fn sha512_fed(run: Sha512Run) -> Seq<u8>;

/// Calls `sha2::Sha512::new`: nothing was fed yet.
#[verifier::external_body]
fn sha512_start() -> (run: Sha512Run)
    ensures
        sha512_fed(run) == Seq::<u8>::empty(),
{
    Sha512Run { state: <sha2::Sha512 as sha2::Digest>::new() }
}

/// Calls `update` of `sha2::Sha512`: the bytes follow what was fed before.
#[verifier::external_body]
fn sha512_feed(run: &mut Sha512Run, bytes: &[u8])
    ensures
        sha512_fed(*final(run)) == sha512_fed(*old(run)) + bytes@,
{
    sha2::Digest::update(&mut run.state, bytes);
}

/// Calls `finalize` of `sha2::Sha512`: the hash depends on what was fed alone, however it was cut
/// into pieces, and has 64 bytes.
#[verifier::external_body]
fn sha512_finish(run: Sha512Run) -> (hash: Vec<u8>)
    ensures
        hash@ == sha512_of(sha512_fed(run)),
        hash@.len() == 64,
{
    sha2::Digest::finalize(run.state).to_vec()
}

/// The lower-case hexadecimal digit for a number below sixteen.
pub open spec fn hex_digit(n: int) -> char {
    if n < 10 {
        ('0' as int + n) as char
    } else {
        ('a' as int + (n - 10)) as char
    }
}

/// The bytes in lower-case hexadecimal, two digits each, the high one first.
pub open spec fn hex_view(bytes: Seq<u8>) -> Seq<char> {
    Seq::new(
        2 * bytes.len(),
        |i: int|
            if i % 2 == 0 {
                hex_digit(bytes[i / 2] as int / 16)
            } else {
                hex_digit(bytes[i / 2] as int % 16)
            },
    )
}

/// Calls `hex::encode`: each byte becomes two lower-case hexadecimal digits, in order.
#[verifier::external_body]
fn hex_encode(bytes: &[u8]) -> (text: String)
    ensures
        text@ == hex_view(bytes@),
{
    hex::encode(bytes)
}

/// Whether `c` is a lower-case hexadecimal digit.
pub open spec fn is_lower_hex(c: char) -> bool {
    '0' <= c <= '9' || 'a' <= c <= 'f'
}

/// Whether every character is a lower-case hexadecimal digit.
pub open spec fn all_lower_hex(s: Seq<char>) -> bool {
    forall|i: int| 0 <= i < s.len() ==> is_lower_hex(#[trigger] s[i])
}

/// The algorithm with the name.
pub open spec fn algorithm_of(name: Seq<char>) -> Option<DigestAlgorithm> {
    if name == "sha256"@ {
        Some(DigestAlgorithm::Sha256)
    } else if name == "sha384"@ {
        Some(DigestAlgorithm::Sha384)
    } else if name == "sha512"@ {
        Some(DigestAlgorithm::Sha512)
    } else {
        None
    }
}

impl DigestAlgorithm {
    /// The name of the algorithm.
    pub open spec fn name_view(self) -> Seq<char> {
        match self {
            DigestAlgorithm::Sha256 => "sha256"@,
            DigestAlgorithm::Sha384 => "sha384"@,
            DigestAlgorithm::Sha512 => "sha512"@,
        }
    }

    /// How many hexadecimal digits a digest of the algorithm has.
    pub open spec fn hex_len_view(self) -> nat {
        match self {
            DigestAlgorithm::Sha256 => 64,
            DigestAlgorithm::Sha384 => 96,
            DigestAlgorithm::Sha512 => 128,
        }
    }

    /// The hash of the bytes.
    pub open spec fn hash_of(self, bytes: Seq<u8>) -> Seq<u8> {
        match self {
            DigestAlgorithm::Sha256 => sha256_of(bytes),
            DigestAlgorithm::Sha384 => sha384_of(bytes),
            DigestAlgorithm::Sha512 => sha512_of(bytes),
        }
    }

    /// The digest with the hexadecimal value.
    pub open spec fn digest_view(self, value: Seq<char>) -> Seq<char> {
        self.name_view() + ":"@ + value
    }

    /// Finds the algorithm with the name.
    pub fn parse(value: &str) -> (r: Result<DigestAlgorithm>)
        ensures
            match r {
                Ok(algorithm) => algorithm_of(value@) == Some(algorithm),
                Err(e) => algorithm_of(value@) is None && e@
                    == ErrorView::UnsupportedDigestAlgorithm(value@),
            },
    {
        if text::same(value, "sha256") {
            Ok(DigestAlgorithm::Sha256)
        } else if text::same(value, "sha384") {
            Ok(DigestAlgorithm::Sha384)
        } else if text::same(value, "sha512") {
            Ok(DigestAlgorithm::Sha512)
        } else {
            Err(DockerPullError::UnsupportedDigestAlgorithm(value.to_owned()))
        }
    }

    /// The name of the algorithm.
    pub fn name(self) -> (name: &'static str)
        ensures
            name@ == self.name_view(),
    {
        match self {
            DigestAlgorithm::Sha256 => "sha256",
            DigestAlgorithm::Sha384 => "sha384",
            DigestAlgorithm::Sha512 => "sha512",
        }
    }

    /// How many hexadecimal digits a digest of the algorithm has.
    pub fn hex_len(self) -> (len: usize)
        ensures
            len == self.hex_len_view(),
    {
        match self {
            DigestAlgorithm::Sha256 => 64,
            DigestAlgorithm::Sha384 => 96,
            DigestAlgorithm::Sha512 => 128,
        }
    }

    /// The digest with the hexadecimal value.
    pub fn with_hex(self, value: &str) -> (digest: String)
        ensures
            digest@ == self.digest_view(value@),
    {
        concat3(self.name(), ":", value)
    }

    /// Computes the digest of the bytes. A digest that was computed is a valid one: it parses back
    /// to the algorithm and the hash.
    pub fn digest_bytes(self, bytes: &[u8]) -> (digest: String)
        ensures
            digest@ == self.digest_view(hex_view(self.hash_of(bytes@))),
            parsed(digest@) == DigestResult::Ok((self, hex_view(self.hash_of(bytes@)))),
    {
        let mut run = DigestRun::start(self);
        run.feed(bytes);
        proof {
            assert(Seq::<u8>::empty() + bytes@ =~= bytes@);
        }
        run.finish()
    }
}

/// The state of a digest that is being computed, one for each algorithm.
enum HashRun {
    Sha256(Sha256Run),
    Sha384(Sha384Run),
    Sha512(Sha512Run),
}

/// A digest that is being computed piece by piece.
pub struct DigestRun {
    run: HashRun,
}

impl DigestRun {
    /// The algorithm of the digest.
    pub closed spec fn algorithm(self) -> DigestAlgorithm {
        match self.run {
            HashRun::Sha256(_) => DigestAlgorithm::Sha256,
            HashRun::Sha384(_) => DigestAlgorithm::Sha384,
            HashRun::Sha512(_) => DigestAlgorithm::Sha512,
        }
    }

    /// The bytes that were fed so far.
    pub closed spec fn fed(self) -> Seq<u8> {
        match self.run {
            HashRun::Sha256(run) => sha256_fed(run),
            HashRun::Sha384(run) => sha384_fed(run),
            HashRun::Sha512(run) => sha512_fed(run),
        }
    }

    /// The digest of the bytes that were fed so far.
    pub open spec fn digest(self) -> Seq<char> {
        self.algorithm().digest_view(hex_view(self.algorithm().hash_of(self.fed())))
    }

    /// Starts a digest with an algorithm.
    pub fn start(algorithm: DigestAlgorithm) -> (r: DigestRun)
        ensures
            r.algorithm() == algorithm,
            r.fed() == Seq::<u8>::empty(),
    {
        let run = match algorithm {
            DigestAlgorithm::Sha256 => HashRun::Sha256(sha256_start()),
            DigestAlgorithm::Sha384 => HashRun::Sha384(sha384_start()),
            DigestAlgorithm::Sha512 => HashRun::Sha512(sha512_start()),
        };
        DigestRun { run }
    }

    /// Starts a digest with the algorithm of another digest.
    pub fn start_for_digest(digest: &str) -> (r: Result<DigestRun>)
        ensures
            match r {
                Ok(run) => parsed(digest@) matches Ok((algorithm, _)) && run.algorithm()
                    == algorithm && run.fed() == Seq::<u8>::empty(),
                Err(e) => parsed(digest@) == DigestResult::Err(e@),
            },
    {
        match parse_digest(digest) {
            Ok(p) => Ok(DigestRun::start(p.algorithm)),
            Err(e) => Err(e),
        }
    }

    /// Takes the next bytes in.
    pub fn feed(&mut self, bytes: &[u8])
        ensures
            final(self).algorithm() == old(self).algorithm(),
            final(self).fed() == old(self).fed() + bytes@,
    {
        match &mut self.run {
            HashRun::Sha256(run) => sha256_feed(run, bytes),
            HashRun::Sha384(run) => sha384_feed(run, bytes),
            HashRun::Sha512(run) => sha512_feed(run, bytes),
        }
    }

    /// The digest of everything that was fed. It is a valid one: it parses back to the algorithm
    /// and the hash.
    pub fn finish(self) -> (digest: String)
        ensures
            digest@ == self.digest(),
            parsed(digest@) == DigestResult::Ok(
                (self.algorithm(), hex_view(self.algorithm().hash_of(self.fed()))),
            ),
    {
        let (algorithm, hash) = match self.run {
            HashRun::Sha256(run) => (DigestAlgorithm::Sha256, sha256_finish(run)),
            HashRun::Sha384(run) => (DigestAlgorithm::Sha384, sha384_finish(run)),
            HashRun::Sha512(run) => (DigestAlgorithm::Sha512, sha512_finish(run)),
        };
        let value = hex_encode(hash.as_slice());
        proof {
            lemma_hex_is_lower(hash@);
            law_digest_parses_back(algorithm, hex_view(hash@));
        }
        algorithm.with_hex(value.as_str())
    }
}

/// The parts of a digest, or why it is none.
pub type DigestResult = std::result::Result<(DigestAlgorithm, Seq<char>), ErrorView>;

/// The parts of a digest: a supported algorithm, a colon, and as many lower-case hexadecimal
/// digits as the algorithm gives.
pub open spec fn parsed(digest: Seq<char>) -> DigestResult {
    match text::split_once_view(digest, ':') {
        None => Err(ErrorView::InvalidInput("invalid digest format `"@ + digest + "`"@)),
        Some((name, value)) => match algorithm_of(name) {
            None => Err(ErrorView::UnsupportedDigestAlgorithm(name)),
            Some(algorithm) => if value.len() == algorithm.hex_len_view() && all_lower_hex(value) {
                Ok((algorithm, value))
            } else {
                Err(
                    ErrorView::InvalidInput(
                        "invalid "@ + algorithm.name_view() + " digest value `"@ + value + "`"@,
                    ),
                )
            },
        },
    }
}

/// Whether the text is a digest of a supported algorithm.
pub open spec fn is_digest(digest: Seq<char>) -> bool {
    parsed(digest) is Ok
}

/// Whether every character is a lower-case hexadecimal digit.
fn is_hex_value(value: &str) -> (r: bool)
    ensures
        r == all_lower_hex(value@),
{
    let v = text::chars_of(value);
    let mut i: usize = 0;
    while i < v.len()
        invariant
            i <= v@.len(),
            v@ == value@,
            forall|j: int| 0 <= j < i ==> is_lower_hex(#[trigger] v@[j]),
        decreases v@.len() - i,
    {
        let c = v[i];
        if !(('0' <= c && c <= '9') || ('a' <= c && c <= 'f')) {
            return false;
        }
        i += 1;
    }
    true
}

/// Takes a digest apart.
pub fn parse_digest(digest: &str) -> (r: Result<ParsedDigest<'_>>)
    ensures
        parsed(digest@) == match r {
            Ok(p) => Ok((p.algorithm, p.value@)),
            Err(e) => Err(e@),
        },
{
    match text::split_once(digest, ':') {
        None => Err(invalid_input("invalid digest format `", digest, "`")),
        Some((name, value)) => match DigestAlgorithm::parse(name) {
            Err(e) => Err(e),
            Ok(algorithm) => {
                if value.unicode_len() == algorithm.hex_len() && is_hex_value(value) {
                    Ok(ParsedDigest { algorithm, value })
                } else {
                    let mut m = concat3("invalid ", algorithm.name(), " digest value `");
                    m.append(value);
                    m.append("`");
                    Err(DockerPullError::InvalidInput(m))
                }
            },
        },
    }
}

/// The hexadecimal value of a digest.
pub fn digest_hex(digest: &str) -> (r: Result<&str>)
    ensures
        match r {
            Ok(value) => parsed(digest@) matches Ok((_, v)) && v == value@,
            Err(e) => parsed(digest@) == DigestResult::Err(e@),
        },
{
    match parse_digest(digest) {
        Ok(p) => Ok(p.value),
        Err(e) => Err(e),
    }
}

/// Computes the digest of the bytes with the algorithm of another digest.
pub fn digest_bytes_for_digest(digest: &str, bytes: &[u8]) -> (r: Result<String>)
    ensures
        match r {
            Ok(d) => parsed(digest@) matches Ok((algorithm, _)) && d@ == algorithm.digest_view(
                hex_view(algorithm.hash_of(bytes@)),
            ),
            Err(e) => parsed(digest@) == DigestResult::Err(e@),
        },
{
    match parse_digest(digest) {
        Ok(p) => Ok(p.algorithm.digest_bytes(bytes)),
        Err(e) => Err(e),
    }
}

/// The digest of the bytes in the usual algorithm.
pub open spec fn canonical_digest(bytes: Seq<u8>) -> Seq<char> {
    DigestAlgorithm::Sha256.digest_view(hex_view(sha256_of(bytes)))
}

/// Computes the digest of the bytes in the usual algorithm.
pub fn canonical_digest_bytes(bytes: &[u8]) -> (digest: String)
    ensures
        digest@ == canonical_digest(bytes@),
        is_digest(digest@),
{
    DigestAlgorithm::Sha256.digest_bytes(bytes)
}

/// Computes the SHA-256 hash of the bytes in hexadecimal.
pub fn sha256_hex(bytes: &[u8]) -> (hex: String)
    ensures
        hex@ == hex_view(sha256_of(bytes@)),
        hex@.len() == 64,
        all_lower_hex(hex@),
{
    let mut run = sha256_start();
    sha256_feed(&mut run, bytes);
    let hash = sha256_finish(run);
    proof {
        assert(Seq::<u8>::empty() + bytes@ =~= bytes@);
        lemma_hex_is_lower(hash@);
    }
    hex_encode(hash.as_slice())
}

/// Hexadecimal text has two digits for each byte, all of them lower-case.
pub proof fn lemma_hex_is_lower(bytes: Seq<u8>)
    ensures
        hex_view(bytes).len() == 2 * bytes.len(),
        all_lower_hex(hex_view(bytes)),
{
    let s = hex_view(bytes);
    assert forall|i: int| 0 <= i < s.len() implies is_lower_hex(#[trigger] s[i]) by {
        let b = bytes[i / 2] as int;
        assert(0 <= b / 16 < 16);
        assert(0 <= b % 16 < 16);
    }
}

/// Putting an algorithm and a value of its length together gives a digest that parses back to the
/// two.
pub proof fn law_digest_parses_back(algorithm: DigestAlgorithm, value: Seq<char>)
    requires
        value.len() == algorithm.hex_len_view(),
        all_lower_hex(value),
    ensures
        parsed(algorithm.digest_view(value)) == DigestResult::Ok((algorithm, value)),
{
    let name = algorithm.name_view();
    let digest = algorithm.digest_view(value);
    lemma_algorithm_names(algorithm);
    reveal_strlit(":");
    text::lemma_split_once_at(name, ':', value);
    assert(digest =~= name + seq![':'] + value);
}

/// A valid digest is the digest of bytes in its algorithm where its value is their hash.
pub proof fn lemma_digest_of_hash(digest: Seq<char>, hash: Seq<u8>)
    requires
        is_digest(digest),
    ensures
        parsed(digest)->Ok_0.0.digest_view(hex_view(hash)) == digest <==> parsed(digest)->Ok_0.1
            == hex_view(hash),
{
    let (algorithm, value) = parsed(digest)->Ok_0;
    let hex = hex_view(hash);
    law_parsed_parts_make_the_digest(digest);
    let name = algorithm.name_view();
    reveal_strlit(":");
    assert(hex =~= algorithm.digest_view(hex).skip(name.len() + 1int));
    assert(value =~= algorithm.digest_view(value).skip(name.len() + 1int));
}

/// The name of an algorithm names it and has no colon.
pub proof fn lemma_algorithm_names(algorithm: DigestAlgorithm)
    ensures
        algorithm_of(algorithm.name_view()) == Some(algorithm),
        !algorithm.name_view().contains(':'),
        algorithm.name_view().len() == 6,
{
    reveal_strlit("sha256");
    reveal_strlit("sha384");
    reveal_strlit("sha512");
    assert("sha256"@[3] == '2');
    assert("sha384"@[3] == '3');
    assert("sha512"@[3] == '5');
}

/// A valid digest is the one that its parts make.
pub proof fn law_parsed_parts_make_the_digest(digest: Seq<char>)
    requires
        is_digest(digest),
    ensures
        parsed(digest)->Ok_0.0.digest_view(parsed(digest)->Ok_0.1) == digest,
{
    text::lemma_find_char(digest, ':');
    let i = text::find_char(digest, ':')->0;
    reveal_strlit(":");
    assert(digest =~= digest.take(i) + ":"@ + digest.skip(i + 1));
}

/// A digest is the name of an algorithm, a colon and lower-case hexadecimal digits, of which
/// SHA-256 has 64, SHA-384 has 96 and SHA-512 has 128.
pub proof fn law_what_a_digest_is(name: Seq<char>, value: Seq<char>)
    requires
        !name.contains(':'),
    ensures
        is_digest(name + ":"@ + value) <==> all_lower_hex(value) && {
            ||| name == "sha256"@ && value.len() == 64
            ||| name == "sha384"@ && value.len() == 96
            ||| name == "sha512"@ && value.len() == 128
        },
        !is_digest(name),
{
    reveal_strlit(":");
    text::lemma_split_once_at(name, ':', value);
    assert(name + ":"@ + value =~= name + seq![':'] + value);
    lemma_algorithm_names(DigestAlgorithm::Sha256);
    lemma_algorithm_names(DigestAlgorithm::Sha384);
    lemma_algorithm_names(DigestAlgorithm::Sha512);
    text::lemma_find_char(name, ':');
}

/// The usual digest of bytes is that of SHA-256, and it is a digest in that algorithm.
pub proof fn law_the_usual_digest_is_that_of_sha256(bytes: Seq<u8>)
    requires
        sha256_of(bytes).len() == 32,
    ensures
        parsed(canonical_digest(bytes)) == DigestResult::Ok(
            (DigestAlgorithm::Sha256, hex_view(sha256_of(bytes))),
        ),
        canonical_digest(bytes) == "sha256:"@ + hex_view(sha256_of(bytes)),
{
    let value = hex_view(sha256_of(bytes));
    lemma_hex_is_lower(sha256_of(bytes));
    law_digest_parses_back(DigestAlgorithm::Sha256, value);
    reveal_strlit("sha256:");
    reveal_strlit("sha256");
    reveal_strlit(":");
    assert("sha256"@ + ":"@ + value =~= "sha256:"@ + value);
}

} // verus!
