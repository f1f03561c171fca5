//! Descriptors, manifests and what is known of an image.
use vstd::prelude::*;

use crate::error::{concat3, DockerPullError, ErrorView, Result};
use crate::platform::{self, Platform, PlatformView};
use crate::text;

verus! {

/// A pointer to content: its type, its digest and its size.
#[derive(Debug, Clone, PartialEq, Eq)]
pub struct Descriptor {
    pub media_type: String,
    pub digest: String,
    pub size: i64,
    pub platform: Option<Platform>,
    /// Names and values; no name occurs twice.
    pub annotations: Option<Vec<(String, String)>>,
}

/// A descriptor, as text.
pub struct DescriptorView {
    pub media_type: Seq<char>,
    pub digest: Seq<char>,
    pub size: i64,
    pub platform: Option<PlatformView>,
    pub annotations: Option<Seq<(Seq<char>, Seq<char>)>>,
}

/// Annotations, as text.
pub open spec fn pairs_view(pairs: Seq<(String, String)>) -> Seq<(Seq<char>, Seq<char>)> {
    pairs.map_values(|p: (String, String)| (p.0@, p.1@))
}

/// Optional annotations, as text.
pub open spec fn opt_pairs(
    pairs: Option<Vec<(String, String)>>,
) -> Option<Seq<(Seq<char>, Seq<char>)>> {
    match pairs {
        Some(list) => Some(pairs_view(list@)),
        None => None,
    }
}

impl View for Descriptor {
    type V = DescriptorView;

    open spec fn view(&self) -> DescriptorView {
        DescriptorView {
            media_type: self.media_type@,
            digest: self.digest@,
            size: self.size,
            platform: platform::opt_platform(self.platform),
            annotations: opt_pairs(self.annotations),
        }
    }
}

/// What the descriptors of a list hold.
pub open spec fn descriptors_view(list: Seq<Descriptor>) -> Seq<DescriptorView> {
    list.map_values(|d: Descriptor| d@)
}

/// A copy of a list of pairs.
pub fn copy_pairs(pairs: &Vec<(String, String)>) -> (out: Vec<(String, String)>)
    ensures
        pairs_view(out@) == pairs_view(pairs@),
{
    let mut out: Vec<(String, String)> = Vec::new();
    let mut i: usize = 0;
    while i < pairs.len()
        invariant
            i <= pairs@.len(),
            out@.len() == i,
            forall|j: int|
                0 <= j < i ==> (#[trigger] out@[j]).0@ == pairs@[j].0@ && out@[j].1@
                    == pairs@[j].1@,
        decreases pairs@.len() - i,
    {
        out.push((pairs[i].0.clone(), pairs[i].1.clone()));
        i += 1;
    }
    assert(pairs_view(out@) =~= pairs_view(pairs@));
    out
}

/// The pairs with a value under a name: it replaces the one that was there.
pub open spec fn with_pair(
    pairs: Seq<(Seq<char>, Seq<char>)>,
    name: Seq<char>,
    value: Seq<char>,
) -> Seq<(Seq<char>, Seq<char>)>
    decreases pairs.len(),
{
    if pairs.len() == 0 {
        seq![(name, value)]
    } else if pairs[0].0 == name {
        seq![(name, value)] + pairs.skip(1)
    } else {
        seq![pairs[0]] + with_pair(pairs.skip(1), name, value)
    }
}

/// Puts a value under a name.
pub fn insert_pair(pairs: &Vec<(String, String)>, name: &str, value: &str) -> (out: Vec<
    (String, String),
>)
    ensures
        pairs_view(out@) == with_pair(pairs_view(pairs@), name@, value@),
{
    let ghost all = pairs_view(pairs@);
    let ghost goal = with_pair(all, name@, value@);
    let mut out: Vec<(String, String)> = Vec::new();
    let mut placed = false;
    let mut i: usize = 0;
    assert(all.skip(0) =~= all);
    assert(pairs_view(out@) + goal =~= goal);
    while i < pairs.len()
        invariant
            i <= pairs@.len(),
            all == pairs_view(pairs@),
            !placed ==> goal == pairs_view(out@) + with_pair(all.skip(i as int), name@, value@),
            placed ==> goal == pairs_view(out@) + all.skip(i as int),
        decreases pairs@.len() - i,
    {
        let ghost before = pairs_view(out@);
        let ghost here = all.skip(i as int);
        assert(here[0] == all[i as int]);
        assert(here.skip(1) =~= all.skip(i + 1));
        if !placed && text::same(pairs[i].0.as_str(), name) {
            out.push((name.to_owned(), value.to_owned()));
            placed = true;
            assert(pairs_view(out@) =~= before.push((name@, value@)));
            assert(pairs_view(out@) + all.skip(i + 1) =~= before + (seq![(name@, value@)]
                + all.skip(i + 1)));
        } else {
            out.push((pairs[i].0.clone(), pairs[i].1.clone()));
            assert(pairs_view(out@) =~= before.push(here[0]));
            if placed {
                assert(pairs_view(out@) + all.skip(i + 1) =~= before + here);
            } else {
                let ghost rest = with_pair(all.skip(i + 1), name@, value@);
                assert(pairs_view(out@) + rest =~= before + (seq![here[0]] + rest));
            }
        }
        i += 1;
    }
    if !placed {
        let ghost before = pairs_view(out@);
        out.push((name.to_owned(), value.to_owned()));
        assert(pairs_view(out@) =~= before.push((name@, value@)));
        assert(before + seq![(name@, value@)] =~= pairs_view(out@));
    } else {
        assert(pairs_view(out@) + all.skip(i as int) =~= pairs_view(out@));
    }
    out
}

impl DescriptorView {
    /// Why the size of the descriptor cannot be one.
    pub open spec fn size_error(self) -> ErrorView {
        ErrorView::InvalidInput(
            "descriptor "@ + self.digest + " has invalid negative size "@
                + text::signed_decimal_view(self.size as int),
        )
    }
}

impl Descriptor {
    /// The size of the content.
    pub fn expected_size(&self) -> (r: Result<u64>)
        ensures
            match r {
                Ok(size) => self.size >= 0 && size == self.size,
                Err(e) => self.size < 0 && e@ == self@.size_error(),
            },
    {
        if self.size >= 0 {
            Ok(self.size as u64)
        } else {
            let mut m = concat3("descriptor ", self.digest.as_str(), " has invalid negative size ");
            m.append(text::signed_decimal(self.size).as_str());
            Err(DockerPullError::InvalidInput(m))
        }
    }

    /// A copy of the descriptor.
    pub fn copy(&self) -> (r: Descriptor)
        ensures
            r@ == self@,
    {
        Descriptor {
            media_type: self.media_type.clone(),
            digest: self.digest.clone(),
            size: self.size,
            platform: match &self.platform {
                Some(p) => Some(p.copy()),
                None => None,
            },
            annotations: match &self.annotations {
                Some(pairs) => Some(copy_pairs(pairs)),
                None => None,
            },
        }
    }
}

/// A copy of a list of descriptors.
pub fn copy_descriptors(list: &Vec<Descriptor>) -> (out: Vec<Descriptor>)
    ensures
        descriptors_view(out@) == descriptors_view(list@),
{
    let mut out: Vec<Descriptor> = Vec::new();
    let mut i: usize = 0;
    while i < list.len()
        invariant
            i <= list@.len(),
            out@.len() == i,
            forall|j: int| 0 <= j < i ==> (#[trigger] out@[j])@ == list@[j]@,
        decreases list@.len() - i,
    {
        out.push(list[i].copy());
        i += 1;
    }
    assert(descriptors_view(out@) =~= descriptors_view(list@));
    out
}

/// The digests of the descriptors.
pub open spec fn digests_view(list: Seq<DescriptorView>) -> Seq<Seq<char>> {
    list.map_values(|d: DescriptorView| d.digest)
}

/// The digests of the descriptors.
pub fn digests_of(list: &Vec<Descriptor>) -> (out: Vec<String>)
    ensures
        text::texts(out@) == digests_view(descriptors_view(list@)),
{
    let mut out: Vec<String> = Vec::new();
    let mut i: usize = 0;
    while i < list.len()
        invariant
            i <= list@.len(),
            out@.len() == i,
            forall|j: int| 0 <= j < i ==> (#[trigger] out@[j])@ == list@[j].digest@,
        decreases list@.len() - i,
    {
        out.push(list[i].digest.clone());
        i += 1;
    }
    assert(text::texts(out@) =~= digests_view(descriptors_view(list@)));
    out
}

/// The parts of a manifest that say which kind of manifest it is.
#[derive(Debug)]
pub struct ManifestEnvelope {
    pub schema_version: u32,
    pub media_type: String,
}

/// The manifest of one image.
#[derive(Debug)]
pub struct ImageManifest {
    pub media_type: String,
    pub config: Descriptor,
    pub layers: Vec<Descriptor>,
}

/// A list of manifests, one for each platform.
#[derive(Debug)]
pub struct ImageIndex {
    pub manifests: Vec<Descriptor>,
}

/// What a pull needs to know of an image.
#[derive(Debug)]
pub struct ResolvedImage {
    pub manifest: Descriptor,
    pub manifest_bytes: Vec<u8>,
    pub config: Descriptor,
    pub layers: Vec<Descriptor>,
}

/// What a pull needs to know of an image, as text and bytes.
pub struct ResolvedView {
    pub manifest: DescriptorView,
    pub manifest_bytes: Seq<u8>,
    pub config: DescriptorView,
    pub layers: Seq<DescriptorView>,
}

impl View for ResolvedImage {
    type V = ResolvedView;

    open spec fn view(&self) -> ResolvedView {
        ResolvedView {
            manifest: self.manifest@,
            manifest_bytes: self.manifest_bytes@,
            config: self.config@,
            layers: descriptors_view(self.layers@),
        }
    }
}

/// What a registry says of a blob without sending it.
#[derive(Debug, Clone, Copy)]
pub struct BlobMetadata {
    pub size: Option<u64>,
}

/// A manifest as it was sent.
#[derive(Debug)]
pub struct RawManifest {
    pub descriptor: Descriptor,
    pub bytes: Vec<u8>,
}

/// A response status: its code, and how it is shown.
#[derive(Debug)]
pub struct Status {
    pub code: u16,
    pub text: String,
}

/// Whether a status code means success.
pub open spec fn is_success_code(code: u16) -> bool {
    200 <= code <= 299
}

impl Status {
    /// Whether the status means success.
    pub fn is_success(&self) -> (r: bool)
        ensures
            r == is_success_code(self.code),
    {
        200 <= self.code && self.code <= 299
    }
}

/// A value that is put under a name is there, and the values under other names stay as they are.
pub proof fn law_a_value_is_put_under_its_name(
    pairs: Seq<(Seq<char>, Seq<char>)>,
    name: Seq<char>,
    value: Seq<char>,
    other: (Seq<char>, Seq<char>),
)
    ensures
        with_pair(pairs, name, value).contains((name, value)),
        other.0 != name ==> (with_pair(pairs, name, value).contains(other) <==> pairs.contains(
            other,
        )),
    decreases pairs.len(),
{
    let out = with_pair(pairs, name, value);
    if pairs.len() == 0 {
        assert(out[0] == (name, value));
    } else {
        let rest = pairs.skip(1);
        if pairs[0].0 == name {
            assert(out[0] == (name, value));
            assert forall|i: int| 0 < i < out.len() implies #[trigger] out[i] == pairs[i] by {}
            if other.0 != name {
                if out.contains(other) {
                    let k = choose|k: int| 0 <= k < out.len() && out[k] == other;
                    assert(pairs[k] == other);
                }
                if pairs.contains(other) {
                    let k = choose|k: int| 0 <= k < pairs.len() && pairs[k] == other;
                    assert(out[k] == other);
                }
            }
        } else {
            law_a_value_is_put_under_its_name(rest, name, value, other);
            let inner = with_pair(rest, name, value);
            assert forall|i: int| 0 < i < out.len() implies #[trigger] out[i] == inner[i - 1] by {}
            let at = choose|k: int| 0 <= k < inner.len() && inner[k] == (name, value);
            assert(out[at + 1] == (name, value));
            if other.0 != name {
                if out.contains(other) {
                    let k = choose|k: int| 0 <= k < out.len() && out[k] == other;
                    if k > 0 {
                        assert(inner[k - 1] == other);
                        assert(inner.contains(other));
                        let m = choose|m: int| 0 <= m < rest.len() && rest[m] == other;
                        assert(pairs[m + 1] == other);
                    } else {
                        assert(pairs[0] == other);
                    }
                }
                if pairs.contains(other) {
                    let k = choose|k: int| 0 <= k < pairs.len() && pairs[k] == other;
                    if k > 0 {
                        assert(rest[k - 1] == other);
                        assert(rest.contains(other));
                        let m = choose|m: int| 0 <= m < inner.len() && inner[m] == other;
                        assert(out[m + 1] == other);
                    } else {
                        assert(out[0] == other);
                    }
                }
            }
        }
    }
}

} // verus!
