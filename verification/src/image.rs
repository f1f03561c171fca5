//! The layers of an image.
use vstd::prelude::*;

use crate::error::{DockerPullError, ErrorView, Result};
use crate::registry::types::{descriptors_view, Descriptor, DescriptorView};
use crate::text::{self, texts};

verus! {

/// A layer: the content to download, and the digest of the layer when it is unpacked.
#[derive(Debug)]
pub struct LayerSpec {
    pub descriptor: Descriptor,
    pub diff_id: String,
}

/// A layer, as text.
pub struct LayerSpecView {
    pub descriptor: DescriptorView,
    pub diff_id: Seq<char>,
}

impl View for LayerSpec {
    type V = LayerSpecView;

    open spec fn view(&self) -> LayerSpecView {
        LayerSpecView { descriptor: self.descriptor@, diff_id: self.diff_id@ }
    }
}

/// What the layers of a list hold.
pub open spec fn layers_view(layers: Seq<LayerSpec>) -> Seq<LayerSpecView> {
    layers.map_values(|l: LayerSpec| l@)
}

impl LayerSpec {
    /// A copy of the layer.
    pub fn copy(&self) -> (r: LayerSpec)
        ensures
            r@ == self@,
    {
        LayerSpec { descriptor: self.descriptor.copy(), diff_id: self.diff_id.clone() }
    }
}

/// The layers that pair each descriptor with the unpacked digest at the same place.
pub open spec fn paired(
    descriptors: Seq<DescriptorView>,
    diff_ids: Seq<Seq<char>>,
) -> Seq<LayerSpecView> {
    Seq::new(
        descriptors.len(),
        |i: int| LayerSpecView { descriptor: descriptors[i], diff_id: diff_ids[i] },
    )
}

/// Pairs the layers of a manifest with the unpacked digests of a configuration, which must be as
/// many.
pub fn pair_layers(layers: &Vec<Descriptor>, diff_ids: &Vec<String>) -> (r: Result<Vec<LayerSpec>>)
    ensures
        match r {
            Ok(paired_layers) => layers@.len() == diff_ids@.len() && layers_view(paired_layers@)
                == paired(descriptors_view(layers@), texts(diff_ids@)),
            Err(e) => layers@.len() != diff_ids@.len() && e@ == ErrorView::BadResponse(
                "config diff_ids count "@ + text::decimal_view(diff_ids@.len())
                    + " does not match manifest layers count "@ + text::decimal_view(
                    layers@.len(),
                ),
            ),
        },
{
    if diff_ids.len() != layers.len() {
        let mut m = "config diff_ids count ".to_owned();
        m.append(text::decimal(diff_ids.len() as u64).as_str());
        m.append(" does not match manifest layers count ");
        m.append(text::decimal(layers.len() as u64).as_str());
        return Err(DockerPullError::BadResponse(m));
    }
    let mut out: Vec<LayerSpec> = Vec::new();
    let mut i: usize = 0;
    while i < layers.len()
        invariant
            i <= layers@.len(),
            layers@.len() == diff_ids@.len(),
            out@.len() == i,
            forall|j: int|
                0 <= j < i ==> (#[trigger] out@[j])@ == (LayerSpecView {
                    descriptor: layers@[j]@,
                    diff_id: diff_ids@[j]@,
                }),
        decreases layers@.len() - i,
    {
        out.push(LayerSpec { descriptor: layers[i].copy(), diff_id: diff_ids[i].clone() });
        i += 1;
    }
    assert(layers_view(out@) =~= paired(descriptors_view(layers@), texts(diff_ids@)));
    Ok(out)
}

} // verus!
