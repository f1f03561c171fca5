//! Which images of the docker daemon provide the layers of another image.
use vstd::prelude::*;

use crate::compose::env::Variables;
use crate::digest::{self, DigestRun};
use crate::error::{concat2, concat3, DockerPullError, ErrorView, Result};
use crate::image::{layers_view, LayerSpec, LayerSpecView};
use crate::path::{self, HostFamily};
use crate::text::{self, opt_string, texts};

verus! {

/// An image that the daemon lists.
#[derive(Debug)]
pub struct DaemonImageSummary {
    pub id: String,
    pub created: Option<i64>,
    pub repo_tags: Option<Vec<String>>,
    pub size: Option<u64>,
}

/// The identifiers of images.
pub open spec fn summary_ids(summaries: Seq<DaemonImageSummary>) -> Seq<Seq<char>> {
    summaries.map_values(|s: DaemonImageSummary| s.id@)
}

/// The identifiers of images, each once, in the order in which they first occur.
pub fn ordered_unique_image_ids(summaries: &Vec<DaemonImageSummary>) -> (ids: Vec<String>)
    ensures
        texts(ids@) == text::unique_view(summary_ids(summaries@)),
{
    let mut all: Vec<String> = Vec::new();
    let mut i: usize = 0;
    while i < summaries.len()
        invariant
            i <= summaries@.len(),
            texts(all@) == summary_ids(summaries@).take(i as int),
        decreases summaries@.len() - i,
    {
        let ghost before = all@;
        all.push(summaries[i].id.clone());
        assert(texts(all@) =~= texts(before).push(summaries@[i as int].id@));
        assert(texts(all@) =~= summary_ids(summaries@).take(i + 1));
        i += 1;
    }
    assert(texts(all@) =~= summary_ids(summaries@));
    text::unique(all.as_slice())
}

/// An image of the daemon with the unpacked digests of its layers.
#[derive(Debug)]
pub struct DaemonImage {
    pub id: String,
    pub repo_tags: Option<Vec<String>>,
    pub layers: Vec<String>,
}

/// An image of the daemon, as text.
pub struct DaemonImageView {
    pub id: Seq<char>,
    pub repo_tags: Option<Seq<Seq<char>>>,
    pub layers: Seq<Seq<char>>,
}

impl View for DaemonImage {
    type V = DaemonImageView;

    open spec fn view(&self) -> DaemonImageView {
        DaemonImageView {
            id: self.id@,
            repo_tags: match self.repo_tags {
                Some(tags) => Some(texts(tags@)),
                None => None,
            },
            layers: texts(self.layers@),
        }
    }
}

impl DaemonImageView {
    /// The name by which the image is shown: its first tag, or else its identifier.
    pub open spec fn label(self) -> Seq<char> {
        match self.repo_tags {
            Some(tags) if tags.len() > 0 => tags[0],
            _ => self.id,
        }
    }
}

/// The images of a list, as text.
pub open spec fn images_view(images: Seq<DaemonImage>) -> Seq<DaemonImageView> {
    images.map_values(|i: DaemonImage| i@)
}

impl DaemonImage {
    /// The unpacked digests of the layers.
    pub fn rootfs_layers(&self) -> (r: &[String])
        ensures
            texts(r@) == self@.layers,
    {
        self.layers.as_slice()
    }

    /// The name by which the image is shown: its first tag, or else its identifier.
    pub fn label(&self) -> (r: String)
        ensures
            r@ == self@.label(),
    {
        match &self.repo_tags {
            Some(tags) => {
                if tags.len() > 0 {
                    assert(texts(tags@)[0] == tags@[0]@);
                    tags[0].clone()
                } else {
                    self.id.clone()
                }
            },
            None => self.id.clone(),
        }
    }
}

/// The layers for which an unpacked digest is known.
pub open spec fn known_diff_ids(layers: Seq<LayerSpecView>) -> Seq<Seq<char>>
    decreases layers.len(),
{
    if layers.len() == 0 {
        seq![]
    } else if layers[0].diff_id.len() == 0 {
        known_diff_ids(layers.skip(1))
    } else {
        seq![layers[0].diff_id] + known_diff_ids(layers.skip(1))
    }
}

/// The unpacked digests that are wanted, each once.
pub fn wanted_diff_ids(layers: &[LayerSpec]) -> (wanted: Vec<String>)
    ensures
        texts(wanted@) == text::unique_view(known_diff_ids(layers_view(layers@))),
{
    let ghost all = layers_view(layers@);
    let ghost goal = known_diff_ids(all);
    let mut known: Vec<String> = Vec::new();
    assert(all.skip(0) =~= all);
    assert(texts(known@) + goal =~= goal);
    let mut i: usize = 0;
    while i < layers.len()
        invariant
            i <= layers@.len(),
            all == layers_view(layers@),
            goal == texts(known@) + known_diff_ids(all.skip(i as int)),
        decreases layers@.len() - i,
    {
        assert(all.skip(i as int).skip(1) =~= all.skip(i + 1));
        assert(all.skip(i as int)[0] == layers@[i as int]@);
        if layers[i].diff_id.as_str().unicode_len() != 0 {
            let ghost before = known@;
            known.push(layers[i].diff_id.clone());
            assert(texts(known@) =~= texts(before).push(layers@[i as int].diff_id@));
            assert(texts(known@) + known_diff_ids(all.skip(i + 1)) =~= texts(before)
                + known_diff_ids(all.skip(i as int)));
        }
        i += 1;
    }
    assert(texts(known@) =~= goal);
    text::unique(known.as_slice())
}

/// The layers that are taken from an image.
#[derive(Debug)]
pub struct ChosenImageLayers {
    /// The place of the image among those that it was chosen from.
    pub image: usize,
    pub diff_ids: Vec<String>,
}

/// The layers that are taken from an image, as text.
pub struct ChosenView {
    pub image: int,
    pub diff_ids: Seq<Seq<char>>,
}

impl View for ChosenImageLayers {
    type V = ChosenView;

    open spec fn view(&self) -> ChosenView {
        ChosenView { image: self.image as int, diff_ids: texts(self.diff_ids@) }
    }
}

/// The choices of a list, as text.
pub open spec fn choices_view(chosen: Seq<ChosenImageLayers>) -> Seq<ChosenView> {
    chosen.map_values(|c: ChosenImageLayers| c@)
}

/// The layers that are still wanted, in the order of the image.
pub open spec fn provided(layers: Seq<Seq<char>>, wanted: Set<Seq<char>>) -> Seq<Seq<char>>
    decreases layers.len(),
{
    if layers.len() == 0 {
        seq![]
    } else if wanted.contains(layers[0]) {
        seq![layers[0]] + provided(layers.skip(1), wanted)
    } else {
        provided(layers.skip(1), wanted)
    }
}

/// The choice of images from place `from` on: each image gives the layers that are wanted and that
/// no earlier image gave, and an image that gives none is left out.
pub open spec fn chosen_from(
    images: Seq<DaemonImageView>,
    from: int,
    wanted: Set<Seq<char>>,
) -> Seq<ChosenView>
    decreases images.len() - from,
{
    if from < 0 || from >= images.len() {
        seq![]
    } else {
        let here = provided(images[from].layers, wanted);
        if here.len() == 0 {
            chosen_from(images, from + 1, wanted)
        } else {
            seq![ChosenView { image: from, diff_ids: here }] + chosen_from(
                images,
                from + 1,
                wanted.difference(here.to_set()),
            )
        }
    }
}

/// Picks the layers of an image that are wanted.
fn provided_layers(layers: &[String], wanted: &Vec<String>) -> (r: Vec<String>)
    ensures
        texts(r@) == provided(texts(layers@), texts(wanted@).to_set()),
{
    let ghost all = texts(layers@);
    let ghost set = texts(wanted@).to_set();
    let ghost goal = provided(all, set);
    let mut out: Vec<String> = Vec::new();
    assert(all.skip(0) =~= all);
    assert(texts(out@) + goal =~= goal);
    let mut i: usize = 0;
    while i < layers.len()
        invariant
            i <= layers@.len(),
            all == texts(layers@),
            set == texts(wanted@).to_set(),
            goal == texts(out@) + provided(all.skip(i as int), set),
        decreases layers@.len() - i,
    {
        assert(all.skip(i as int).skip(1) =~= all.skip(i + 1));
        assert(all.skip(i as int)[0] == layers@[i as int]@);
        if text::list_contains(wanted.as_slice(), layers[i].as_str()) {
            let ghost before = out@;
            out.push(layers[i].clone());
            assert(texts(out@) =~= texts(before).push(layers@[i as int]@));
            assert(texts(out@) + provided(all.skip(i + 1), set) =~= texts(before) + provided(
                all.skip(i as int),
                set,
            ));
        }
        i += 1;
    }
    assert(texts(out@) =~= goal);
    out
}

/// The items of a list that are not in another.
pub open spec fn without(list: Seq<Seq<char>>, other: Set<Seq<char>>) -> Seq<Seq<char>>
    decreases list.len(),
{
    if list.len() == 0 {
        seq![]
    } else if other.contains(list[0]) {
        without(list.skip(1), other)
    } else {
        seq![list[0]] + without(list.skip(1), other)
    }
}

/// What is left is what is not in the other list.
proof fn lemma_without(list: Seq<Seq<char>>, other: Set<Seq<char>>)
    ensures
        without(list, other).to_set() == list.to_set().difference(other),
    decreases list.len(),
{
    if list.len() > 0 {
        let rest = list.skip(1);
        lemma_without(rest, other);
        let out = without(list, other);
        let tail = without(rest, other);
        assert forall|x: Seq<char>| out.to_set().contains(x) == list.to_set().difference(
            other,
        ).contains(x) by {
            if out.contains(x) {
                let j = choose|j: int| 0 <= j < out.len() && out[j] == x;
                if other.contains(list[0]) {
                    assert(tail.to_set().contains(x));
                    assert(rest.contains(x));
                } else if j == 0 {
                    assert(list[0] == x);
                } else {
                    assert(tail[j - 1] == x);
                    assert(tail.to_set().contains(x));
                    assert(rest.contains(x));
                }
                if rest.contains(x) {
                    let k = choose|k: int| 0 <= k < rest.len() && rest[k] == x;
                    assert(list[k + 1] == x);
                }
            }
            if list.contains(x) && !other.contains(x) {
                let j = choose|j: int| 0 <= j < list.len() && list[j] == x;
                if j == 0 {
                    assert(out[0] == x);
                } else {
                    assert(rest[j - 1] == x);
                    assert(rest.to_set().difference(other).contains(x));
                    assert(tail.contains(x));
                    let k = choose|k: int| 0 <= k < tail.len() && tail[k] == x;
                    if other.contains(list[0]) {
                        assert(out[k] == x);
                    } else {
                        assert(out[k + 1] == x);
                    }
                }
            }
        }
        assert(out.to_set() =~= list.to_set().difference(other));
    } else {
        assert(without(list, other).to_set() =~= list.to_set().difference(other));
    }
}

/// Drops the items that are in another list.
fn drop_listed(list: &Vec<String>, other: &Vec<String>) -> (r: Vec<String>)
    ensures
        texts(r@) == without(texts(list@), texts(other@).to_set()),
{
    let ghost all = texts(list@);
    let ghost set = texts(other@).to_set();
    let ghost goal = without(all, set);
    let mut out: Vec<String> = Vec::new();
    assert(all.skip(0) =~= all);
    assert(texts(out@) + goal =~= goal);
    let mut i: usize = 0;
    while i < list.len()
        invariant
            i <= list@.len(),
            all == texts(list@),
            set == texts(other@).to_set(),
            goal == texts(out@) + without(all.skip(i as int), set),
        decreases list@.len() - i,
    {
        assert(all.skip(i as int).skip(1) =~= all.skip(i + 1));
        assert(all.skip(i as int)[0] == list@[i as int]@);
        if !text::list_contains(other.as_slice(), list[i].as_str()) {
            let ghost before = out@;
            out.push(list[i].clone());
            assert(texts(out@) =~= texts(before).push(list@[i as int]@));
            assert(texts(out@) + without(all.skip(i + 1), set) =~= texts(before) + without(
                all.skip(i as int),
                set,
            ));
        }
        i += 1;
    }
    assert(texts(out@) =~= goal);
    out
}

/// Nothing is chosen where nothing is wanted.
proof fn lemma_nothing_wanted(images: Seq<DaemonImageView>, from: int)
    requires
        0 <= from <= images.len(),
    ensures
        chosen_from(images, from, Set::empty()) == Seq::<ChosenView>::empty(),
    decreases images.len() - from,
{
    if from < images.len() {
        lemma_provided_members(images[from].layers, Set::empty());
        let here = provided(images[from].layers, Set::empty());
        if here.len() > 0 {
            assert(here.contains(here[0]));
        }
        lemma_nothing_wanted(images, from + 1);
    }
}

/// What is provided is what the image holds and what is wanted.
proof fn lemma_provided_members(layers: Seq<Seq<char>>, wanted: Set<Seq<char>>)
    ensures
        forall|x: Seq<char>| #[trigger]
            provided(layers, wanted).contains(x) <==> layers.contains(x) && wanted.contains(x),
    decreases layers.len(),
{
    if layers.len() > 0 {
        let rest = layers.skip(1);
        lemma_provided_members(rest, wanted);
        let out = provided(layers, wanted);
        let tail = provided(rest, wanted);
        assert forall|x: Seq<char>| #[trigger] out.contains(x) <==> layers.contains(x)
            && wanted.contains(x) by {
            if out.contains(x) {
                let j = choose|j: int| 0 <= j < out.len() && out[j] == x;
                if !wanted.contains(layers[0]) {
                    assert(tail.contains(x));
                } else if j == 0 {
                    assert(layers[0] == x);
                } else {
                    assert(tail[j - 1] == x);
                    assert(tail.contains(x));
                }
                if rest.contains(x) {
                    let k = choose|k: int| 0 <= k < rest.len() && rest[k] == x;
                    assert(layers[k + 1] == x);
                }
            }
            if layers.contains(x) && wanted.contains(x) {
                let j = choose|j: int| 0 <= j < layers.len() && layers[j] == x;
                if j == 0 {
                    assert(out[0] == x);
                } else {
                    assert(rest[j - 1] == x);
                    assert(tail.contains(x));
                    let k = choose|k: int| 0 <= k < tail.len() && tail[k] == x;
                    if wanted.contains(layers[0]) {
                        assert(out[k + 1] == x);
                    } else {
                        assert(out[k] == x);
                    }
                }
            }
        }
    }
}

/// Chooses the images that provide the wanted layers, each layer from the first image that has it.
pub fn choose_from_daemon_images(images: &[DaemonImage], wanted: &Vec<String>) -> (chosen: Vec<
    ChosenImageLayers,
>)
    ensures
        choices_view(chosen@) == chosen_from(
            images_view(images@),
            0,
            texts(wanted@).to_set(),
        ),
        forall|i: int| 0 <= i < chosen@.len() ==> (#[trigger] chosen@[i]).image < images@.len(),
{
    let ghost all = images_view(images@);
    let ghost goal = chosen_from(all, 0, texts(wanted@).to_set());
    let mut chosen: Vec<ChosenImageLayers> = Vec::new();
    let mut unresolved = text::copy_list(wanted);
    assert(choices_view(chosen@) + goal =~= goal);
    let mut i: usize = 0;
    while i < images.len()
        invariant
            i <= images@.len(),
            all == images_view(images@),
            goal == chosen_from(all, 0, texts(wanted@).to_set()),
            goal == choices_view(chosen@) + chosen_from(
                all,
                i as int,
                texts(unresolved@).to_set(),
            ),
            forall|k: int| 0 <= k < chosen@.len() ==> (#[trigger] chosen@[k]).image < images@.len(),
        decreases images@.len() - i,
    {
        assert(all[i as int] == images@[i as int]@);
        let ghost set = texts(unresolved@).to_set();
        let here = provided_layers(images[i].rootfs_layers(), &unresolved);
        if here.len() > 0 {
            let remaining = drop_listed(&unresolved, &here);
            proof {
                lemma_without(texts(unresolved@), texts(here@).to_set());
            }
            let ghost before = chosen@;
            let choice = ChosenImageLayers { image: i, diff_ids: here };
            chosen.push(choice);
            assert(choices_view(chosen@) =~= choices_view(before).push(choice@));
            assert(choices_view(chosen@) + chosen_from(
                all,
                i + 1,
                texts(remaining@).to_set(),
            ) =~= choices_view(before) + chosen_from(all, i as int, set));
            unresolved = remaining;
            if unresolved.len() == 0 {
                proof {
                    assert(texts(unresolved@).to_set() =~= Set::empty());
                    lemma_nothing_wanted(all, i + 1);
                    assert(choices_view(chosen@) =~= goal);
                }
                return chosen;
            }
        }
        i += 1;
    }
    assert(choices_view(chosen@) =~= goal);
    chosen
}

/// Every wanted layer that some image holds is taken from exactly one image, the first that holds
/// it; and nothing is taken that is not wanted.
pub proof fn law_each_layer_comes_from_its_first_image(
    images: Seq<DaemonImageView>,
    wanted: Set<Seq<char>>,
    diff_id: Seq<char>,
    k: int,
)
    requires
        0 <= k < chosen_from(images, 0, wanted).len(),
        chosen_from(images, 0, wanted)[k].diff_ids.contains(diff_id),
    ensures
        wanted.contains(diff_id),
        0 <= chosen_from(images, 0, wanted)[k].image < images.len(),
        images[chosen_from(images, 0, wanted)[k].image].layers.contains(diff_id),
        forall|j: int|
            0 <= j < chosen_from(images, 0, wanted)[k].image ==> !(
            #[trigger] images[j]).layers.contains(diff_id),
        forall|j: int|
            0 <= j < chosen_from(images, 0, wanted).len() && j != k ==> !(
            #[trigger] chosen_from(images, 0, wanted)[j]).diff_ids.contains(diff_id),
{
    lemma_choice_is_first(images, 0, wanted, diff_id, k);
}

/// Every wanted layer that some image holds is taken from some image.
pub proof fn law_what_can_be_provided_is_chosen(
    images: Seq<DaemonImageView>,
    wanted: Set<Seq<char>>,
    diff_id: Seq<char>,
    at: int,
)
    requires
        wanted.contains(diff_id),
        0 <= at < images.len(),
        images[at].layers.contains(diff_id),
    ensures
        exists|k: int|
            0 <= k < chosen_from(images, 0, wanted).len() && (#[trigger] chosen_from(
                images,
                0,
                wanted,
            )[k]).diff_ids.contains(diff_id),
{
    lemma_provided_is_chosen(images, 0, wanted, diff_id, at);
}

proof fn lemma_choice_is_first(
    images: Seq<DaemonImageView>,
    from: int,
    wanted: Set<Seq<char>>,
    diff_id: Seq<char>,
    k: int,
)
    requires
        0 <= from,
        0 <= k < chosen_from(images, from, wanted).len(),
        chosen_from(images, from, wanted)[k].diff_ids.contains(diff_id),
    ensures
        wanted.contains(diff_id),
        from <= chosen_from(images, from, wanted)[k].image < images.len(),
        images[chosen_from(images, from, wanted)[k].image].layers.contains(diff_id),
        forall|j: int|
            from <= j < chosen_from(images, from, wanted)[k].image ==> !(
            #[trigger] images[j]).layers.contains(diff_id),
        forall|j: int|
            0 <= j < chosen_from(images, from, wanted).len() && j != k ==> !(
            #[trigger] chosen_from(images, from, wanted)[j]).diff_ids.contains(diff_id),
    decreases images.len() - from,
{
    let here = provided(images[from].layers, wanted);
    lemma_provided_members(images[from].layers, wanted);
    let out = chosen_from(images, from, wanted);
    if here.len() == 0 {
        if images[from].layers.contains(diff_id) && wanted.contains(diff_id) {
            assert(here.contains(diff_id));
        }
        lemma_choice_is_first(images, from + 1, wanted, diff_id, k);
    } else {
        let rest = wanted.difference(here.to_set());
        let tail = chosen_from(images, from + 1, rest);
        if k == 0 {
            assert(here.contains(diff_id));
            assert forall|j: int| 0 <= j < out.len() && j != k implies !(
            #[trigger] out[j]).diff_ids.contains(diff_id) by {
                if out[j].diff_ids.contains(diff_id) {
                    assert(tail[j - 1].diff_ids.contains(diff_id));
                    lemma_choice_is_first(images, from + 1, rest, diff_id, j - 1);
                    assert(here.to_set().contains(diff_id));
                }
            }
        } else {
            assert(tail[k - 1] == out[k]);
            lemma_choice_is_first(images, from + 1, rest, diff_id, k - 1);
            assert(!here.contains(diff_id)) by {
                if here.contains(diff_id) {
                    assert(here.to_set().contains(diff_id));
                }
            }
            assert(!images[from].layers.contains(diff_id));
            assert forall|j: int| 0 <= j < out.len() && j != k implies !(
            #[trigger] out[j]).diff_ids.contains(diff_id) by {
                if j > 0 {
                    assert(out[j] == tail[j - 1]);
                }
            }
        }
    }
}

proof fn lemma_provided_is_chosen(
    images: Seq<DaemonImageView>,
    from: int,
    wanted: Set<Seq<char>>,
    diff_id: Seq<char>,
    at: int,
)
    requires
        wanted.contains(diff_id),
        0 <= from <= at < images.len(),
        images[at].layers.contains(diff_id),
    ensures
        exists|k: int|
            0 <= k < chosen_from(images, from, wanted).len() && (#[trigger] chosen_from(
                images,
                from,
                wanted,
            )[k]).diff_ids.contains(diff_id),
    decreases images.len() - from,
{
    let here = provided(images[from].layers, wanted);
    lemma_provided_members(images[from].layers, wanted);
    let out = chosen_from(images, from, wanted);
    if here.contains(diff_id) {
        assert(out[0].diff_ids.contains(diff_id));
    } else if here.len() == 0 {
        lemma_provided_is_chosen(images, from + 1, wanted, diff_id, at);
    } else {
        let rest = wanted.difference(here.to_set());
        let tail = chosen_from(images, from + 1, rest);
        lemma_provided_is_chosen(images, from + 1, rest, diff_id, at);
        let k = choose|k: int|
            0 <= k < tail.len() && (#[trigger] tail[k]).diff_ids.contains(diff_id);
        assert(out[k + 1] == tail[k]);
    }
}

/// The same value under each of the keys.
pub open spec fn under_keys(
    map: Map<Seq<char>, Seq<char>>,
    keys: Seq<Seq<char>>,
    value: Seq<char>,
) -> Map<Seq<char>, Seq<char>>
    decreases keys.len(),
{
    if keys.len() == 0 {
        map
    } else {
        under_keys(map, keys.drop_last(), value).insert(keys.last(), value)
    }
}

/// The name of the image that provides each layer.
pub open spec fn coverage_view(
    images: Seq<DaemonImageView>,
    chosen: Seq<ChosenView>,
) -> Map<Seq<char>, Seq<char>>
    decreases chosen.len(),
{
    if chosen.len() == 0 {
        Map::empty()
    } else {
        under_keys(
            coverage_view(images, chosen.drop_last()),
            chosen.last().diff_ids,
            images[chosen.last().image].label(),
        )
    }
}

/// Tells which image provides each layer.
pub fn coverage_from_chosen(images: &[DaemonImage], chosen: &Vec<ChosenImageLayers>) -> (coverage:
    Variables)
    requires
        forall|i: int| 0 <= i < chosen@.len() ==> (#[trigger] chosen@[i]).image < images@.len(),
    ensures
        coverage@ == coverage_view(images_view(images@), choices_view(chosen@)),
{
    let ghost all = images_view(images@);
    let ghost choices = choices_view(chosen@);
    let mut coverage = Variables::new();
    let mut i: usize = 0;
    while i < chosen.len()
        invariant
            i <= chosen@.len(),
            all == images_view(images@),
            choices == choices_view(chosen@),
            forall|k: int| 0 <= k < chosen@.len() ==> (#[trigger] chosen@[k]).image < images@.len(),
            coverage@ == coverage_view(all, choices.take(i as int)),
        decreases chosen@.len() - i,
    {
        let label = images[chosen[i].image].label();
        let ids = &chosen[i].diff_ids;
        let ghost keys = texts(ids@);
        let ghost before = coverage@;
        let mut j: usize = 0;
        assert(keys.take(0) =~= Seq::<Seq<char>>::empty());
        while j < ids.len()
            invariant
                j <= ids@.len(),
                keys == texts(ids@),
                coverage@ == under_keys(before, keys.take(j as int), label@),
            decreases ids@.len() - j,
        {
            coverage.insert(ids[j].clone(), label.clone());
            assert(keys.take(j + 1).drop_last() =~= keys.take(j as int));
            assert(keys.take(j + 1).last() == ids@[j as int]@);
            j += 1;
        }
        assert(keys.take(j as int) =~= keys);
        assert(choices.take(i + 1).drop_last() =~= choices.take(i as int));
        assert(choices.take(i + 1).last() == chosen@[i as int]@);
        assert(all[chosen@[i as int].image as int] == images@[chosen@[i as int].image as int]@);
        i += 1;
    }
    assert(choices.take(i as int) =~= choices);
    coverage
}

/// Tells which image of the daemon provides each layer that one of them has.
pub fn daemon_layer_coverage(images: &[DaemonImage], layers: &[LayerSpec]) -> (coverage: Variables)
    ensures
        coverage@ == coverage_view(
            images_view(images@),
            chosen_from(
                images_view(images@),
                0,
                text::unique_view(known_diff_ids(layers_view(layers@))).to_set(),
            ),
        ),
{
    let wanted = wanted_diff_ids(layers);
    let chosen = choose_from_daemon_images(images, &wanted);
    coverage_from_chosen(images, &chosen)
}

/// Where the layers to be taken lie in an archive that the daemon saved: each path with the
/// unpacked digest of the layer there. A later place wins where a path occurs twice.
pub open spec fn targets_view(
    rootfs: Seq<Seq<char>>,
    paths: Seq<Seq<char>>,
    diff_ids: Seq<Seq<char>>,
    n: nat,
) -> Map<Seq<char>, Seq<char>>
    decreases n,
{
    if n == 0 {
        Map::empty()
    } else {
        let before = targets_view(rootfs, paths, diff_ids, (n - 1) as nat);
        if diff_ids.contains(rootfs[n - 1]) {
            before.insert(paths[n - 1], rootfs[n - 1])
        } else {
            before
        }
    }
}

/// Finds where the layers to be taken lie in an archive that the daemon saved. An archive that
/// lists another number of layers than the image gives none.
pub fn archive_targets(image: &DaemonImage, paths: &Vec<String>, diff_ids: &Vec<String>) -> (r:
    Variables)
    ensures
        r@ == if paths@.len() != image@.layers.len() {
            Map::<Seq<char>, Seq<char>>::empty()
        } else {
            targets_view(image@.layers, texts(paths@), texts(diff_ids@), paths@.len())
        },
{
    let mut targets = Variables::new();
    if paths.len() != image.layers.len() {
        return targets;
    }
    let mut i: usize = 0;
    while i < paths.len()
        invariant
            i <= paths@.len(),
            paths@.len() == image.layers@.len(),
            targets@ == targets_view(image@.layers, texts(paths@), texts(diff_ids@), i as nat),
        decreases paths@.len() - i,
    {
        assert(image@.layers[i as int] == image.layers@[i as int]@);
        assert(texts(paths@)[i as int] == paths@[i as int]@);
        if text::list_contains(diff_ids.as_slice(), image.layers[i].as_str()) {
            targets.insert(paths[i].clone(), image.layers[i].clone());
        }
        i += 1;
    }
    targets
}

/// Decides whether a member of an archive is a layer to be taken that was not taken yet.
pub fn layer_to_extract(targets: &Variables, path: &str, taken: &Variables) -> (r: Option<String>)
    ensures
        opt_string(r) == if targets@.contains_key(path@) && !taken@.contains_key(targets@[path@]) {
            Some(targets@[path@])
        } else {
            None
        },
{
    match targets.get(path) {
        None => None,
        Some(diff_id) => match taken.get(diff_id.as_str()) {
            Some(_) => None,
            None => Some(diff_id),
        },
    }
}

/// Where an extracted layer is kept below a directory.
pub open spec fn layer_file(
    family: HostFamily,
    root: Seq<char>,
    diff_id: Seq<char>,
) -> std::result::Result<Seq<char>, ErrorView> {
    match digest::parsed(diff_id) {
        Err(e) => Err(e),
        Ok((algorithm, value)) => Ok(
            path::join_view(family, root, algorithm.name_view() + "-"@ + value + ".tar"@),
        ),
    }
}

/// The file in which an extracted layer is kept below a directory.
pub fn extracted_layer_path(family: HostFamily, root: &str, diff_id: &str) -> (r: Result<String>)
    ensures
        layer_file(family, root@, diff_id@) == match r {
            Ok(file) => Ok(file@),
            Err(e) => Err(e@),
        },
{
    match digest::parse_digest(diff_id) {
        Err(e) => Err(e),
        Ok(parsed) => {
            let mut name = concat3(parsed.algorithm.name(), "-", parsed.value);
            name.append(".tar");
            Ok(path::join(family, root, name.as_str()))
        },
    }
}

/// Whether bytes start like a gzip stream.
pub fn is_gzip(head: &[u8]) -> (r: bool)
    ensures
        r == (head@.len() >= 2 && head@[0] == 0x1f && head@[1] == 0x8b),
{
    head.len() >= 2 && head[0] == 0x1f && head[1] == 0x8b
}

/// Checks that content, which was all fed to the run, has the digest that it should have.
pub fn check_digest(expected: &str, read: DigestRun) -> (r: Result<()>)
    ensures
        match r {
            Ok(()) => expected@ == read.digest(),
            Err(e) => expected@ != read.digest() && e@ == (ErrorView::DigestMismatch {
                expected: expected@,
                actual: read.digest(),
            }),
        },
{
    let actual = read.finish();
    if text::same(expected, actual.as_str()) {
        Ok(())
    } else {
        Err(DockerPullError::DigestMismatch { expected: expected.to_owned(), actual })
    }
}

/// The layers that were not found.
pub open spec fn missing_layers(
    diff_ids: Seq<Seq<char>>,
    found: Map<Seq<char>, Seq<char>>,
) -> Seq<Seq<char>>
    decreases diff_ids.len(),
{
    if diff_ids.len() == 0 {
        seq![]
    } else if found.contains_key(diff_ids[0]) {
        missing_layers(diff_ids.skip(1), found)
    } else {
        seq![diff_ids[0]] + missing_layers(diff_ids.skip(1), found)
    }
}

/// Checks that every layer was found.
pub fn ensure_all_found(diff_ids: &Vec<String>, found: &Variables) -> (r: Result<()>)
    ensures
        match r {
            Ok(()) => missing_layers(texts(diff_ids@), found@).len() == 0,
            Err(e) => missing_layers(texts(diff_ids@), found@).len() > 0 && e@
                == ErrorView::BadResponse(
                "docker daemon is missing required layer(s): "@ + text::join_view(
                    missing_layers(texts(diff_ids@), found@),
                    ", "@,
                ),
            ),
        },
{
    let ghost all = texts(diff_ids@);
    let ghost goal = missing_layers(all, found@);
    let mut missing: Vec<String> = Vec::new();
    assert(all.skip(0) =~= all);
    assert(texts(missing@) + goal =~= goal);
    let mut i: usize = 0;
    while i < diff_ids.len()
        invariant
            i <= diff_ids@.len(),
            all == texts(diff_ids@),
            goal == texts(missing@) + missing_layers(all.skip(i as int), found@),
        decreases diff_ids@.len() - i,
    {
        assert(all.skip(i as int).skip(1) =~= all.skip(i + 1));
        assert(all.skip(i as int)[0] == diff_ids@[i as int]@);
        match found.get(diff_ids[i].as_str()) {
            Some(_) => {},
            None => {
                let ghost before = missing@;
                missing.push(diff_ids[i].clone());
                assert(texts(missing@) =~= texts(before).push(diff_ids@[i as int]@));
                assert(texts(missing@) + missing_layers(all.skip(i + 1), found@) =~= texts(before)
                    + missing_layers(all.skip(i as int), found@));
            },
        }
        i += 1;
    }
    assert(texts(missing@) =~= goal);
    if missing.len() == 0 {
        Ok(())
    } else {
        Err(
            DockerPullError::BadResponse(
                concat2(
                    "docker daemon is missing required layer(s): ",
                    text::join(missing.as_slice(), ", ").as_str(),
                ),
            ),
        )
    }
}

/// An image is shown by its first tag, and by its identifier where it has none.
pub proof fn law_an_image_is_shown_by_a_tag(
    id: Seq<char>,
    tag: Seq<char>,
    tags: Seq<Seq<char>>,
    layers: Seq<Seq<char>>,
)
    ensures
        (DaemonImageView { id, repo_tags: Some(seq![tag] + tags), layers }).label() == tag,
        (DaemonImageView { id, repo_tags: Some(seq![]), layers }).label() == id,
        (DaemonImageView { id, repo_tags: None, layers }).label() == id,
{
}

/// The unpacked digests that are wanted are those of the layers, in their order, except where a
/// layer has none.
pub proof fn law_known_layers_are_wanted(layers: Seq<LayerSpecView>, layer: LayerSpecView)
    ensures
        known_diff_ids(Seq::<LayerSpecView>::empty()) == Seq::<Seq<char>>::empty(),
        layer.diff_id.len() == 0 ==> known_diff_ids(layers.push(layer)) == known_diff_ids(layers),
        layer.diff_id.len() > 0 ==> known_diff_ids(layers.push(layer)) == known_diff_ids(
            layers,
        ).push(layer.diff_id),
    decreases layers.len(),
{
    let all = layers.push(layer);
    if layers.len() == 0 {
        assert(all.skip(1) =~= layers);
        assert(all[0] == layer);
    } else {
        law_known_layers_are_wanted(layers.skip(1), layer);
        assert(all.skip(1) =~= layers.skip(1).push(layer));
        assert(all[0] == layers[0]);
    }
}

proof fn lemma_under_keys(
    map: Map<Seq<char>, Seq<char>>,
    keys: Seq<Seq<char>>,
    value: Seq<char>,
    x: Seq<char>,
)
    ensures
        under_keys(map, keys, value).contains_key(x) <==> map.contains_key(x) || keys.contains(x),
        keys.contains(x) ==> under_keys(map, keys, value)[x] == value,
        !keys.contains(x) ==> under_keys(map, keys, value)[x] == map[x],
    decreases keys.len(),
{
    if keys.len() > 0 {
        let front = keys.drop_last();
        lemma_under_keys(map, front, value, x);
        assert(keys =~= front.push(keys.last()));
        assert(keys.contains(x) <==> front.contains(x) || keys.last() == x) by {
            if keys.contains(x) {
                let j = choose|j: int| 0 <= j < keys.len() && keys[j] == x;
                if j < front.len() {
                    assert(front[j] == x);
                }
            }
            if front.contains(x) {
                let j = choose|j: int| 0 <= j < front.len() && front[j] == x;
                assert(keys[j] == x);
            }
            assert(keys[keys.len() - 1] == keys.last());
        }
    }
}

proof fn lemma_covered(images: Seq<DaemonImageView>, chosen: Seq<ChosenView>, x: Seq<char>)
    ensures
        coverage_view(images, chosen).contains_key(x) <==> exists|k: int|
            0 <= k < chosen.len() && (#[trigger] chosen[k]).diff_ids.contains(x),
        forall|k: int|
            0 <= k < chosen.len() && (#[trigger] chosen[k]).diff_ids.contains(x) && (forall|j: int|
                k < j < chosen.len() ==> !(#[trigger] chosen[j]).diff_ids.contains(x))
                ==> coverage_view(images, chosen)[x] == images[chosen[k].image].label(),
    decreases chosen.len(),
{
    if chosen.len() > 0 {
        let front = chosen.drop_last();
        lemma_covered(images, front, x);
        lemma_under_keys(
            coverage_view(images, front),
            chosen.last().diff_ids,
            images[chosen.last().image].label(),
            x,
        );
        assert(forall|k: int| 0 <= k < front.len() ==> #[trigger] front[k] == chosen[k]);
        let n = chosen.len() - 1;
        assert(chosen[n] == chosen.last());
        if coverage_view(images, front).contains_key(x) {
            let k = choose|k: int| 0 <= k < front.len() && (#[trigger] front[k]).diff_ids.contains(x);
            assert(chosen[k].diff_ids.contains(x));
        }
        if !chosen.last().diff_ids.contains(x) {
            if exists|k: int| 0 <= k < chosen.len() && (#[trigger] chosen[k]).diff_ids.contains(x) {
                let k = choose|k: int|
                    0 <= k < chosen.len() && (#[trigger] chosen[k]).diff_ids.contains(x);
                assert(front[k].diff_ids.contains(x));
            }
            assert forall|k: int|
                0 <= k < chosen.len() && (#[trigger] chosen[k]).diff_ids.contains(x) && (forall|
                    j: int,
                |
                    k < j < chosen.len() ==> !(#[trigger] chosen[j]).diff_ids.contains(
                        x,
                    )) implies coverage_view(images, chosen)[x] == images[chosen[k].image].label() by {
                assert(front[k].diff_ids.contains(x));
            }
        }
    }
}

/// A wanted layer is provided by the first image that has it, under the name of that image; what
/// no image has, or what is not wanted, is provided by none.
pub proof fn law_a_layer_is_provided_by_its_first_image(
    images: Seq<DaemonImageView>,
    wanted: Set<Seq<char>>,
    diff_id: Seq<char>,
    at: int,
)
    ensures
        ({
            let coverage = coverage_view(images, chosen_from(images, 0, wanted));
            &&& wanted.contains(diff_id) && 0 <= at < images.len() && images[at].layers.contains(
                diff_id,
            ) && (forall|j: int| 0 <= j < at ==> !(#[trigger] images[j]).layers.contains(diff_id))
                ==> coverage.contains_key(diff_id) && coverage[diff_id] == images[at].label()
            &&& !wanted.contains(diff_id) ==> !coverage.contains_key(diff_id)
            &&& (forall|j: int|
                0 <= j < images.len() ==> !(#[trigger] images[j]).layers.contains(diff_id))
                ==> !coverage.contains_key(diff_id)
        }),
{
    let chosen = chosen_from(images, 0, wanted);
    lemma_covered(images, chosen, diff_id);
    if coverage_view(images, chosen).contains_key(diff_id) {
        let k = choose|k: int|
            0 <= k < chosen.len() && (#[trigger] chosen[k]).diff_ids.contains(diff_id);
        law_each_layer_comes_from_its_first_image(images, wanted, diff_id, k);
        if 0 <= at < images.len() && images[at].layers.contains(diff_id) && (forall|j: int|
            0 <= j < at ==> !(#[trigger] images[j]).layers.contains(diff_id)) {
            let first = chosen[k].image;
            if first < at {
                assert(!images[first].layers.contains(diff_id));
            }
            assert(first == at);
        }
    } else if wanted.contains(diff_id) && 0 <= at < images.len() && images[at].layers.contains(
        diff_id,
    ) {
        law_what_can_be_provided_is_chosen(images, wanted, diff_id, at);
    }
}

/// In an archive of the daemon a layer is taken from the path at its place, where it is one of
/// those to be taken and no later layer lies at the same path; and other paths are left alone.
pub proof fn law_a_layer_lies_at_its_place(
    rootfs: Seq<Seq<char>>,
    paths: Seq<Seq<char>>,
    diff_ids: Seq<Seq<char>>,
    n: nat,
    path: Seq<char>,
)
    requires
        n <= rootfs.len(),
        n <= paths.len(),
    ensures
        forall|i: int|
            0 <= i < n && #[trigger] paths[i] == path && diff_ids.contains(rootfs[i]) && (forall|
                j: int,
            |
                i < j < n ==> #[trigger] paths[j] != path) ==> targets_view(
                rootfs,
                paths,
                diff_ids,
                n,
            ).contains_key(path) && targets_view(rootfs, paths, diff_ids, n)[path] == rootfs[i],
        (forall|i: int|
            0 <= i < n && #[trigger] paths[i] == path ==> !diff_ids.contains(rootfs[i]))
            ==> !targets_view(rootfs, paths, diff_ids, n).contains_key(path),
    decreases n,
{
    if n > 0 {
        law_a_layer_lies_at_its_place(rootfs, paths, diff_ids, (n - 1) as nat, path);
        assert(paths[n - 1] == path || paths[n - 1] != path);
    }
}

/// A layer is missing where it is to be taken and was not found; the missing ones come in the
/// order in which they are to be taken.
pub proof fn law_what_is_not_found_is_missing(
    diff_ids: Seq<Seq<char>>,
    diff_id: Seq<char>,
    found: Map<Seq<char>, Seq<char>>,
)
    ensures
        missing_layers(Seq::<Seq<char>>::empty(), found) == Seq::<Seq<char>>::empty(),
        found.contains_key(diff_id) ==> missing_layers(diff_ids.push(diff_id), found)
            == missing_layers(diff_ids, found),
        !found.contains_key(diff_id) ==> missing_layers(diff_ids.push(diff_id), found)
            == missing_layers(diff_ids, found).push(diff_id),
    decreases diff_ids.len(),
{
    let all = diff_ids.push(diff_id);
    if diff_ids.len() == 0 {
        assert(all.skip(1) =~= diff_ids);
        assert(all[0] == diff_id);
    } else {
        law_what_is_not_found_is_missing(diff_ids.skip(1), diff_id, found);
        assert(all.skip(1) =~= diff_ids.skip(1).push(diff_id));
        assert(all[0] == diff_ids[0]);
    }
}

/// On a Unix system an extracted layer lies in a file of the directory that has its digest for a
/// name, with a hyphen for the colon.
pub proof fn law_an_extracted_layer_lies_below_the_directory(root: Seq<char>, value: Seq<char>)
    requires
        root.len() > 0,
        root.last() != '/',
        value.len() == 64,
        digest::all_lower_hex(value),
    ensures
        layer_file(HostFamily::Unix, root, "sha256:"@ + value) == Ok::<Seq<char>, ErrorView>(
            root + "/sha256-"@ + value + ".tar"@,
        ),
        layer_file(HostFamily::Unix, root, value) is Err,
{
    reveal_strlit("sha256:");
    reveal_strlit("sha256");
    reveal_strlit(":");
    reveal_strlit("/sha256-");
    reveal_strlit("/");
    reveal_strlit("-");
    digest::law_digest_parses_back(digest::DigestAlgorithm::Sha256, value);
    assert("sha256:"@ + value =~= "sha256"@ + ":"@ + value);
    let name = "sha256"@ + "-"@ + value + ".tar"@;
    assert(name[0] == 's');
    assert(path::join_view(HostFamily::Unix, root, name) == root + "/"@ + name);
    assert(root + "/"@ + name =~= root + "/sha256-"@ + value + ".tar"@);
    text::lemma_find_char(value, ':');
    if text::find_char(value, ':') is Some {
        let i = text::find_char(value, ':')->0;
        assert(digest::is_lower_hex(value[i]));
    }
}

} // verus!
