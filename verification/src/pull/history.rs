//! What holds of the layers of a pull over a history of claims and releases.
use vstd::prelude::*;

use crate::pull::usage::{
    count_of, lemma_filtered, lemma_halves, lemma_lowered_all, lemma_raised_all, lemma_same_counts,
    users, CurrentPullLayers, LayerClaimGuard,
};
use crate::text;

verus! {

/// A step of a history.
pub enum UsageStep {
    /// Layers are claimed: those of an image of the plan, or others.
    Claim { image: Option<int>, digests: Seq<Seq<char>>, claim: LayerClaimGuard },
    /// The claim that was made in an earlier step is given back.
    Release(int),
}

/// Whether a claim was made in a step.
pub open spec fn is_claim(steps: Seq<UsageStep>, k: int) -> bool {
    0 <= k < steps.len() && steps[k] is Claim
}

/// Whether the claim of a step was given back.
pub open spec fn is_released(steps: Seq<UsageStep>, k: int) -> bool {
    exists|j: int| 0 <= j < steps.len() && #[trigger] steps[j] == UsageStep::Release(k)
}

/// Whether the claim of a step was made and not given back.
pub open spec fn is_live(steps: Seq<UsageStep>, k: int) -> bool {
    is_claim(steps, k) && !is_released(steps, k)
}

/// Whether a step leads from one state to another. Only a live claim can be given back.
pub open spec fn is_step(
    before: CurrentPullLayers,
    earlier: Seq<UsageStep>,
    step: UsageStep,
    after: CurrentPullLayers,
) -> bool {
    match step {
        UsageStep::Claim { digests, claim, .. } => before.claims(digests, claim, after),
        UsageStep::Release(k) => is_live(earlier, k) && before.releases(earlier[k]->claim, after),
    }
}

/// Whether the steps lead from each state to the next.
pub open spec fn is_history(states: Seq<CurrentPullLayers>, steps: Seq<UsageStep>) -> bool
    decreases steps.len(),
{
    &&& states.len() == steps.len() + 1
    &&& steps.len() > 0 ==> {
        &&& is_history(states.drop_last(), steps.drop_last())
        &&& is_step(states[states.len() - 2], steps.drop_last(), steps.last(), states.last())
    }
}

/// The live claims that use a layer which no plan foresaw.
pub open spec fn live_users(steps: Seq<UsageStep>, digest: Seq<char>) -> Set<int> {
    Set::new(|k: int| is_live(steps, k) && steps[k]->claim.unplanned().contains(digest))
}

/// Whether the claims that are made for images of the plan are made for their layers.
pub open spec fn claims_images(images: Seq<Seq<Seq<char>>>, steps: Seq<UsageStep>) -> bool {
    forall|k: int| #[trigger]
        is_claim(steps, k) ==> (steps[k]->image matches Some(i) ==> 0 <= i < images.len()
            && steps[k]->digests == images[i])
}

/// Whether all claims are made for images of the plan, and for each image at most once.
pub open spec fn follows_plan(images: Seq<Seq<Seq<char>>>, steps: Seq<UsageStep>) -> bool {
    &&& claims_images(images, steps)
    &&& forall|k: int| #[trigger] is_claim(steps, k) ==> steps[k]->image is Some
    &&& forall|k: int, m: int|
        #[trigger] is_claim(steps, k) && #[trigger] is_claim(steps, m) && k != m
            ==> steps[k]->image != steps[m]->image
}

/// Whether a step is the claim of an image.
pub open spec fn is_claim_of(steps: Seq<UsageStep>, k: int, image: int) -> bool {
    is_claim(steps, k) && steps[k]->image == Some(image)
}

/// Whether an image was claimed.
pub open spec fn was_claimed(steps: Seq<UsageStep>, image: int) -> bool {
    exists|k: int| #[trigger] is_claim_of(steps, k, image)
}

/// Whether a claim of an image was given back.
pub open spec fn is_done(steps: Seq<UsageStep>, image: int) -> bool {
    exists|k: int| #[trigger] is_claim_of(steps, k, image) && is_released(steps, k)
}

/// The images of the plan that have a layer and are not done.
pub open spec fn pending(
    images: Seq<Seq<Seq<char>>>,
    steps: Seq<UsageStep>,
    digest: Seq<char>,
) -> Set<int> {
    Set::new(
        |i: int| 0 <= i < images.len() && images[i].contains(digest) && !is_done(steps, i),
    )
}

/// Only claims of earlier steps are given back.
proof fn lemma_releases_look_back(states: Seq<CurrentPullLayers>, steps: Seq<UsageStep>)
    requires
        is_history(states, steps),
    ensures
        forall|k: int| #[trigger] is_released(steps, k) ==> is_claim(steps, k),
    decreases steps.len(),
{
    if steps.len() > 0 {
        let earlier = steps.drop_last();
        lemma_releases_look_back(states.drop_last(), earlier);
        assert forall|k: int| #[trigger] is_released(steps, k) implies is_claim(steps, k) by {
            let j = choose|j: int| 0 <= j < steps.len() && steps[j] == UsageStep::Release(k);
            if j < earlier.len() {
                assert(earlier[j] == UsageStep::Release(k));
                assert(is_released(earlier, k));
                assert(is_claim(earlier, k));
            } else {
                assert(is_live(earlier, k));
                assert(is_claim(earlier, k));
            }
        }
    }
}

/// How one more step changes which claims were made and given back.
proof fn lemma_last_step(states: Seq<CurrentPullLayers>, steps: Seq<UsageStep>, k: int)
    requires
        is_history(states, steps),
        steps.len() > 0,
    ensures
        ({
            let earlier = steps.drop_last();
            &&& is_claim(steps, k) <==> is_claim(earlier, k) || (k == earlier.len()
                && steps.last() is Claim)
            &&& is_claim(earlier, k) ==> steps[k] == earlier[k]
            &&& is_released(steps, k) <==> is_released(earlier, k) || steps.last()
                == UsageStep::Release(k)
            &&& is_released(earlier, k) ==> k < earlier.len()
        }),
{
    let earlier = steps.drop_last();
    lemma_releases_look_back(states.drop_last(), earlier);
    if is_released(steps, k) {
        let j = choose|j: int| 0 <= j < steps.len() && steps[j] == UsageStep::Release(k);
        if j < earlier.len() {
            assert(earlier[j] == UsageStep::Release(k));
        }
    }
    if is_released(earlier, k) {
        let j = choose|j: int| 0 <= j < earlier.len() && earlier[j] == UsageStep::Release(k);
        assert(steps[j] == UsageStep::Release(k));
    }
    if steps.last() == UsageStep::Release(k) {
        assert(steps[steps.len() - 1] == UsageStep::Release(k));
    }
}

/// Every state of a history is a good one, and has a plan where the first one has.
proof fn lemma_good_states(states: Seq<CurrentPullLayers>, steps: Seq<UsageStep>)
    requires
        is_history(states, steps),
        states[0].wf(),
    ensures
        states.last().wf(),
        states.last().has_plan() == states[0].has_plan(),
        forall|k: int| #[trigger] is_claim(steps, k) ==> steps[k]->claim.wf(),
    decreases steps.len(),
{
    if steps.len() > 0 {
        lemma_good_states(states.drop_last(), steps.drop_last());
        assert(states.drop_last()[0] == states[0]);
        assert(states.drop_last().last() == states[states.len() - 2]);
        assert forall|k: int| #[trigger] is_claim(steps, k) implies steps[k]->claim.wf() by {
            lemma_last_step(states, steps, k);
        }
    }
}

/// A layer that no plan foresaw counts once for each live claim that uses it.
proof fn lemma_active(
    states: Seq<CurrentPullLayers>,
    steps: Seq<UsageStep>,
    digest: Seq<char>,
)
    requires
        is_history(states, steps),
        states[0].wf(),
        states[0].active() == Map::<Seq<char>, usize>::empty(),
    ensures
        live_users(steps, digest).finite(),
        count_of(states.last().active(), digest) == live_users(steps, digest).len(),
    decreases steps.len(),
{
    let now = live_users(steps, digest);
    if steps.len() == 0 {
        assert(now =~= Set::<int>::empty());
    } else {
        let earlier = steps.drop_last();
        let prior = states[states.len() - 2];
        let last = states.last();
        assert(states.drop_last()[0] == states[0]);
        assert(states.drop_last().last() == prior);
        lemma_active(states.drop_last(), earlier, digest);
        lemma_good_states(states.drop_last(), earlier);
        let before = live_users(earlier, digest);
        assert forall|k: int| now.contains(k) == (is_live(steps, k)
            && steps[k]->claim.unplanned().contains(digest)) by {}
        match steps.last() {
            UsageStep::Claim { digests, claim, .. } => {
                let n = earlier.len() as int;
                lemma_halves(claim.planned(), claim.unplanned());
                assert forall|name: Seq<char>| #[trigger]
                    count_of(prior.active(), name) < usize::MAX by {
                    assert(count_of(prior.active(), name) <= prior.made());
                }
                lemma_raised_all(prior.active(), claim.unplanned());
                assert(!before.contains(n));
                assert forall|k: int|
                    now.contains(k) == (before.contains(k) || (k == n
                        && claim.unplanned().contains(digest))) by {
                    lemma_last_step(states, steps, k);
                }
                if claim.unplanned().contains(digest) {
                    assert(now =~= before.insert(n));
                } else {
                    assert(now =~= before);
                }
            },
            UsageStep::Release(m) => {
                let claim = earlier[m]->claim;
                assert(is_claim(earlier, m));
                lemma_halves(claim.planned(), claim.unplanned());
                lemma_lowered_all(prior.active(), claim.unplanned());
                assert forall|k: int| now.contains(k) == (before.contains(k) && k != m) by {
                    lemma_last_step(states, steps, k);
                }
                assert(now =~= before.remove(m));
                assert(before.contains(m) == claim.unplanned().contains(digest));
                if before.contains(m) {
                    if before.len() == 0 {
                        before.lemma_len0_is_empty();
                    }
                } else {
                    assert(now =~= before);
                }
            },
        }
    }
}

/// A finite set with an element has more than one where it has another.
proof fn lemma_more_than_one(s: Set<int>, k: int)
    requires
        s.finite(),
        s.contains(k),
    ensures
        s.len() > 1 <==> exists|j: int| j != k && #[trigger] s.contains(j),
{
    let rest = s.remove(k);
    assert(rest.len() == s.len() - 1);
    if s.len() > 1 {
        if forall|j: int| !rest.contains(j) {
            assert(rest =~= Set::<int>::empty());
        }
        let j = choose|j: int| rest.contains(j);
        assert(s.contains(j) && j != k);
    }
    if exists|j: int| j != k && #[trigger] s.contains(j) {
        let j = choose|j: int| j != k && #[trigger] s.contains(j);
        assert(rest.contains(j));
        if rest.len() == 0 {
            rest.lemma_len0_is_empty();
        }
    }
}

/// Without a plan, nothing is ever planned, and each claim is on its own layers.
proof fn lemma_unplanned(states: Seq<CurrentPullLayers>, steps: Seq<UsageStep>)
    requires
        is_history(states, steps),
        states[0].is_fresh(),
    ensures
        states.last().remaining() == Map::<Seq<char>, usize>::empty(),
        forall|k: int| #[trigger]
            is_claim(steps, k) ==> steps[k]->claim.planned() == Seq::<Seq<char>>::empty()
                && steps[k]->claim.unplanned() == text::unique_view(steps[k]->digests),
    decreases steps.len(),
{
    if steps.len() > 0 {
        let earlier = steps.drop_last();
        assert(states.drop_last()[0] == states[0]);
        assert(states.drop_last().last() == states[states.len() - 2]);
        lemma_unplanned(states.drop_last(), earlier);
        lemma_good_states(states.drop_last(), earlier);
        assert forall|k: int| #[trigger] is_claim(steps, k) implies steps[k]->claim.planned()
            == Seq::<Seq<char>>::empty() && steps[k]->claim.unplanned() == text::unique_view(
            steps[k]->digests,
        ) by {
            lemma_last_step(states, steps, k);
        }
        if let UsageStep::Release(m) = steps.last() {
            assert(is_claim(earlier, m));
        }
    }
}

/// Where nothing is planned, a claim protects exactly the layers that another live claim has too.
/// A layer that a claim names more than once counts once.
pub proof fn law_layers_of_other_claims_are_protected(
    states: Seq<CurrentPullLayers>,
    steps: Seq<UsageStep>,
    k: int,
    digest: Seq<char>,
)
    requires
        is_history(states, steps),
        states[0].is_fresh(),
        is_live(steps, k),
    ensures
        states.last().protected(steps[k]->claim).contains(digest) <==> steps[k]->digests.contains(
            digest,
        ) && exists|j: int|
            j != k && #[trigger] is_live(steps, j) && steps[j]->digests.contains(digest),
{
    let last = states.last();
    let claim = steps[k]->claim;
    lemma_good_states(states, steps);
    lemma_unplanned(states, steps);
    lemma_active(states, steps, digest);
    lemma_filtered(
        claim.planned() + claim.unplanned(),
        |d: Seq<char>| last.uses(d) > 1,
    );
    assert(claim.planned() + claim.unplanned() =~= claim.unplanned());
    let set = live_users(steps, digest);
    assert forall|j: int| #[trigger] set.contains(j) == (is_live(steps, j)
        && steps[j]->digests.contains(digest)) by {
        if is_live(steps, j) {
            text::law_unique_keeps_first_occurrences(steps[j]->digests);
        }
    }
    if steps[k]->digests.contains(digest) {
        assert(set.contains(k));
        lemma_more_than_one(set, k);
        if exists|j: int| j != k && #[trigger] set.contains(j) {
            let j = choose|j: int| j != k && #[trigger] set.contains(j);
            assert(is_live(steps, j));
        }
        if exists|j: int|
            j != k && #[trigger] is_live(steps, j) && steps[j]->digests.contains(digest) {
            let j = choose|j: int|
                j != k && #[trigger] is_live(steps, j) && steps[j]->digests.contains(digest);
            assert(set.contains(j));
        }
    } else {
        assert(!claim.unplanned().contains(digest)) by {
            text::law_unique_keeps_first_occurrences(steps[k]->digests);
        }
    }
}

/// The images that have a layer are as many as there are users of it.
proof fn lemma_images_with(images: Seq<Seq<Seq<char>>>, digest: Seq<char>)
    ensures
        ({
            let set = Set::new(|i: int| 0 <= i < images.len() && images[i].contains(digest));
            set.finite() && set.len() == users(images, digest)
        }),
    decreases images.len(),
{
    let set = Set::new(|i: int| 0 <= i < images.len() && images[i].contains(digest));
    if images.len() == 0 {
        assert(set =~= Set::<int>::empty());
    } else {
        let shorter = images.drop_last();
        let n = shorter.len() as int;
        let before = Set::new(|i: int| 0 <= i < shorter.len() && shorter[i].contains(digest));
        lemma_images_with(shorter, digest);
        if images.last().contains(digest) {
            assert(set =~= before.insert(n));
        } else {
            assert(set =~= before);
        }
    }
}

/// How one more step changes which images are pending.
proof fn lemma_pending(
    images: Seq<Seq<Seq<char>>>,
    states: Seq<CurrentPullLayers>,
    steps: Seq<UsageStep>,
    digest: Seq<char>,
)
    requires
        is_history(states, steps),
        steps.len() > 0,
    ensures
        ({
            let earlier = steps.drop_last();
            match steps.last() {
                UsageStep::Claim { .. } => pending(images, steps, digest) == pending(
                    images,
                    earlier,
                    digest,
                ),
                UsageStep::Release(m) => pending(images, steps, digest)
                    == match earlier[m]->image {
                    Some(i) => pending(images, earlier, digest).remove(i),
                    None => pending(images, earlier, digest),
                },
            }
        }),
{
    let earlier = steps.drop_last();
    assert forall|i: int| is_done(steps, i) == (is_done(earlier, i) || (steps.last() matches
        UsageStep::Release(m) && earlier[m]->image == Some(i))) by {
        if is_done(steps, i) {
            let k = choose|k: int| #[trigger] is_claim_of(steps, k, i) && is_released(steps, k);
            lemma_last_step(states, steps, k);
            if is_released(earlier, k) {
                assert(is_claim_of(earlier, k, i));
            }
        }
        if is_done(earlier, i) {
            let k = choose|k: int| #[trigger] is_claim_of(earlier, k, i) && is_released(earlier, k);
            lemma_last_step(states, steps, k);
            assert(is_claim_of(steps, k, i));
        }
        if let UsageStep::Release(m) = steps.last() {
            if earlier[m]->image == Some(i) {
                lemma_last_step(states, steps, m);
                assert(is_claim_of(steps, m, i));
            }
        }
    }
    match steps.last() {
        UsageStep::Claim { .. } => {
            assert(pending(images, steps, digest) =~= pending(images, earlier, digest));
        },
        UsageStep::Release(m) => match earlier[m]->image {
            Some(i) => {
                assert(pending(images, steps, digest) =~= pending(images, earlier, digest).remove(
                    i,
                ));
            },
            None => {
                assert(pending(images, steps, digest) =~= pending(images, earlier, digest));
            },
        },
    }
}

/// Before the first step, the images that have a layer are pending.
proof fn lemma_pending_at_first(images: Seq<Seq<Seq<char>>>, digest: Seq<char>)
    ensures
        ({
            let set = pending(images, Seq::<UsageStep>::empty(), digest);
            set.finite() && set.len() == users(images, digest)
        }),
{
    lemma_images_with(images, digest);
    assert(pending(images, Seq::<UsageStep>::empty(), digest) =~= Set::new(
        |i: int| 0 <= i < images.len() && images[i].contains(digest),
    ));
}

/// No more uses of a layer are planned than images with it are pending, and while one is, every
/// claim that names the layer has it as a planned one.
proof fn lemma_remaining(
    images: Seq<Seq<Seq<char>>>,
    states: Seq<CurrentPullLayers>,
    steps: Seq<UsageStep>,
    digest: Seq<char>,
)
    requires
        is_history(states, steps),
        states[0].plans(images),
        claims_images(images, steps),
    ensures
        pending(images, steps, digest).finite(),
        count_of(states.last().remaining(), digest) <= pending(images, steps, digest).len(),
        count_of(states.last().remaining(), digest) > 0 ==> forall|k: int| #[trigger]
            is_claim(steps, k) && steps[k]->digests.contains(digest)
                ==> steps[k]->claim.planned().contains(digest),
    decreases steps.len(),
{
    if steps.len() == 0 {
        assert(steps =~= Seq::<UsageStep>::empty());
        lemma_pending_at_first(images, digest);
        assert(count_of(states[0].remaining(), digest) == users(images, digest));
    } else {
        let earlier = steps.drop_last();
        let prior = states[states.len() - 2];
        let last = states.last();
        assert(states.drop_last()[0] == states[0]);
        assert(states.drop_last().last() == prior);
        assert(claims_images(images, earlier)) by {
            assert forall|k: int| #[trigger] is_claim(earlier, k) implies (
            earlier[k]->image matches Some(i) ==> 0 <= i < images.len() && earlier[k]->digests
                == images[i]) by {
                lemma_last_step(states, steps, k);
            }
        }
        lemma_remaining(images, states.drop_last(), earlier, digest);
        lemma_good_states(states.drop_last(), earlier);
        lemma_pending(images, states, steps, digest);
        match steps.last() {
            UsageStep::Claim { digests, claim, .. } => {
                text::law_unique_keeps_first_occurrences(digests);
                lemma_filtered(
                    text::unique_view(digests),
                    |name: Seq<char>| prior.remaining().contains_key(name),
                );
                if count_of(last.remaining(), digest) > 0 {
                    assert forall|k: int| #[trigger]
                        is_claim(steps, k) && steps[k]->digests.contains(
                            digest,
                        ) implies steps[k]->claim.planned().contains(digest) by {
                        lemma_last_step(states, steps, k);
                    }
                }
            },
            UsageStep::Release(m) => {
                let claim = earlier[m]->claim;
                assert(is_claim(earlier, m));
                lemma_halves(claim.planned(), claim.unplanned());
                lemma_lowered_all(prior.remaining(), claim.planned());
                let before = pending(images, earlier, digest);
                if let Some(i) = earlier[m]->image {
                    if before.contains(i) {
                        assert(images[i] == earlier[m]->digests);
                        if before.len() == 0 {
                            before.lemma_len0_is_empty();
                        }
                    } else {
                        assert(before.remove(i) =~= before);
                    }
                }
                if count_of(last.remaining(), digest) > 0 {
                    assert forall|k: int| #[trigger]
                        is_claim(steps, k) && steps[k]->digests.contains(
                            digest,
                        ) implies steps[k]->claim.planned().contains(digest) by {
                        lemma_last_step(states, steps, k);
                    }
                }
            },
        }
    }
}

/// Nothing is counted where no layer has a use left.
proof fn lemma_nothing_counted(usage: CurrentPullLayers)
    requires
        usage.wf(),
        forall|digest: Seq<char>| #[trigger] count_of(usage.remaining(), digest) <= 0,
        forall|digest: Seq<char>| #[trigger] count_of(usage.active(), digest) <= 0,
    ensures
        usage.size() == 0,
{
    let none = Map::<Seq<char>, usize>::empty();
    assert forall|digest: Seq<char>| #[trigger] count_of(usage.remaining(), digest) == count_of(
        none,
        digest,
    ) by {}
    assert forall|digest: Seq<char>| #[trigger] count_of(usage.active(), digest) == count_of(
        none,
        digest,
    ) by {}
    lemma_same_counts(usage.remaining(), none);
    lemma_same_counts(usage.active(), none);
}

/// Where nothing is planned, no layer is counted once every claim was given back.
pub proof fn law_the_last_release_leaves_nothing(
    states: Seq<CurrentPullLayers>,
    steps: Seq<UsageStep>,
)
    requires
        is_history(states, steps),
        states[0].is_fresh(),
        forall|k: int| !is_live(steps, k),
    ensures
        states.last().size() == 0,
{
    lemma_good_states(states, steps);
    lemma_unplanned(states, steps);
    assert forall|digest: Seq<char>| #[trigger]
        count_of(states.last().active(), digest) <= 0 by {
        lemma_active(states, steps, digest);
        assert(live_users(steps, digest) =~= Set::<int>::empty());
    }
    lemma_nothing_counted(states.last());
}

/// Where images are planned and each of them was claimed, whatever was claimed besides, no layer is
/// counted once every claim was given back.
pub proof fn law_the_last_release_of_a_plan_leaves_nothing(
    images: Seq<Seq<Seq<char>>>,
    states: Seq<CurrentPullLayers>,
    steps: Seq<UsageStep>,
)
    requires
        is_history(states, steps),
        states[0].plans(images),
        claims_images(images, steps),
        forall|i: int| 0 <= i < images.len() ==> #[trigger] was_claimed(steps, i),
        forall|k: int| !is_live(steps, k),
    ensures
        states.last().size() == 0,
{
    lemma_good_states(states, steps);
    assert forall|digest: Seq<char>| #[trigger]
        count_of(states.last().active(), digest) <= 0 by {
        lemma_active(states, steps, digest);
        assert(live_users(steps, digest) =~= Set::<int>::empty());
    }
    assert forall|digest: Seq<char>| #[trigger]
        count_of(states.last().remaining(), digest) <= 0 by {
        lemma_remaining(images, states, steps, digest);
        assert forall|i: int| !pending(images, steps, digest).contains(i) by {
            if 0 <= i < images.len() {
                assert(was_claimed(steps, i));
                let k = choose|k: int| #[trigger] is_claim_of(steps, k, i);
                assert(!is_live(steps, k));
                assert(is_released(steps, k));
                assert(is_done(steps, i));
            }
        }
        assert(pending(images, steps, digest) =~= Set::<int>::empty());
    }
    lemma_nothing_counted(states.last());
}

/// Where all claims follow the plan, every claim is planned, and a layer has one use left for each
/// pending image that has it.
proof fn lemma_planned(
    images: Seq<Seq<Seq<char>>>,
    states: Seq<CurrentPullLayers>,
    steps: Seq<UsageStep>,
)
    requires
        is_history(states, steps),
        states[0].plans(images),
        follows_plan(images, steps),
    ensures
        states.last().active() == Map::<Seq<char>, usize>::empty(),
        forall|k: int| #[trigger]
            is_claim(steps, k) ==> steps[k]->claim.unplanned() == Seq::<Seq<char>>::empty(),
        forall|k: int, digest: Seq<char>|
            #![trigger steps[k]->claim.planned().contains(digest)]
            is_claim(steps, k) ==> (steps[k]->claim.planned().contains(digest)
                <==> steps[k]->digests.contains(digest)),
        forall|digest: Seq<char>| #[trigger]
            pending(images, steps, digest).finite() && count_of(states.last().remaining(), digest)
                == pending(images, steps, digest).len(),
    decreases steps.len(),
{
    if steps.len() == 0 {
        assert(steps =~= Seq::<UsageStep>::empty());
        assert forall|digest: Seq<char>| #[trigger]
            pending(images, steps, digest).finite() && count_of(states.last().remaining(), digest)
                == pending(images, steps, digest).len() by {
            lemma_pending_at_first(images, digest);
            assert(count_of(states[0].remaining(), digest) == users(images, digest));
        }
    } else {
        let earlier = steps.drop_last();
        let prior = states[states.len() - 2];
        let last = states.last();
        assert(states.drop_last()[0] == states[0]);
        assert(states.drop_last().last() == prior);
        assert forall|k: int| #[trigger] is_claim(earlier, k) implies is_claim(steps, k)
            && steps[k] == earlier[k] by {
            lemma_last_step(states, steps, k);
        }
        lemma_planned(images, states.drop_last(), earlier);
        lemma_good_states(states.drop_last(), earlier);
        match steps.last() {
            UsageStep::Claim { image, digests, claim } => {
                let n = earlier.len() as int;
                assert(is_claim(steps, n));
                let i = image->0;
                text::law_unique_keeps_first_occurrences(digests);
                let names = text::unique_view(digests);
                assert forall|digest: Seq<char>| names.contains(digest) implies #[trigger]
                    prior.remaining().contains_key(digest) by {
                    let set = pending(images, earlier, digest);
                    assert(set.finite());
                    assert(!is_done(earlier, i)) by {
                        if is_done(earlier, i) {
                            let k = choose|k: int| #[trigger]
                                is_claim_of(earlier, k, i) && is_released(earlier, k);
                            assert(is_claim(earlier, k));
                            assert(is_claim(steps, k));
                        }
                    }
                    assert(set.contains(i));
                    if set.len() == 0 {
                        set.lemma_len0_is_empty();
                    }
                    assert(count_of(prior.remaining(), digest) > 0);
                }
                lemma_filtered(
                    names,
                    |name: Seq<char>| prior.remaining().contains_key(name),
                );
                lemma_filtered(
                    names,
                    |name: Seq<char>| !prior.remaining().contains_key(name),
                );
                assert(claim.unplanned() =~= Seq::<Seq<char>>::empty()) by {
                    if claim.unplanned().len() > 0 {
                        assert(claim.unplanned().contains(claim.unplanned()[0]));
                    }
                }
                assert forall|k: int| #[trigger]
                    is_claim(steps, k) implies steps[k]->claim.unplanned()
                    == Seq::<Seq<char>>::empty() by {
                    lemma_last_step(states, steps, k);
                }
                assert forall|k: int, digest: Seq<char>|
                    #![trigger steps[k]->claim.planned().contains(digest)]
                    is_claim(steps, k) implies (steps[k]->claim.planned().contains(digest)
                    <==> steps[k]->digests.contains(digest)) by {
                    lemma_last_step(states, steps, k);
                    if is_claim(earlier, k) {
                        assert(earlier[k]->claim.planned().contains(digest)
                            <==> earlier[k]->digests.contains(digest));
                    }
                }
                assert forall|digest: Seq<char>| #[trigger]
                    pending(images, steps, digest).finite() && count_of(last.remaining(), digest)
                        == pending(images, steps, digest).len() by {
                    lemma_pending(images, states, steps, digest);
                    assert(pending(images, earlier, digest).finite());
                }
            },
            UsageStep::Release(m) => {
                let claim = earlier[m]->claim;
                assert(is_claim(earlier, m));
                assert(is_claim(steps, m));
                let i = earlier[m]->image->0;
                lemma_halves(claim.planned(), claim.unplanned());
                lemma_lowered_all(prior.remaining(), claim.planned());
                assert forall|k: int| #[trigger]
                    is_claim(steps, k) implies steps[k]->claim.unplanned()
                    == Seq::<Seq<char>>::empty() by {
                    lemma_last_step(states, steps, k);
                }
                assert forall|k: int, digest: Seq<char>|
                    #![trigger steps[k]->claim.planned().contains(digest)]
                    is_claim(steps, k) implies (steps[k]->claim.planned().contains(digest)
                    <==> steps[k]->digests.contains(digest)) by {
                    lemma_last_step(states, steps, k);
                    assert(earlier[k]->claim.planned().contains(digest)
                        <==> earlier[k]->digests.contains(digest));
                }
                assert(!is_done(earlier, i)) by {
                    if is_done(earlier, i) {
                        let k = choose|k: int| #[trigger]
                            is_claim_of(earlier, k, i) && is_released(earlier, k);
                        assert(is_claim(earlier, k));
                        assert(is_claim(steps, k));
                    }
                }
                assert forall|digest: Seq<char>| #[trigger]
                    pending(images, steps, digest).finite() && count_of(last.remaining(), digest)
                        == pending(images, steps, digest).len() by {
                    lemma_pending(images, states, steps, digest);
                    let before = pending(images, earlier, digest);
                    assert(before.finite());
                    assert(claim.planned().contains(digest) <==> earlier[m]->digests.contains(
                        digest,
                    ));
                    assert(images[i] == steps[m]->digests);
                    assert(before.contains(i) == images[i].contains(digest));
                    if before.contains(i) {
                        if before.len() == 0 {
                            before.lemma_len0_is_empty();
                        }
                    } else {
                        assert(before.remove(i) =~= before);
                    }
                }
            },
        }
    }
}

/// Where all claims follow the plan, the claim of an image protects exactly the layers that another
/// image of the plan has too whose claim was not given back yet, whether it was made or not.
pub proof fn law_layers_of_planned_images_are_protected(
    images: Seq<Seq<Seq<char>>>,
    states: Seq<CurrentPullLayers>,
    steps: Seq<UsageStep>,
    k: int,
    i: int,
    digest: Seq<char>,
)
    requires
        is_history(states, steps),
        states[0].plans(images),
        follows_plan(images, steps),
        is_live(steps, k),
        is_claim_of(steps, k, i),
    ensures
        states.last().protected(steps[k]->claim).contains(digest) <==> images[i].contains(digest)
            && exists|j: int|
            j != i && 0 <= j < images.len() && #[trigger] images[j].contains(digest) && !is_done(
                steps,
                j,
            ),
{
    let last = states.last();
    let claim = steps[k]->claim;
    lemma_good_states(states, steps);
    lemma_planned(images, states, steps);
    assert(is_claim(steps, k));
    lemma_filtered(
        claim.planned() + claim.unplanned(),
        |d: Seq<char>| last.uses(d) > 1,
    );
    assert(claim.planned() + claim.unplanned() =~= claim.planned());
    let set = pending(images, steps, digest);
    assert(set.finite());
    assert(claim.planned().contains(digest) <==> steps[k]->digests.contains(digest));
    assert(images[i] == steps[k]->digests);
    assert(!is_done(steps, i)) by {
        if is_done(steps, i) {
            let m = choose|m: int| #[trigger] is_claim_of(steps, m, i) && is_released(steps, m);
            assert(is_claim(steps, m));
        }
    }
    if images[i].contains(digest) {
        assert(set.contains(i));
        lemma_more_than_one(set, i);
        if exists|j: int| j != i && #[trigger] set.contains(j) {
            let j = choose|j: int| j != i && #[trigger] set.contains(j);
            assert(images[j].contains(digest));
        }
        if exists|j: int|
            j != i && 0 <= j < images.len() && #[trigger] images[j].contains(digest) && !is_done(
                steps,
                j,
            ) {
            let j = choose|j: int|
                j != i && 0 <= j < images.len() && #[trigger] images[j].contains(digest)
                    && !is_done(steps, j);
            assert(set.contains(j));
        }
    }
}

/// Where all claims follow the plan, a further claim of an image changes neither how many layers
/// are counted nor what any claim protects: the plan counts the image already.
pub proof fn law_a_planned_claim_changes_no_count(
    images: Seq<Seq<Seq<char>>>,
    states: Seq<CurrentPullLayers>,
    steps: Seq<UsageStep>,
    claim: LayerClaimGuard,
)
    requires
        is_history(states, steps),
        states[0].plans(images),
        follows_plan(images, steps),
        steps.len() > 0,
        steps.last() is Claim,
    ensures
        states.last().size() == states[states.len() - 2].size(),
        states.last().protected(claim) == states[states.len() - 2].protected(claim),
{
    let earlier = steps.drop_last();
    let prior = states[states.len() - 2];
    let last = states.last();
    assert(states.drop_last()[0] == states[0]);
    assert(states.drop_last().last() == prior);
    assert forall|k: int| #[trigger] is_claim(earlier, k) implies is_claim(steps, k) && steps[k]
        == earlier[k] by {
        lemma_last_step(states, steps, k);
    }
    lemma_planned(images, states.drop_last(), earlier);
    lemma_planned(images, states, steps);
    assert((|digest: Seq<char>| last.uses(digest) > 1) =~= (|digest: Seq<char>|
        prior.uses(digest) > 1));
}

} // verus!
