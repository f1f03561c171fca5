//! How many images of the current pull use each layer, and who works on a blob.
use vstd::hash_map::StringHashMap;
use vstd::prelude::*;

use crate::text::{self, texts};

verus! {

/// How often each name is in use.
pub struct Counts {
    counts: StringHashMap<usize>,
}

/// How often a name is in use.
pub open spec fn count_of(counts: Map<Seq<char>, usize>, name: Seq<char>) -> int {
    if counts.contains_key(name) {
        counts[name] as int
    } else {
        0
    }
}

/// Whether every name that is kept is in use.
pub open spec fn all_used(counts: Map<Seq<char>, usize>) -> bool {
    forall|name: Seq<char>| #[trigger] counts.contains_key(name) ==> counts[name] > 0
}

impl View for Counts {
    type V = Map<Seq<char>, usize>;

    closed spec fn view(&self) -> Map<Seq<char>, usize> {
        self.counts@
    }
}

impl Counts {
    /// Nothing is in use.
    pub fn new() -> (c: Counts)
        ensures
            c@ == Map::<Seq<char>, usize>::empty(),
            all_used(c@),
    {
        Counts { counts: StringHashMap::new() }
    }

    /// How often a name is in use.
    pub fn get(&self, name: &str) -> (n: usize)
        ensures
            n == count_of(self@, name@),
    {
        match self.counts.get(name) {
            Some(n) => *n,
            None => 0,
        }
    }

    /// Whether a name is kept.
    pub fn contains(&self, name: &str) -> (r: bool)
        ensures
            r == self@.contains_key(name@),
    {
        self.counts.contains_key(name)
    }

    /// How many names are in use.
    pub fn len(&self) -> (n: usize)
        ensures
            n == self@.len(),
    {
        self.counts.len()
    }

    /// Uses a name once more.
    pub fn increment(&mut self, name: &str)
        requires
            count_of(old(self)@, name@) < usize::MAX,
        ensures
            final(self)@ == old(self)@.insert(name@, (count_of(old(self)@, name@) + 1) as usize),
            all_used(old(self)@) ==> all_used(final(self)@),
    {
        let n = self.get(name);
        self.counts.insert(name.to_owned(), n + 1);
    }

    /// Uses a name once less. A name that is not in use any more is not kept.
    pub fn decrement(&mut self, name: &str)
        requires
            all_used(old(self)@),
        ensures
            final(self)@ == lowered(old(self)@, name@),
            all_used(final(self)@),
    {
        let n = self.get(name);
        if n > 1 {
            self.counts.insert(name.to_owned(), n - 1);
        } else if n == 1 {
            self.counts.remove(name);
        }
    }
}

/// The counts with a name in use once less.
pub open spec fn lowered(counts: Map<Seq<char>, usize>, name: Seq<char>) -> Map<Seq<char>, usize> {
    if count_of(counts, name) > 1 {
        counts.insert(name, (counts[name] - 1) as usize)
    } else {
        counts.remove(name)
    }
}

/// The counts with each name of a list in use once more.
pub open spec fn raised_all(counts: Map<Seq<char>, usize>, names: Seq<Seq<char>>) -> Map<
    Seq<char>,
    usize,
>
    decreases names.len(),
{
    if names.len() == 0 {
        counts
    } else {
        let before = raised_all(counts, names.drop_last());
        before.insert(names.last(), (count_of(before, names.last()) + 1) as usize)
    }
}

/// The counts with each name of a list in use once less.
pub open spec fn lowered_all(counts: Map<Seq<char>, usize>, names: Seq<Seq<char>>) -> Map<
    Seq<char>,
    usize,
>
    decreases names.len(),
{
    if names.len() == 0 {
        counts
    } else {
        lowered(lowered_all(counts, names.drop_last()), names.last())
    }
}

/// Raising each name of a list without repetitions raises its count by one, and no other.
pub proof fn lemma_raised_all(counts: Map<Seq<char>, usize>, names: Seq<Seq<char>>)
    requires
        names.no_duplicates(),
        forall|name: Seq<char>| #[trigger] count_of(counts, name) < usize::MAX,
    ensures
        forall|name: Seq<char>| #[trigger]
            count_of(raised_all(counts, names), name) == count_of(counts, name) + if names.contains(
                name,
            ) {
                1int
            } else {
                0
            },
        all_used(counts) ==> all_used(raised_all(counts, names)),
    decreases names.len(),
{
    if names.len() > 0 {
        let shorter = names.drop_last();
        assert(shorter.no_duplicates());
        lemma_raised_all(counts, shorter);
        let before = raised_all(counts, shorter);
        let after = raised_all(counts, names);
        assert(!shorter.contains(names.last())) by {
            if shorter.contains(names.last()) {
                let j = choose|j: int| 0 <= j < shorter.len() && shorter[j] == names.last();
                assert(names[j] == names[names.len() - 1]);
            }
        }
        assert(count_of(before, names.last()) == count_of(counts, names.last()));
        assert forall|name: Seq<char>| #[trigger]
            count_of(after, name) == count_of(counts, name) + if names.contains(name) {
                1int
            } else {
                0
            } by {
            assert(count_of(before, name) == count_of(counts, name) + if shorter.contains(name) {
                1int
            } else {
                0
            });
            if name == names.last() {
                assert(names[names.len() - 1] == name);
                assert(names.contains(name));
            } else {
                assert(names.contains(name) == shorter.contains(name)) by {
                    if names.contains(name) {
                        let j = choose|j: int| 0 <= j < names.len() && names[j] == name;
                        assert(shorter[j] == name);
                    }
                    if shorter.contains(name) {
                        let j = choose|j: int| 0 <= j < shorter.len() && shorter[j] == name;
                        assert(names[j] == name);
                    }
                }
            }
        }
    }
}

/// Lowering each name of a list without repetitions lowers its count by one, and no other.
pub proof fn lemma_lowered_all(counts: Map<Seq<char>, usize>, names: Seq<Seq<char>>)
    requires
        names.no_duplicates(),
        all_used(counts),
    ensures
        all_used(lowered_all(counts, names)),
        forall|name: Seq<char>| #[trigger]
            count_of(lowered_all(counts, names), name) == if names.contains(name) && count_of(
                counts,
                name,
            ) > 0 {
                count_of(counts, name) - 1
            } else {
                count_of(counts, name)
            },
    decreases names.len(),
{
    if names.len() > 0 {
        let shorter = names.drop_last();
        assert(shorter.no_duplicates());
        lemma_lowered_all(counts, shorter);
        let before = lowered_all(counts, shorter);
        let after = lowered_all(counts, names);
        assert(!shorter.contains(names.last())) by {
            if shorter.contains(names.last()) {
                let j = choose|j: int| 0 <= j < shorter.len() && shorter[j] == names.last();
                assert(names[j] == names[names.len() - 1]);
            }
        }
        assert(count_of(before, names.last()) == count_of(counts, names.last()));
        assert forall|name: Seq<char>| #[trigger]
            count_of(after, name) == if names.contains(name) && count_of(counts, name) > 0 {
                count_of(counts, name) - 1
            } else {
                count_of(counts, name)
            } by {
            assert(count_of(before, name) == if shorter.contains(name) && count_of(counts, name)
                > 0 {
                count_of(counts, name) - 1
            } else {
                count_of(counts, name)
            });
            if name == names.last() {
                assert(names[names.len() - 1] == name);
                assert(names.contains(name));
            } else {
                assert(names.contains(name) == shorter.contains(name)) by {
                    if names.contains(name) {
                        let j = choose|j: int| 0 <= j < names.len() && names[j] == name;
                        assert(shorter[j] == name);
                    }
                    if shorter.contains(name) {
                        let j = choose|j: int| 0 <= j < shorter.len() && shorter[j] == name;
                        assert(names[j] == name);
                    }
                }
            }
        }
    }
}

/// Counts that are kept only where they are used are equal where they count the same.
pub proof fn lemma_same_counts(a: Map<Seq<char>, usize>, b: Map<Seq<char>, usize>)
    requires
        all_used(a),
        all_used(b),
        forall|name: Seq<char>| #[trigger] count_of(a, name) == count_of(b, name),
    ensures
        a == b,
{
    assert forall|name: Seq<char>| a.contains_key(name) == b.contains_key(name) by {
        assert(count_of(a, name) == count_of(b, name));
    }
    assert forall|name: Seq<char>| a.contains_key(name) implies a[name] == b[name] by {
        assert(count_of(a, name) == count_of(b, name));
    }
    assert(a =~= b);
}

/// Uses that come and go leave the counts as they were.
pub proof fn law_raising_and_lowering_cancel(
    counts: Map<Seq<char>, usize>,
    names: Seq<Seq<char>>,
)
    requires
        all_used(counts),
        names.no_duplicates(),
        forall|name: Seq<char>| #[trigger] count_of(counts, name) < usize::MAX,
    ensures
        lowered_all(raised_all(counts, names), names) == counts,
{
    lemma_raised_all(counts, names);
    lemma_lowered_all(raised_all(counts, names), names);
    assert forall|name: Seq<char>| #[trigger]
        count_of(lowered_all(raised_all(counts, names), names), name) == count_of(counts, name) by {
        assert(count_of(raised_all(counts, names), name) == count_of(counts, name)
            + if names.contains(name) {
            1int
        } else {
            0
        });
    }
    lemma_same_counts(lowered_all(raised_all(counts, names), names), counts);
}

/// The names for which a plan has uses left.
pub open spec fn planned_part(
    planned: Map<Seq<char>, usize>,
    names: Seq<Seq<char>>,
) -> Seq<Seq<char>> {
    names.filter(|name: Seq<char>| planned.contains_key(name))
}

/// The names for which a plan has no uses left.
pub open spec fn unplanned_part(
    planned: Map<Seq<char>, usize>,
    names: Seq<Seq<char>>,
) -> Seq<Seq<char>> {
    names.filter(|name: Seq<char>| !planned.contains_key(name))
}

/// The layers that an image uses.
pub struct LayerClaimGuard {
    pub planned_digests: Vec<String>,
    pub unplanned_digests: Vec<String>,
}

impl LayerClaimGuard {
    /// The planned layers.
    pub open spec fn planned(self) -> Seq<Seq<char>> {
        texts(self.planned_digests@)
    }

    /// The layers that no plan foresaw.
    pub open spec fn unplanned(self) -> Seq<Seq<char>> {
        texts(self.unplanned_digests@)
    }

    /// Whether the claim names every layer once.
    pub open spec fn wf(self) -> bool {
        (self.planned() + self.unplanned()).no_duplicates()
    }
}

/// Which layers the images of the current pull use. Layers of planned images are counted from the
/// beginning, others while they are claimed.
pub struct CurrentPullLayers {
    planned_remaining: Counts,
    active_unplanned: Counts,
    planned: bool,
    claims_made: usize,
}

impl CurrentPullLayers {
    /// How many planned images that are not done yet use each layer.
    pub closed spec fn remaining(self) -> Map<Seq<char>, usize> {
        self.planned_remaining@
    }

    /// How many claims that no plan foresaw are on each layer.
    pub closed spec fn active(self) -> Map<Seq<char>, usize> {
        self.active_unplanned@
    }

    /// Whether there is a plan.
    pub closed spec fn has_plan(self) -> bool {
        self.planned
    }

    /// How many claims were made.
    pub closed spec fn made(self) -> int {
        self.claims_made as int
    }

    /// Only layers in use are kept, and none has more claims than were made.
    pub open spec fn wf(self) -> bool {
        &&& all_used(self.remaining())
        &&& all_used(self.active())
        &&& self.made() <= usize::MAX
        &&& forall|name: Seq<char>| #[trigger] count_of(self.active(), name) <= self.made()
    }

    /// How many uses of a layer are left: those that are planned, and those that are claimed
    /// besides.
    pub open spec fn uses(self, digest: Seq<char>) -> int {
        count_of(self.remaining(), digest) + count_of(self.active(), digest)
    }

    /// The layers that the plan foresaw.
    pub open spec fn foreseen(self, digests: Seq<Seq<char>>) -> Seq<Seq<char>> {
        if self.has_plan() {
            planned_part(self.remaining(), text::unique_view(digests))
        } else {
            seq![]
        }
    }

    /// The layers that no plan foresaw.
    pub open spec fn unforeseen(self, digests: Seq<Seq<char>>) -> Seq<Seq<char>> {
        if self.has_plan() {
            unplanned_part(self.remaining(), text::unique_view(digests))
        } else {
            text::unique_view(digests)
        }
    }

    /// How many layers are counted: those that are planned, and those that are claimed besides.
    pub open spec fn size(self) -> nat {
        self.remaining().len() + self.active().len()
    }

    /// The layers of a claim that someone else uses too, now or later in the plan.
    pub open spec fn protected(self, claim: LayerClaimGuard) -> Seq<Seq<char>> {
        (claim.planned() + claim.unplanned()).filter(|digest: Seq<char>| self.uses(digest) > 1)
    }

    /// Whether images are planned, and nothing else was claimed yet.
    pub open spec fn plans(self, images: Seq<Seq<Seq<char>>>) -> bool {
        &&& self.wf()
        &&& self.has_plan()
        &&& self.made() == 0
        &&& self.active() == Map::<Seq<char>, usize>::empty()
        &&& forall|digest: Seq<char>| #[trigger]
            count_of(self.remaining(), digest) == users(images, digest)
    }

    /// Whether nothing is planned or claimed.
    pub open spec fn is_fresh(self) -> bool {
        &&& self.wf()
        &&& !self.has_plan()
        &&& self.made() == 0
        &&& self.remaining() == Map::<Seq<char>, usize>::empty()
        &&& self.active() == Map::<Seq<char>, usize>::empty()
    }

    /// Whether a claim on layers leads to another state. Planned layers are in use already, the
    /// others are used once more.
    pub open spec fn claims(
        self,
        digests: Seq<Seq<char>>,
        claim: LayerClaimGuard,
        after: CurrentPullLayers,
    ) -> bool {
        &&& after.wf()
        &&& claim.wf()
        &&& after.made() == self.made() + 1
        &&& after.has_plan() == self.has_plan()
        &&& claim.planned() == self.foreseen(digests)
        &&& claim.unplanned() == self.unforeseen(digests)
        &&& after.remaining() == self.remaining()
        &&& after.active() == raised_all(self.active(), claim.unplanned())
    }

    /// Whether giving a claim back leads to another state. Each layer has one use less left.
    pub open spec fn releases(self, claim: LayerClaimGuard, after: CurrentPullLayers) -> bool {
        &&& after.wf()
        &&& after.made() == self.made()
        &&& after.has_plan() == self.has_plan()
        &&& after.remaining() == lowered_all(self.remaining(), claim.planned())
        &&& after.active() == lowered_all(self.active(), claim.unplanned())
    }

    /// Nothing is planned or claimed.
    pub fn new() -> (r: CurrentPullLayers)
        ensures
            r.is_fresh(),
    {
        CurrentPullLayers {
            planned_remaining: Counts::new(),
            active_unplanned: Counts::new(),
            planned: false,
            claims_made: 0,
        }
    }

    /// Plans the layers of images. A layer counts once for each image that has it.
    pub fn from_image_layers(images: &[Vec<String>]) -> (r: CurrentPullLayers)
        ensures
            r.plans(layer_lists(images@)),
    {
        let mut planned_remaining = Counts::new();
        let mut i: usize = 0;
        let ghost lists = layer_lists(images@);
        assert(lists.take(0) =~= Seq::<Seq<Seq<char>>>::empty());
        while i < images.len()
            invariant
                i <= images@.len(),
                lists == layer_lists(images@),
                all_used(planned_remaining@),
                forall|digest: Seq<char>| #[trigger]
                    count_of(planned_remaining@, digest) == users(lists.take(i as int), digest),
            decreases images@.len() - i,
        {
            let names = text::unique(images[i].as_slice());
            let ghost before = planned_remaining@;
            proof {
                text::law_unique_keeps_first_occurrences(texts(images@[i as int]@));
                assert forall|name: Seq<char>| #[trigger] count_of(before, name) < usize::MAX by {
                    lemma_users_bound(lists.take(i as int), name);
                }
                lemma_raised_all(before, texts(names@));
            }
            raise_all(&mut planned_remaining, &names);
            proof {
                assert(lists.take(i + 1).drop_last() =~= lists.take(i as int));
                assert(lists.take(i + 1).last() == texts(images@[i as int]@));
                assert forall|digest: Seq<char>| #[trigger]
                    count_of(planned_remaining@, digest) == users(lists.take(i + 1), digest) by {
                    assert(count_of(before, digest) == users(lists.take(i as int), digest));
                    assert(texts(names@).contains(digest) == texts(
                        images@[i as int]@,
                    ).contains(digest));
                }
            }
            i += 1;
        }
        assert(lists.take(i as int) =~= lists);
        CurrentPullLayers {
            planned_remaining,
            active_unplanned: Counts::new(),
            planned: true,
            claims_made: 0,
        }
    }

    /// How many claims were made.
    pub fn claims_made(&self) -> (n: usize)
        ensures
            n == self.made(),
    {
        self.claims_made
    }

    /// Claims the layers of an image, each once. Planned layers are in use already.
    pub fn claim(&mut self, digests: &[String]) -> (claim: LayerClaimGuard)
        requires
            old(self).wf(),
            old(self).made() < usize::MAX,
        ensures
            old(self).claims(texts(digests@), claim, *final(self)),
            forall|digest: Seq<char>| #[trigger]
                final(self).uses(digest) == old(self).uses(digest) + if claim.unplanned().contains(
                    digest,
                ) {
                    1int
                } else {
                    0
                },
    {
        let names = text::unique(digests);
        let ghost all = texts(names@);
        let ghost remaining = self.planned_remaining@;
        let mut planned_digests: Vec<String> = Vec::new();
        let mut unplanned_digests: Vec<String> = Vec::new();
        proof {
            reveal(Seq::filter);
            text::law_unique_keeps_first_occurrences(texts(digests@));
            assert(texts(planned_digests@) =~= Seq::<Seq<char>>::empty());
            assert(texts(unplanned_digests@) =~= Seq::<Seq<char>>::empty());
            assert(all.take(0) =~= Seq::<Seq<char>>::empty());
            if !self.planned {
                assert(texts(planned_digests@) =~= Seq::<Seq<char>>::empty());
            }
        }
        let ghost planned = self.planned;
        let mut i: usize = 0;
        while i < names.len()
            invariant
                i <= names@.len(),
                all == texts(names@),
                remaining == self.planned_remaining@,
                planned == self.planned,
                *self == *old(self),
                planned ==> texts(planned_digests@) == planned_part(remaining, all.take(i as int)),
                planned ==> texts(unplanned_digests@) == unplanned_part(
                    remaining,
                    all.take(i as int),
                ),
                !planned ==> texts(planned_digests@) == Seq::<Seq<char>>::empty(),
                !planned ==> texts(unplanned_digests@) == all.take(i as int),
            decreases names@.len() - i,
        {
            let ghost pb = planned_digests@;
            let ghost ub = unplanned_digests@;
            proof {
                reveal(Seq::filter);
                assert(all.take(i + 1).drop_last() =~= all.take(i as int));
                assert(all.take(i + 1).last() == names@[i as int]@);
            }
            if self.planned && self.planned_remaining.contains(names[i].as_str()) {
                planned_digests.push(names[i].clone());
                assert(texts(planned_digests@) =~= texts(pb).push(names@[i as int]@));
            } else {
                unplanned_digests.push(names[i].clone());
                assert(texts(unplanned_digests@) =~= texts(ub).push(names@[i as int]@));
            }
            assert(!planned ==> all.take(i + 1) =~= all.take(i as int).push(names@[i as int]@));
            i += 1;
        }
        assert(all.take(i as int) =~= all);
        let claim = LayerClaimGuard { planned_digests, unplanned_digests };
        proof {
            lemma_parts(remaining, all, planned, claim.planned(), claim.unplanned());
            assert forall|name: Seq<char>| #[trigger] count_of(
                self.active_unplanned@,
                name,
            ) < usize::MAX by {
                assert(count_of(self.active(), name) <= self.made());
            }
            lemma_raised_all(self.active_unplanned@, claim.unplanned());
        }
        raise_all(&mut self.active_unplanned, &claim.unplanned_digests);
        self.claims_made = self.claims_made + 1;
        proof {
            assert forall|name: Seq<char>| #[trigger] count_of(self.active(), name)
                <= self.made() by {
                assert(count_of(old(self).active(), name) <= old(self).made());
            }
        }
        claim
    }

    /// Gives the layers of a claim back. A planned layer has one use less left.
    pub fn release(&mut self, claim: LayerClaimGuard)
        requires
            old(self).wf(),
            claim.wf(),
        ensures
            old(self).releases(claim, *final(self)),
            forall|digest: Seq<char>| #[trigger]
                count_of(final(self).remaining(), digest) == if claim.planned().contains(digest)
                    && count_of(old(self).remaining(), digest) > 0 {
                    count_of(old(self).remaining(), digest) - 1
                } else {
                    count_of(old(self).remaining(), digest)
                },
            forall|digest: Seq<char>| #[trigger]
                count_of(final(self).active(), digest) == if claim.unplanned().contains(digest)
                    && count_of(old(self).active(), digest) > 0 {
                    count_of(old(self).active(), digest) - 1
                } else {
                    count_of(old(self).active(), digest)
                },
    {
        proof {
            lemma_halves(claim.planned(), claim.unplanned());
            lemma_lowered_all(self.planned_remaining@, claim.planned());
            lemma_lowered_all(self.active_unplanned@, claim.unplanned());
        }
        lower_all(&mut self.planned_remaining, &claim.planned_digests);
        lower_all(&mut self.active_unplanned, &claim.unplanned_digests);
        proof {
            assert forall|name: Seq<char>| #[trigger] count_of(self.active(), name)
                <= self.made() by {
                assert(count_of(old(self).active(), name) <= old(self).made());
            }
        }
    }

    /// The layers of a claim that someone else uses too, now or later in the plan.
    pub fn protected_digests(&self, claim: &LayerClaimGuard) -> (r: Vec<String>)
        ensures
            texts(r@) == self.protected(*claim),
    {
        let mut out: Vec<String> = Vec::new();
        let ghost all = claim.planned() + claim.unplanned();
        let ghost shared = |digest: Seq<char>| self.uses(digest) > 1;
        assert(all.take(0) =~= Seq::<Seq<char>>::empty());
        proof {
            reveal(Seq::filter);
            assert(texts(out@) =~= Seq::<Seq<char>>::empty());
        }
        let a = claim.planned_digests.len();
        let mut i: usize = 0;
        while i < a
            invariant
                i <= a,
                a == claim.planned_digests@.len(),
                all == claim.planned() + claim.unplanned(),
                shared == (|digest: Seq<char>| self.uses(digest) > 1),
                texts(out@) == all.take(i as int).filter(shared),
            decreases a - i,
        {
            proof {
                reveal(Seq::filter);
                assert(all.take(i + 1).drop_last() =~= all.take(i as int));
                assert(all.take(i + 1).last() == claim.planned_digests@[i as int]@);
            }
            let ghost before = out@;
            if self.is_shared(claim.planned_digests[i].as_str()) {
                out.push(claim.planned_digests[i].clone());
                assert(texts(out@) =~= texts(before).push(claim.planned_digests@[i as int]@));
            }
            i += 1;
        }
        let b = claim.unplanned_digests.len();
        let mut j: usize = 0;
        while j < b
            invariant
                j <= b,
                a == claim.planned_digests@.len(),
                b == claim.unplanned_digests@.len(),
                all == claim.planned() + claim.unplanned(),
                shared == (|digest: Seq<char>| self.uses(digest) > 1),
                texts(out@) == all.take(a + j).filter(shared),
            decreases b - j,
        {
            proof {
                reveal(Seq::filter);
                assert(all.take(a + j + 1).drop_last() =~= all.take(a + j));
                assert(all.take(a + j + 1).last() == claim.unplanned_digests@[j as int]@);
            }
            let ghost before = out@;
            if self.is_shared(claim.unplanned_digests[j].as_str()) {
                out.push(claim.unplanned_digests[j].clone());
                assert(texts(out@) =~= texts(before).push(claim.unplanned_digests@[j as int]@));
            }
            j += 1;
        }
        assert(all.take(a + b) =~= all);
        out
    }

    /// Whether more than one use of a layer is left.
    fn is_shared(&self, digest: &str) -> (r: bool)
        ensures
            r == (self.uses(digest@) > 1),
    {
        let planned = self.planned_remaining.get(digest);
        let unplanned = self.active_unplanned.get(digest);
        planned > 1 || unplanned > 1 || (planned == 1 && unplanned == 1)
    }

    /// How many layers are planned, and how many are claimed besides.
    pub fn len(&self) -> (n: usize)
        requires
            self.size() <= usize::MAX,
        ensures
            n == self.size(),
    {
        self.planned_remaining.len() + self.active_unplanned.len()
    }
}

/// The layers of images.
pub open spec fn layer_lists(images: Seq<Vec<String>>) -> Seq<Seq<Seq<char>>> {
    images.map_values(|layers: Vec<String>| texts(layers@))
}

/// How many of the lists hold a layer.
pub open spec fn users(lists: Seq<Seq<Seq<char>>>, digest: Seq<char>) -> int
    decreases lists.len(),
{
    if lists.len() == 0 {
        0
    } else {
        users(lists.drop_last(), digest) + if lists.last().contains(digest) {
            1int
        } else {
            0
        }
    }
}

/// A layer is in no more lists than there are.
proof fn lemma_users_bound(lists: Seq<Seq<Seq<char>>>, digest: Seq<char>)
    ensures
        0 <= users(lists, digest) <= lists.len(),
    decreases lists.len(),
{
    if lists.len() > 0 {
        lemma_users_bound(lists.drop_last(), digest);
    }
}

/// The parts of a list without repetitions have none either.
pub proof fn lemma_halves(a: Seq<Seq<char>>, b: Seq<Seq<char>>)
    requires
        (a + b).no_duplicates(),
    ensures
        a.no_duplicates(),
        b.no_duplicates(),
{
    let all = a + b;
    assert forall|i: int, j: int| 0 <= i < a.len() && 0 <= j < a.len() && i != j implies a[i]
        != a[j] by {
        assert(all[i] != all[j]);
    }
    assert forall|i: int, j: int| 0 <= i < b.len() && 0 <= j < b.len() && i != j implies b[i]
        != b[j] by {
        assert(all[a.len() + i] != all[a.len() + j]);
    }
}

/// A filtered list without repetitions has none, and holds what the list and the test allow.
pub proof fn lemma_filtered(names: Seq<Seq<char>>, pred: spec_fn(Seq<char>) -> bool)
    requires
        names.no_duplicates(),
    ensures
        names.filter(pred).no_duplicates(),
        forall|x: Seq<char>| #[trigger]
            names.filter(pred).contains(x) <==> names.contains(x) && pred(x),
    decreases names.len(),
{
    reveal(Seq::filter);
    if names.len() > 0 {
        let shorter = names.drop_last();
        assert(shorter.no_duplicates());
        lemma_filtered(shorter, pred);
        let before = shorter.filter(pred);
        let out = names.filter(pred);
        assert(!shorter.contains(names.last())) by {
            if shorter.contains(names.last()) {
                let j = choose|j: int| 0 <= j < shorter.len() && shorter[j] == names.last();
                assert(names[j] == names[names.len() - 1]);
            }
        }
        assert(!before.contains(names.last()));
        assert forall|i: int, j: int|
            0 <= i < out.len() && 0 <= j < out.len() && i != j implies out[i] != out[j] by {
            if i < before.len() && j < before.len() {
                assert(before[i] != before[j]);
            } else if i < before.len() {
                assert(before.contains(before[i]));
            } else if j < before.len() {
                assert(before.contains(before[j]));
            }
        }
        assert forall|x: Seq<char>| #[trigger] out.contains(x) <==> names.contains(x) && pred(
            x,
        ) by {
            if out.contains(x) {
                let j = choose|j: int| 0 <= j < out.len() && out[j] == x;
                if j < before.len() {
                    assert(before[j] == x);
                    assert(before.contains(x));
                    let k = choose|k: int| 0 <= k < shorter.len() && shorter[k] == x;
                    assert(names[k] == x);
                } else {
                    assert(names[names.len() - 1] == x);
                }
            }
            if names.contains(x) && pred(x) {
                let j = choose|j: int| 0 <= j < names.len() && names[j] == x;
                if j < shorter.len() {
                    assert(shorter[j] == x);
                    assert(before.contains(x));
                    let k = choose|k: int| 0 <= k < before.len() && before[k] == x;
                    assert(out[k] == x);
                } else {
                    assert(out[out.len() - 1] == x);
                }
            }
        }
    }
}

/// The foreseen and the unforeseen layers of a list without repetitions are different layers.
proof fn lemma_parts(
    remaining: Map<Seq<char>, usize>,
    names: Seq<Seq<char>>,
    planned: bool,
    a: Seq<Seq<char>>,
    b: Seq<Seq<char>>,
)
    requires
        names.no_duplicates(),
        planned ==> a == planned_part(remaining, names) && b == unplanned_part(remaining, names),
        !planned ==> a == Seq::<Seq<char>>::empty() && b == names,
    ensures
        (a + b).no_duplicates(),
        b.no_duplicates(),
{
    if planned {
        lemma_filtered(names, |name: Seq<char>| remaining.contains_key(name));
        lemma_filtered(names, |name: Seq<char>| !remaining.contains_key(name));
        let all = a + b;
        assert forall|i: int, j: int|
            0 <= i < all.len() && 0 <= j < all.len() && i != j implies all[i] != all[j] by {
            if i < a.len() {
                assert(a.contains(a[i]));
            } else {
                assert(b.contains(b[i - a.len()]));
            }
            if j < a.len() {
                assert(a.contains(a[j]));
            } else {
                assert(b.contains(b[j - a.len()]));
            }
        }
    } else {
        assert(a + b =~= b);
    }
}

/// Uses each name of a list once more.
fn raise_all(counts: &mut Counts, names: &Vec<String>)
    requires
        texts(names@).no_duplicates(),
        forall|name: Seq<char>| #[trigger] count_of(old(counts)@, name) < usize::MAX,
    ensures
        final(counts)@ == raised_all(old(counts)@, texts(names@)),
{
    let ghost all = texts(names@);
    assert(all.take(0) =~= Seq::<Seq<char>>::empty());
    let mut i: usize = 0;
    while i < names.len()
        invariant
            i <= names@.len(),
            all == texts(names@),
            all.no_duplicates(),
            forall|name: Seq<char>| #[trigger] count_of(old(counts)@, name) < usize::MAX,
            counts@ == raised_all(old(counts)@, all.take(i as int)),
        decreases names@.len() - i,
    {
        proof {
            assert(all.take(i + 1).drop_last() =~= all.take(i as int));
            assert(all.take(i + 1).last() == names@[i as int]@);
            lemma_raised_all(old(counts)@, all.take(i as int));
            assert(!all.take(i as int).contains(names@[i as int]@)) by {
                if all.take(i as int).contains(names@[i as int]@) {
                    let j = choose|j: int|
                        0 <= j < all.take(i as int).len() && all.take(i as int)[j]
                            == names@[i as int]@;
                    assert(all[j] == all[i as int]);
                }
            }
            assert(count_of(counts@, names@[i as int]@) == count_of(
                old(counts)@,
                names@[i as int]@,
            ));
        }
        counts.increment(names[i].as_str());
        i += 1;
    }
    assert(all.take(i as int) =~= all);
}

/// Uses each name of a list once less.
fn lower_all(counts: &mut Counts, names: &Vec<String>)
    requires
        all_used(old(counts)@),
    ensures
        final(counts)@ == lowered_all(old(counts)@, texts(names@)),
        all_used(final(counts)@),
{
    let ghost all = texts(names@);
    assert(all.take(0) =~= Seq::<Seq<char>>::empty());
    let mut i: usize = 0;
    while i < names.len()
        invariant
            i <= names@.len(),
            all == texts(names@),
            all_used(counts@),
            counts@ == lowered_all(old(counts)@, all.take(i as int)),
        decreases names@.len() - i,
    {
        proof {
            assert(all.take(i + 1).drop_last() =~= all.take(i as int));
            assert(all.take(i + 1).last() == names@[i as int]@);
        }
        counts.decrement(names[i].as_str());
        i += 1;
    }
    assert(all.take(i as int) =~= all);
}

/// A claim that is given back leaves no trace on the layers that no plan foresaw.
pub proof fn law_a_released_claim_leaves_no_trace(
    before: CurrentPullLayers,
    digests: Seq<Seq<char>>,
)
    requires
        before.wf(),
        before.made() < usize::MAX,
    ensures
        lowered_all(
            raised_all(before.active(), before.unforeseen(digests)),
            before.unforeseen(digests),
        ) == before.active(),
{
    text::law_unique_keeps_first_occurrences(digests);
    let names = text::unique_view(digests);
    if before.has_plan() {
        lemma_filtered(names, |name: Seq<char>| !before.remaining().contains_key(name));
    }
    assert forall|name: Seq<char>| #[trigger] count_of(before.active(), name) < usize::MAX by {
        assert(count_of(before.active(), name) <= before.made());
    }
    law_raising_and_lowering_cancel(before.active(), before.unforeseen(digests));
}

/// The blobs that someone works on or waits for.
pub struct BlobDownloadLocks {
    users: Counts,
}

impl BlobDownloadLocks {
    /// How many work on each blob or wait for it.
    pub closed spec fn view_users(self) -> Map<Seq<char>, usize> {
        self.users@
    }

    /// Only blobs that someone works on or waits for are kept.
    pub open spec fn wf(self) -> bool {
        all_used(self.view_users())
    }

    /// Nobody works on a blob.
    pub fn new() -> (r: BlobDownloadLocks)
        ensures
            r.wf(),
            r.view_users() == Map::<Seq<char>, usize>::empty(),
    {
        BlobDownloadLocks { users: Counts::new() }
    }

    /// How many work on a blob or wait for it.
    pub fn users_of(&self, digest: &str) -> (n: usize)
        ensures
            n == count_of(self.view_users(), digest@),
    {
        self.users.get(digest)
    }

    /// Someone wants to work on a blob. The result tells whether nobody else does.
    pub fn enter(&mut self, digest: &str) -> (first: bool)
        requires
            old(self).wf(),
            count_of(old(self).view_users(), digest@) < usize::MAX,
        ensures
            final(self).wf(),
            final(self).view_users() == old(self).view_users().insert(
                digest@,
                (count_of(old(self).view_users(), digest@) + 1) as usize,
            ),
            first == (count_of(old(self).view_users(), digest@) == 0),
    {
        let first = self.users.get(digest) == 0;
        self.users.increment(digest);
        first
    }

    /// Someone is done with a blob, or does not wait for it any more. The blob is forgotten when
    /// nobody is left.
    pub fn leave(&mut self, digest: &str)
        requires
            old(self).wf(),
        ensures
            final(self).wf(),
            final(self).view_users() == lowered(old(self).view_users(), digest@),
            count_of(old(self).view_users(), digest@) <= 1
                ==> !final(self).view_users().contains_key(digest@),
    {
        self.users.decrement(digest);
    }

    /// How many blobs someone works on or waits for.
    pub fn len(&self) -> (n: usize)
        ensures
            n == self.view_users().len(),
    {
        self.users.len()
    }
}

} // verus!
