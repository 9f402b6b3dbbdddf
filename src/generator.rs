//! The collection generator: draws assets one slot after another, rejects a
//! repeated asset when uniqueness is asked for, retries a bounded number of
//! times, and numbers accepted assets on from what earlier runs produced.
use vstd::prelude::*;

use crate::asset::{asset_of, picks_valid, select_asset, CandidateAsset};
use crate::catalog::{thread_rng, Catalog};
use crate::error::ArtGenError;

verus! {

/// The usual bound on how many times a slot is drawn again after a repeated
/// asset before the run gives up.
pub const MAX_RETRIES: u64 = 10;

/// What to do with a drawn asset.
pub enum SlotStep {
    /// Keep it.
    Accept,
    /// Draw the slot again.
    Retry,
    /// Stop the run: the slot repeated on every try.
    GiveUp,
}

/// An accepted asset and the number it is stored under.
pub struct GeneratedAsset {
    pub id: u64,
    pub asset: CandidateAsset,
}

/// The state of one generation run.
pub struct Generator {
    /// Assets already in the output before this run; the first id of the run.
    pub offset: u64,
    /// How many assets this run is to produce.
    pub requested: u64,
    /// Whether a repeated asset is rejected.
    pub unique: bool,
    /// How many times a slot is drawn again after a repeated asset.
    pub max_retries: u64,
    /// How many assets this run has accepted so far.
    pub produced: u64,
    /// The keys of the accepted assets.
    pub seen: KeySet,
}

/// The keys of the assets accepted so far, in a `rustc_hash` set. Its inside
/// is the outside crate's; Verus sees only the keys.
#[verifier::external_body]
pub struct KeySet {
    set: rustc_hash::FxHashSet<Vec<usize>>,
}

/// The keys that a key set holds.
pub uninterp spec fn key_set(s: KeySet) -> Set<Seq<usize>>;

impl KeySet {
    /// Relies on `Default` of `rustc_hash::FxHashSet`: an empty set.
    #[verifier::external_body]
    pub(crate) fn new() -> (r: KeySet)
        ensures
            key_set(r) == Set::<Seq<usize>>::empty(),
    {
        KeySet { set: rustc_hash::FxHashSet::default() }
    }

    /// Relies on `HashSet::contains`, which finds a key equal to `key`; two
    /// `Vec<usize>` are equal when their elements are.
    #[verifier::external_body]
    pub(crate) fn contains(&self, key: &Vec<usize>) -> (r: bool)
        ensures
            r == key_set(*self).contains(key@),
    {
        self.set.contains(key)
    }

    /// Relies on `HashSet::insert`: afterwards the set also holds `key`.
    #[verifier::external_body]
    fn insert(&mut self, key: Vec<usize>)
        ensures
            key_set(*final(self)) == key_set(*old(self)).insert(key@),
    {
        self.set.insert(key);
    }
}

fn copy_key(key: &Vec<usize>) -> (r: Vec<usize>)
    ensures
        r@ == key@,
{
    let mut r: Vec<usize> = Vec::new();
    let mut i: usize = 0;
    while i < key.len()
        invariant
            i <= key.len(),
            r@ == key@.subrange(0, i as int),
        decreases key.len() - i,
    {
        r.push(key[i]);
        i = i + 1;
    }
    assert(r@ =~= key@);
    r
}

impl Generator {
    pub open spec fn wf(&self) -> bool {
        &&& self.produced <= self.requested
        &&& self.offset + self.requested <= u64::MAX
    }

    /// The id that the next accepted asset gets.
    pub open spec fn next_id(&self) -> int {
        self.offset + self.produced
    }

    /// Whether an asset with key `key` is accepted.
    pub open spec fn accepts_key(&self, key: Seq<usize>) -> bool {
        !self.unique || !key_set(self.seen).contains(key)
    }

    /// A run that numbers its assets from `offset` on.
    pub fn new(offset: u64, requested: u64, unique: bool, max_retries: u64) -> (r: Generator)
        requires
            offset + requested <= u64::MAX,
        ensures
            r.wf(),
            r.offset == offset,
            r.requested == requested,
            r.unique == unique,
            r.max_retries == max_retries,
            r.produced == 0,
            r.next_id() == offset,
            key_set(r.seen) == Set::<Seq<usize>>::empty(),
    {
        Generator { offset, requested, unique, max_retries, produced: 0, seen: KeySet::new() }
    }

    /// Whether the run has produced all it was asked for.
    pub fn is_done(&self) -> (r: bool)
        ensures
            r == (self.produced == self.requested),
    {
        self.produced == self.requested
    }

    /// Whether an asset with this key is accepted: always when uniqueness is
    /// off, otherwise exactly when no accepted asset has the key.
    pub fn accepts(&self, key: &Vec<usize>) -> (r: bool)
        ensures
            r == self.accepts_key(key@),
    {
        !self.unique || !self.seen.contains(key)
    }

    /// The decision on a drawn asset after `retries` repeated draws of the
    /// slot: keep it if it is accepted, else give up once the retries are
    /// spent, else draw again.
    pub fn step(&self, key: &Vec<usize>, retries: u64) -> (r: SlotStep)
        ensures
            self.accepts_key(key@) ==> r is Accept,
            !self.accepts_key(key@) && retries >= self.max_retries ==> r is GiveUp,
            !self.accepts_key(key@) && retries < self.max_retries ==> r is Retry,
    {
        if self.accepts(key) {
            SlotStep::Accept
        } else if retries >= self.max_retries {
            SlotStep::GiveUp
        } else {
            SlotStep::Retry
        }
    }

    /// Draws the asset of the next slot, drawing again while it repeats an
    /// accepted one, at most `max_retries` times more. `None` once the run is
    /// complete; `InsufficientLayers` when every draw repeated.
    pub fn next_asset(&mut self, c: &Catalog, rng: &mut rand::rngs::ThreadRng) -> (r: Result<
        Option<GeneratedAsset>,
        ArtGenError,
    >)
        requires
            old(self).wf(),
            c.wf(),
        ensures
            final(self).wf(),
            final(self).offset == old(self).offset,
            final(self).requested == old(self).requested,
            final(self).unique == old(self).unique,
            final(self).max_retries == old(self).max_retries,
            old(self).produced == old(self).requested ==> r is Ok && r->Ok_0 is None,
            key_set(old(self).seen) == Set::<Seq<usize>>::empty() && old(self).produced
                < old(self).requested ==> r is Ok && r->Ok_0 is Some,
            !old(self).unique && old(self).produced < old(self).requested ==> r is Ok
                && r->Ok_0 is Some,
            r is Ok && r->Ok_0 is Some ==> {
                let a = r->Ok_0->Some_0;
                &&& a.id == old(self).next_id()
                &&& picks_valid(*c, a.asset.key@)
                &&& asset_of(*c, a.asset.key@, a.asset)
                &&& old(self).accepts_key(a.asset.key@)
                &&& final(self).produced == old(self).produced + 1
                &&& key_set(final(self).seen) == key_set(old(self).seen).insert(a.asset.key@)
            },
            r is Ok && r->Ok_0 is None ==> old(self).produced == old(self).requested,
            !(r is Ok && r->Ok_0 is Some) ==> final(self).produced == old(self).produced
                && key_set(final(self).seen) == key_set(old(self).seen),
            r is Err ==> r->Err_0 is InsufficientLayers && old(self).unique && old(self).produced
                < old(self).requested,
    {
        if self.produced == self.requested {
            return Ok(None);
        }
        let mut retries: u64 = 0;
        loop
            invariant
                self.wf(),
                c.wf(),
                self.produced < self.requested,
                *self == *old(self),
                retries <= self.max_retries,
            decreases self.max_retries - retries,
        {
            let asset = select_asset(c, rng);
            match self.step(&asset.key, retries) {
                SlotStep::Accept => {
                    let id = self.offset + self.produced;
                    let key = copy_key(&asset.key);
                    self.seen.insert(key);
                    self.produced = self.produced + 1;
                    return Ok(Some(GeneratedAsset { id, asset }));
                },
                SlotStep::GiveUp => {
                    return Err(ArtGenError::InsufficientLayers);
                },
                SlotStep::Retry => {
                    retries = retries + 1;
                },
            }
        }
    }
}

/// No two assets share a key.
pub open spec fn keys_distinct(s: Seq<GeneratedAsset>) -> bool {
    forall|i: int, j: int|
        0 <= i < j < s.len() ==> (#[trigger] s[i]).asset.key@ != (#[trigger] s[j]).asset.key@
}

/// What a run produced: the accepted assets in order, and the error that
/// stopped it early, if one did.
pub struct RunOutcome {
    pub assets: Vec<GeneratedAsset>,
    pub error: Option<ArtGenError>,
}

/// Generates `requested` assets numbered from `offset` on. With `unique`, an
/// asset that repeats an earlier one is drawn again, and the run stops with
/// `InsufficientLayers` when a slot repeats on every one of its
/// `1 + max_retries` tries; what was accepted before stays in the outcome.
/// The first slot never repeats, so a run asked for anything yields something.
pub fn run(c: &Catalog, offset: u64, requested: u64, unique: bool, max_retries: u64) -> (r:
    RunOutcome)
    requires
        c.wf(),
        offset + requested <= u64::MAX,
    ensures
        r.error is None ==> r.assets.len() == requested,
        r.error is Some ==> unique && r.error->Some_0 is InsufficientLayers && r.assets.len()
            < requested,
        !unique ==> r.error is None,
        requested > 0 ==> r.assets.len() > 0,
        forall|i: int| 0 <= i < r.assets.len() ==> (#[trigger] r.assets@[i]).id == offset + i,
        forall|i: int|
            0 <= i < r.assets.len() ==> picks_valid(*c, (#[trigger] r.assets@[i]).asset.key@)
                && asset_of(*c, r.assets@[i].asset.key@, r.assets@[i].asset),
        unique ==> keys_distinct(r.assets@),
{
    let mut rng = thread_rng();
    let mut g = Generator::new(offset, requested, unique, max_retries);
    let mut assets: Vec<GeneratedAsset> = Vec::new();
    let mut error: Option<ArtGenError> = None;
    while !g.is_done()
        invariant
            g.wf(),
            c.wf(),
            g.offset == offset,
            g.requested == requested,
            g.unique == unique,
            error is None,
            assets.len() == g.produced,
            g.produced == 0 ==> key_set(g.seen) == Set::<Seq<usize>>::empty(),
            forall|i: int| 0 <= i < assets.len() ==> (#[trigger] assets@[i]).id == offset + i,
            forall|i: int|
                0 <= i < assets.len() ==> key_set(g.seen).contains(
                    (#[trigger] assets@[i]).asset.key@,
                ),
            unique ==> keys_distinct(assets@),
            forall|i: int|
                0 <= i < assets.len() ==> picks_valid(*c, (#[trigger] assets@[i]).asset.key@)
                    && asset_of(*c, assets@[i].asset.key@, assets@[i].asset),
        decreases requested - g.produced,
    {
        let ghost before = assets@;
        let ghost seen_before = key_set(g.seen);
        match g.next_asset(c, &mut rng) {
            Ok(Some(a)) => {
                assets.push(a);
                assert forall|i: int| 0 <= i < assets.len() implies key_set(g.seen).contains(
                    (#[trigger] assets@[i]).asset.key@,
                ) by {
                    if i < assets.len() - 1 {
                        assert(assets@[i] == before[i]);
                        assert(seen_before.contains(before[i].asset.key@));
                    }
                }
                assert(unique ==> keys_distinct(assets@)) by {
                    if unique {
                        assert forall|i: int, j: int| 0 <= i < j < assets.len() implies (
                        #[trigger] assets@[i]).asset.key@ != (#[trigger] assets@[j]).asset.key@ by {
                            assert(assets@[i] == before[i]);
                            if j < assets.len() - 1 {
                                assert(assets@[j] == before[j]);
                            } else {
                                assert(seen_before.contains(before[i].asset.key@));
                            }
                        }
                    }
                }
            },
            Ok(None) => {
                return RunOutcome { assets, error };
            },
            Err(e) => {
                return RunOutcome { assets, error: Some(e) };
            },
        }
    }
    RunOutcome { assets, error }
}

} // verus!
