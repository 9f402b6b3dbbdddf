//! The trait catalog: category directories in layering order, each with its
//! weighted trait files and a distribution to draw them from.
use vstd::prelude::*;
use vstd::multiset::Multiset;
use vstd::seq_lib::group_to_multiset_ensures;

use crate::error::ArtGenError;
use crate::naming::{
    file_stem, has_weight_prefix, label_of, prefix_weight, split_weight_prefix, stem_of,
};

verus! {

/// An alias-method distribution over a list of weights, built once and drawn
/// from many times. Its inside is `rand_distr`'s; Verus sees only the weights.
#[verifier::external_body]
pub struct AliasTable {
    dist: rand_distr::WeightedAliasIndex<u64>,
}

#[verifier::external_type_specification]
#[verifier::external_body]
pub struct ExThreadRng(rand::rngs::ThreadRng);

/// The weights that an alias distribution was built from.
pub uninterp spec fn alias_weights(d: AliasTable) -> Seq<u64>;

/// The weights that `WeightedAliasIndex::new` takes: at least one and at most
/// `u32::MAX` of them, none above `u64::MAX / len`, not all zero.
pub open spec fn alias_accepts(w: Seq<u64>) -> bool {
    &&& 0 < w.len() <= u32::MAX
    &&& forall|i: int| 0 <= i < w.len() ==> #[trigger] w[i] <= u64::MAX / (w.len() as u64)
    &&& exists|i: int| 0 <= i < w.len() && #[trigger] w[i] > 0
}

/// Relies on `rand_distr::WeightedAliasIndex::new`: it refuses an empty list, a
/// list longer than `u32::MAX`, a weight above `u64::MAX / len`, and weights
/// that are all zero, and otherwise builds the distribution over the weights.
#[verifier::external_body]
fn alias_index(weights: Vec<u64>) -> (r: Option<AliasTable>)
    ensures
        r is Some <==> alias_accepts(weights@),
        r is Some ==> alias_weights(r->Some_0) == weights@,
{
    rand_distr::WeightedAliasIndex::new(weights).ok().map(|dist| AliasTable { dist })
}

/// Relies on `rand::thread_rng`: a handle on the thread's random generator.
#[verifier::external_body]
pub(crate) fn thread_rng() -> (r: rand::rngs::ThreadRng) {
    rand::thread_rng()
}

/// Relies on the `Distribution<usize>` impl of `rand_distr::WeightedAliasIndex`:
/// an index into the weights, drawn with probability proportional to its
/// weight, so never one of weight zero.
#[verifier::external_body]
fn alias_draw(d: &AliasTable, rng: &mut rand::rngs::ThreadRng) -> (r: usize)
    ensures
        r < alias_weights(*d).len(),
        alias_weights(*d)[r as int] > 0,
{
    rand::distributions::Distribution::sample(&d.dist, rng)
}

/// A file found in a category directory: its name and its full path.
pub struct FileListing {
    pub name: String,
    pub path: String,
}

/// A category directory: its name and the files in it.
pub struct DirListing {
    pub name: String,
    pub files: Vec<FileListing>,
}

/// One selectable trait file of a category.
pub struct TraitEntry {
    pub source_path: String,
    pub weight: u64,
    pub category_label: String,
    pub trait_label: String,
}

/// One layer: its label, its traits, and the distribution they are drawn from.
pub struct Category {
    pub label: String,
    pub entries: Vec<TraitEntry>,
    pub dist: AliasTable,
}

/// The categories in layering order; the first is the base.
pub struct Catalog {
    pub categories: Vec<Category>,
}

/// `a` comes no later than `b` in character order, looking from position `i`.
pub open spec fn lex_le_from(a: Seq<char>, b: Seq<char>, i: int) -> bool
    decreases a.len() - i,
{
    if i >= a.len() {
        true
    } else if i >= b.len() {
        false
    } else if (a[i] as u32) != (b[i] as u32) {
        (a[i] as u32) < (b[i] as u32)
    } else {
        lex_le_from(a, b, i + 1)
    }
}

/// Lexicographic order on strings, character by character.
pub open spec fn lex_le(a: Seq<char>, b: Seq<char>) -> bool {
    lex_le_from(a, b, 0)
}

proof fn lemma_lex_total(a: Seq<char>, b: Seq<char>, i: int)
    requires
        0 <= i,
    ensures
        lex_le_from(a, b, i) || lex_le_from(b, a, i),
    decreases a.len() - i,
{
    if i < a.len() && i < b.len() && (a[i] as u32) == (b[i] as u32) {
        lemma_lex_total(a, b, i + 1);
    }
}

/// Each directory name is no later than the next one.
pub open spec fn names_sorted(s: Seq<DirListing>) -> bool {
    forall|i: int| 0 <= i < s.len() - 1 ==> lex_le(#[trigger] s[i].name@, s[i + 1].name@)
}

/// Whether `a` comes no later than `b`.
pub fn name_le(a: &str, b: &str) -> (r: bool)
    ensures
        r == lex_le(a@, b@),
{
    let la = a.unicode_len();
    let lb = b.unicode_len();
    let mut i: usize = 0;
    while i < la && i < lb && (a.get_char(i) as u32) == (b.get_char(i) as u32)
        invariant
            la == a@.len(),
            lb == b@.len(),
            i <= la,
            i <= lb,
            lex_le(a@, b@) == lex_le_from(a@, b@, i as int),
        decreases la - i,
    {
        i = i + 1;
    }
    if i >= la {
        true
    } else if i >= lb {
        false
    } else {
        (a.get_char(i) as u32) < (b.get_char(i) as u32)
    }
}

proof fn lemma_insert_multiset<A>(s: Seq<A>, p: int, x: A)
    requires
        0 <= p <= s.len(),
    ensures
        s.insert(p, x).to_multiset() =~= s.to_multiset().insert(x),
{
    broadcast use group_to_multiset_ensures;

    let t = s.insert(p, x);
    assert(t.remove(p) =~= s);
    assert(t[p] == x);
    assert(t.contains(x));
}

/// The directories ordered by name, which gives the layering order.
pub fn sort_listings(dirs: Vec<DirListing>) -> (r: Vec<DirListing>)
    ensures
        r@.to_multiset() == dirs@.to_multiset(),
        names_sorted(r@),
{
    broadcast use group_to_multiset_ensures;

    let mut rest = dirs;
    let mut r: Vec<DirListing> = Vec::new();
    while rest.len() > 0
        invariant
            r@.to_multiset().add(rest@.to_multiset()) == dirs@.to_multiset(),
            names_sorted(r@),
        decreases rest.len(),
    {
        let ghost before = rest@;
        let x = rest.pop().unwrap();
        assert(before =~= rest@.push(x));
        proof {
            rest@.to_multiset_ensures();
        }
        assert(before.to_multiset() =~= rest@.to_multiset().insert(x));
        let mut p: usize = 0;
        while p < r.len() && name_le(r[p].name.as_str(), x.name.as_str())
            invariant
                p <= r.len(),
                forall|k: int| 0 <= k < p ==> lex_le(#[trigger] r@[k].name@, x.name@),
            decreases r.len() - p,
        {
            p = p + 1;
        }
        if p < r.len() {
            proof {
                lemma_lex_total(r@[p as int].name@, x.name@, 0);
            }
        }
        let ghost old_r = r@;
        proof {
            lemma_insert_multiset(old_r, p as int, x);
        }
        r.insert(p, x);
        assert(r@ == old_r.insert(p as int, x));
        assert(r@.to_multiset().add(rest@.to_multiset()) =~= old_r.to_multiset().add(
            before.to_multiset(),
        ));
        assert forall|i: int| 0 <= i < r@.len() - 1 implies lex_le(
            #[trigger] r@[i].name@,
            r@[i + 1].name@,
        ) by {
            if i < p - 1 {
                assert(r@[i] == old_r[i] && r@[i + 1] == old_r[i + 1]);
            } else if i == p - 1 {
                assert(r@[i] == old_r[i]);
            } else if i == p {
                assert(r@[i + 1] == old_r[i]);
            } else {
                assert(r@[i] == old_r[i - 1] && r@[i + 1] == old_r[i]);
            }
        }
    }
    assert(rest@.to_multiset() =~= Multiset::empty());
    r
}

/// A trait file is named `<two digits><label>.<extension>`.
pub open spec fn file_ok(f: FileListing) -> bool {
    has_weight_prefix(stem_of(f.name@))
}

/// The rarity weight that a trait file's name carries.
pub open spec fn file_weight(f: FileListing) -> nat {
    prefix_weight(stem_of(f.name@))
}

/// A category directory is named `<two digits><label>` and holds at least one
/// well-named trait file (at most `u32::MAX`), not all of weight zero.
pub open spec fn dir_ok(d: DirListing) -> bool {
    &&& has_weight_prefix(stem_of(d.name@))
    &&& 0 < d.files.len() <= u32::MAX
    &&& forall|i: int| 0 <= i < d.files.len() ==> file_ok(#[trigger] d.files@[i])
    &&& exists|i: int| 0 <= i < d.files.len() && file_weight(#[trigger] d.files@[i]) > 0
}

/// The error that a directory which is not `dir_ok` is reported with.
pub open spec fn dir_error(d: DirListing, e: ArtGenError) -> bool {
    if !has_weight_prefix(stem_of(d.name@)) {
        e is IncorrectDirectoryConvention && e->IncorrectDirectoryConvention_0@ == d.name@
    } else if exists|i: int| 0 <= i < d.files.len() && !file_ok(#[trigger] d.files@[i]) {
        &&& e is IncorrectFileConvention
        &&& exists|i: int|
            0 <= i < d.files.len() && !file_ok(#[trigger] d.files@[i])
                && e->IncorrectFileConvention_0@ == d.files@[i].path@
    } else {
        e is EmptyDistribution && e->EmptyDistribution_0@ == d.name@
    }
}

/// `e` is the entry that trait file `f` gives in the category labelled `label`.
pub open spec fn entry_of(e: TraitEntry, label: Seq<char>, f: FileListing) -> bool {
    &&& e.source_path@ == f.path@
    &&& e.weight == file_weight(f)
    &&& e.category_label@ == label
    &&& e.trait_label@ == label_of(stem_of(f.name@))
}

/// `c` is the category that directory `d` gives.
pub open spec fn category_of(c: Category, d: DirListing) -> bool {
    &&& c.label@ == label_of(stem_of(d.name@))
    &&& c.entries.len() == d.files.len()
    &&& forall|i: int| 0 <= i < d.files.len() ==> entry_of(#[trigger] c.entries@[i], c.label@, d.files@[i])
}

impl Category {
    pub open spec fn weights(&self) -> Seq<u64> {
        self.entries@.map_values(|e: TraitEntry| e.weight)
    }

    /// The distribution is over the entries' weights, which it accepts.
    pub closed spec fn wf(&self) -> bool {
        &&& alias_weights(self.dist) == self.weights()
        &&& alias_accepts(self.weights())
    }

    /// Draws one entry, with probability proportional to its weight.
    pub fn draw(&self, rng: &mut rand::rngs::ThreadRng) -> (r: usize)
        requires
            self.wf(),
        ensures
            r < self.entries.len(),
            self.entries@[r as int].weight > 0,
    {
        let r = alias_draw(&self.dist, rng);
        assert(self.weights()[r as int] == self.entries@[r as int].weight);
        r
    }
}

proof fn lemma_small_weights_accepted(len: nat)
    requires
        0 < len <= u32::MAX,
    ensures
        99 <= u64::MAX / (len as u64),
{
    let m = u64::MAX as int;
    let q = m / (len as int);
    vstd::arithmetic::div_mod::lemma_fundamental_div_mod(m, len as int);
    assert(q >= 99) by (nonlinear_arith)
        requires
            m == (len as int) * q + m % (len as int),
            0 <= m % (len as int) < len,
            0 < len <= 4294967295,
            m == 18446744073709551615,
    ;
}

/// The category that one directory gives, or the reason it gives none.
pub fn parse_category(d: &DirListing) -> (r: Result<Category, ArtGenError>)
    ensures
        r is Ok <==> dir_ok(*d),
        r is Ok ==> r->Ok_0.wf() && category_of(r->Ok_0, *d),
        r is Err ==> dir_error(*d, r->Err_0),
{
    let stem = file_stem(d.name.as_str());
    let label = match split_weight_prefix(stem.as_str()) {
        Some(p) => p.1,
        None => {
            return Err(ArtGenError::IncorrectDirectoryConvention(d.name.clone()));
        },
    };
    let n = d.files.len();
    let mut entries: Vec<TraitEntry> = Vec::new();
    let mut weights: Vec<u64> = Vec::new();
    let mut i: usize = 0;
    while i < n
        invariant
            n == d.files.len(),
            i <= n,
            has_weight_prefix(stem_of(d.name@)),
            label@ == label_of(stem_of(d.name@)),
            entries.len() == i,
            weights.len() == i,
            forall|k: int| 0 <= k < i ==> file_ok(#[trigger] d.files@[k]),
            forall|k: int| 0 <= k < i ==> entry_of(#[trigger] entries@[k], label@, d.files@[k]),
            forall|k: int| 0 <= k < i ==> #[trigger] weights@[k] == entries@[k].weight,
            forall|k: int| 0 <= k < i ==> #[trigger] weights@[k] <= 99,
        decreases n - i,
    {
        let f = &d.files[i];
        let fstem = file_stem(f.name.as_str());
        match split_weight_prefix(fstem.as_str()) {
            Some(p) => {
                let (w, trait_label) = p;
                entries.push(
                    TraitEntry {
                        source_path: f.path.clone(),
                        weight: w,
                        category_label: label.clone(),
                        trait_label,
                    },
                );
                weights.push(w);
            },
            None => {
                let e = ArtGenError::IncorrectFileConvention(f.path.clone());
                assert(!file_ok(d.files@[i as int]));
                return Err(e);
            },
        }
        i = i + 1;
    }
    let ghost ws = weights@;
    assert(ws =~= entries@.map_values(|e: TraitEntry| e.weight));
    if 0 < n && n <= u32::MAX as usize {
        proof {
            lemma_small_weights_accepted(n as nat);
        }
    }
    assert(alias_accepts(ws) <==> (0 < n <= u32::MAX && exists|k: int|
        0 <= k < n && #[trigger] ws[k] > 0));
    assert((exists|k: int| 0 <= k < n && #[trigger] ws[k] > 0) <==> (exists|k: int|
        0 <= k < n && file_weight(#[trigger] d.files@[k]) > 0)) by {
        if exists|k: int| 0 <= k < n && #[trigger] ws[k] > 0 {
            let k = choose|k: int| 0 <= k < n && #[trigger] ws[k] > 0;
            assert(entry_of(entries@[k], label@, d.files@[k]));
        }
        if exists|k: int| 0 <= k < n && file_weight(#[trigger] d.files@[k]) > 0 {
            let k = choose|k: int| 0 <= k < n && file_weight(#[trigger] d.files@[k]) > 0;
            assert(entry_of(entries@[k], label@, d.files@[k]));
            assert(ws[k] > 0);
        }
    }
    match alias_index(weights) {
        Some(dist) => Ok(Category { label, entries, dist }),
        None => Err(ArtGenError::EmptyDistribution(d.name.clone())),
    }
}

impl Catalog {
    /// At least one category, each with a usable distribution.
    pub open spec fn wf(&self) -> bool {
        &&& self.categories.len() > 0
        &&& forall|i: int| 0 <= i < self.categories.len() ==> (#[trigger] self.categories@[i]).wf()
    }
}

/// Every directory gives a category, and there is at least one.
pub open spec fn catalog_ok(dirs: Seq<DirListing>) -> bool {
    &&& dirs.len() > 0
    &&& forall|i: int| 0 <= i < dirs.len() ==> dir_ok(#[trigger] dirs[i])
}

/// `c` holds the categories of `dirs`, in the same order.
pub open spec fn catalog_of(c: Catalog, dirs: Seq<DirListing>) -> bool {
    &&& c.categories.len() == dirs.len()
    &&& forall|i: int| 0 <= i < dirs.len() ==> category_of(#[trigger] c.categories@[i], dirs[i])
}

/// The catalog of the directories in the order given; an error names the first
/// directory that gives no category, and an empty list is too few layers.
pub fn parse_catalog(dirs: &Vec<DirListing>) -> (r: Result<Catalog, ArtGenError>)
    ensures
        r is Ok <==> catalog_ok(dirs@),
        r is Ok ==> r->Ok_0.wf() && catalog_of(r->Ok_0, dirs@),
        r is Err && dirs.len() == 0 ==> r->Err_0 is InsufficientLayers,
        r is Err && dirs.len() > 0 ==> exists|i: int|
            0 <= i < dirs.len() && !dir_ok(#[trigger] dirs@[i]) && dir_error(dirs@[i], r->Err_0)
                && forall|k: int| 0 <= k < i ==> dir_ok(#[trigger] dirs@[k]),
{
    if dirs.len() == 0 {
        return Err(ArtGenError::InsufficientLayers);
    }
    let mut categories: Vec<Category> = Vec::new();
    let mut i: usize = 0;
    while i < dirs.len()
        invariant
            i <= dirs.len(),
            categories.len() == i,
            forall|k: int| 0 <= k < i ==> dir_ok(#[trigger] dirs@[k]),
            forall|k: int| 0 <= k < i ==> (#[trigger] categories@[k]).wf(),
            forall|k: int| 0 <= k < i ==> category_of(#[trigger] categories@[k], dirs@[k]),
        decreases dirs.len() - i,
    {
        match parse_category(&dirs[i]) {
            Ok(c) => {
                categories.push(c);
            },
            Err(e) => {
                return Err(e);
            },
        }
        i = i + 1;
    }
    Ok(Catalog { categories })
}

/// The catalog of the category directories, put in layering order by name.
pub fn load_catalog(dirs: Vec<DirListing>) -> (r: Result<Catalog, ArtGenError>)
    ensures
        r is Ok <==> catalog_ok(dirs@),
        r is Ok ==> r->Ok_0.wf() && exists|s: Seq<DirListing>|
            s.to_multiset() == dirs@.to_multiset() && names_sorted(s) && catalog_of(r->Ok_0, s),
        r is Err && dirs.len() == 0 ==> r->Err_0 is InsufficientLayers,
        r is Err && dirs.len() > 0 ==> exists|i: int|
            0 <= i < dirs.len() && !dir_ok(#[trigger] dirs@[i]) && dir_error(dirs@[i], r->Err_0),
{
    broadcast use group_to_multiset_ensures;

    let ghost given = dirs@;
    let sorted = sort_listings(dirs);
    let r = parse_catalog(&sorted);
    assert(sorted@.len() == given.len()) by {
        assert(sorted@.to_multiset().len() == given.to_multiset().len());
    }
    proof {
        given.to_multiset_ensures();
        sorted@.to_multiset_ensures();
    }
    assert forall|j: int| 0 <= j < given.len() implies #[trigger] sorted@.contains(given[j]) by {
        assert(given.contains(given[j]));
        assert(given.to_multiset().count(given[j]) > 0);
        assert(sorted@.to_multiset().count(given[j]) > 0);
    }
    assert forall|j: int| 0 <= j < sorted@.len() implies #[trigger] given.contains(sorted@[j]) by {
        assert(sorted@.contains(sorted@[j]));
        assert(sorted@.to_multiset().count(sorted@[j]) > 0);
        assert(given.to_multiset().count(sorted@[j]) > 0);
    }
    proof {
        if catalog_ok(sorted@) {
            assert forall|j: int| 0 <= j < given.len() implies dir_ok(#[trigger] given[j]) by {
                assert(sorted@.contains(given[j]));
            }
        }
        if catalog_ok(given) {
            assert forall|j: int| 0 <= j < sorted@.len() implies dir_ok(#[trigger] sorted@[j]) by {
                assert(given.contains(sorted@[j]));
            }
        }
        if r is Err && given.len() > 0 {
            let i = choose|i: int|
                0 <= i < sorted@.len() && !dir_ok(#[trigger] sorted@[i]) && dir_error(
                    sorted@[i],
                    r->Err_0,
                ) && forall|k: int| 0 <= k < i ==> dir_ok(#[trigger] sorted@[k]);
            assert(given.contains(sorted@[i]));
        }
    }
    r
}

} // verus!
