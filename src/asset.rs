//! One asset: a trait drawn from every category, the layers to paint in
//! order, and the metadata that describes it.
use vstd::prelude::*;

use crate::catalog::{Catalog, TraitEntry};
use crate::naming::{all_digits, decimal_value};

verus! {

#[verifier::external_type_specification]
#[verifier::external_body]
pub struct ExDynamicImage(image::DynamicImage);

/// One `{trait_type, value}` pair of an asset's metadata.
pub struct Attribute {
    pub trait_type: String,
    pub value: String,
}

/// An asset before it is accepted into a collection.
pub struct CandidateAsset {
    /// The entry drawn from each category, by index; two assets are the same
    /// exactly when their keys are.
    pub key: Vec<usize>,
    /// The drawn files, base first, in the order they are painted.
    pub layer_paths: Vec<String>,
    /// The metadata attributes: every category after the base in layering
    /// order, then the base.
    pub attributes: Vec<Attribute>,
}

/// The record written beside each generated image.
pub struct Metadata {
    pub name: String,
    pub description: String,
    pub image: String,
    pub attributes: Vec<Attribute>,
}

/// `picks` chooses one entry of every category of `c`.
pub open spec fn picks_valid(c: Catalog, picks: Seq<usize>) -> bool {
    &&& picks.len() == c.categories.len()
    &&& forall|i: int|
        0 <= i < picks.len() ==> #[trigger] picks[i] < c.categories@[i].entries.len()
}

/// The entry that `picks` chooses in category `i`.
pub open spec fn picked(c: Catalog, picks: Seq<usize>, i: int) -> TraitEntry {
    c.categories@[i].entries@[picks[i] as int]
}

/// `a` describes entry `e`.
pub open spec fn attribute_of(a: Attribute, e: TraitEntry) -> bool {
    a.trait_type@ == e.category_label@ && a.value@ == e.trait_label@
}

/// The category whose entry the `i`-th attribute describes: the base comes last.
pub open spec fn attribute_source(n: int, i: int) -> int {
    if i < n - 1 {
        i + 1
    } else {
        0
    }
}

/// `a` is the asset that `picks` chooses from `c`.
pub open spec fn asset_of(c: Catalog, picks: Seq<usize>, a: CandidateAsset) -> bool {
    let n = c.categories.len() as int;
    &&& a.key@ == picks
    &&& a.layer_paths.len() == n
    &&& forall|i: int|
        0 <= i < n ==> (#[trigger] a.layer_paths@[i])@ == picked(c, picks, i).source_path@
    &&& a.attributes.len() == n
    &&& forall|i: int|
        0 <= i < n ==> attribute_of(
            #[trigger] a.attributes@[i],
            picked(c, picks, attribute_source(n, i)),
        )
}

fn attribute_for(e: &TraitEntry) -> (r: Attribute)
    ensures
        attribute_of(r, *e),
{
    Attribute { trait_type: e.category_label.clone(), value: e.trait_label.clone() }
}

/// The asset made of the entries that `picks` chooses.
pub fn assemble(c: &Catalog, picks: Vec<usize>) -> (r: CandidateAsset)
    requires
        picks_valid(*c, picks@),
    ensures
        asset_of(*c, picks@, r),
{
    let n = c.categories.len();
    let mut layer_paths: Vec<String> = Vec::new();
    let mut attributes: Vec<Attribute> = Vec::new();
    let mut i: usize = 0;
    while i < n
        invariant
            n == c.categories.len(),
            picks_valid(*c, picks@),
            i <= n,
            layer_paths.len() == i,
            forall|k: int|
                0 <= k < i ==> (#[trigger] layer_paths@[k])@ == picked(*c, picks@, k).source_path@,
            attributes.len() == if i == 0 {
                0
            } else {
                i - 1
            },
            forall|k: int|
                0 <= k < attributes.len() ==> attribute_of(
                    #[trigger] attributes@[k],
                    picked(*c, picks@, k + 1),
                ),
        decreases n - i,
    {
        let e = &c.categories[i].entries[picks[i]];
        layer_paths.push(e.source_path.clone());
        if i > 0 {
            attributes.push(attribute_for(e));
        }
        i = i + 1;
    }
    if n > 0 {
        let base = &c.categories[0].entries[picks[0]];
        let ghost before = attributes@;
        attributes.push(attribute_for(base));
        assert forall|k: int| 0 <= k < n implies attribute_of(
            #[trigger] attributes@[k],
            picked(*c, picks@, attribute_source(n as int, k)),
        ) by {
            if k < n - 1 {
                assert(attributes@[k] == before[k]);
            }
        }
    }
    CandidateAsset { key: picks, layer_paths, attributes }
}

/// Draws one entry of every category.
pub fn draw_picks(c: &Catalog, rng: &mut rand::rngs::ThreadRng) -> (r: Vec<usize>)
    requires
        c.wf(),
    ensures
        picks_valid(*c, r@),
        forall|i: int| 0 <= i < r.len() ==> picked(*c, r@, i).weight > 0,
{
    let mut picks: Vec<usize> = Vec::new();
    let mut i: usize = 0;
    while i < c.categories.len()
        invariant
            c.wf(),
            i <= c.categories.len(),
            picks.len() == i,
            forall|k: int| 0 <= k < i ==> #[trigger] picks@[k] < c.categories@[k].entries.len(),
            forall|k: int| 0 <= k < i ==> picked(*c, picks@, k).weight > 0,
        decreases c.categories.len() - i,
    {
        assert(c.categories@[i as int].wf());
        let p = c.categories[i].draw(rng);
        let ghost before = picks@;
        picks.push(p);
        assert forall|k: int| 0 <= k <= i implies picked(*c, picks@, k).weight > 0 by {
            if k < i {
                assert(picks@[k] == before[k]);
                assert(picked(*c, picks@, k) == picked(*c, before, k));
            }
        }
        i = i + 1;
    }
    picks
}

/// Draws a fresh asset from the catalog.
pub fn select_asset(c: &Catalog, rng: &mut rand::rngs::ThreadRng) -> (r: CandidateAsset)
    requires
        c.wf(),
    ensures
        picks_valid(*c, r.key@),
        asset_of(*c, r.key@, r),
        forall|i: int| 0 <= i < r.key.len() ==> picked(*c, r.key@, i).weight > 0,
{
    let picks = draw_picks(c, rng);
    assemble(c, picks)
}

/// `s` is how `n` is written in decimal: digits only, no leading zero.
pub open spec fn is_decimal_of(s: Seq<char>, n: nat) -> bool {
    &&& s.len() > 0
    &&& all_digits(s)
    &&& decimal_value(s) == n
    &&& s.len() > 1 ==> s[0] != '0'
}

/// Relies on `u64`'s `Display` through `to_string`: the number in decimal,
/// with no sign and no leading zero.
#[verifier::external_body]
fn decimal_string(n: u64) -> (r: String)
    ensures
        is_decimal_of(r@, n as nat),
{
    n.to_string()
}

pub open spec fn project_name() -> Seq<char> {
    "<my_project>"@
}

pub open spec fn project_description() -> Seq<char> {
    "<my_project> is a cultural revolution."@
}

/// The name of the image file of asset `id`: `<id>.png`.
pub fn image_file_name(id: u64) -> (r: String)
    ensures
        exists|d: Seq<char>| is_decimal_of(d, id as nat) && r@ == d + ".png"@,
{
    let d = decimal_string(id);
    d.concat(".png")
}

/// The name of the metadata file of asset `id`: `<id>`.
pub fn metadata_file_name(id: u64) -> (r: String)
    ensures
        is_decimal_of(r@, id as nat),
{
    decimal_string(id)
}

/// The metadata of asset `id`, its image linked under `link_prefix`.
fn metadata_under(id: u64, attributes: Vec<Attribute>, link_prefix: &str) -> (r: Metadata)
    ensures
        exists|d: Seq<char>|
            {
                &&& is_decimal_of(d, id as nat)
                &&& r.name@ == project_name() + " #"@ + d
                &&& r.image@ == link_prefix@ + d + ".png"@
            },
        r.description@ == project_description(),
        r.attributes@ == attributes@,
{
    let d = decimal_string(id);
    let name = String::from_str("<my_project>").concat(" #").concat(d.as_str());
    let image = String::from_str(link_prefix).concat(d.as_str()).concat(".png");
    let description = String::from_str("<my_project> is a cultural revolution.");
    assert(name@ == project_name() + " #"@ + d@);
    assert(image@ == link_prefix@ + d@ + ".png"@);
    Metadata { name, description, image, attributes }
}

/// The metadata of generated asset `id` with the given attributes.
pub fn build_metadata(id: u64, attributes: Vec<Attribute>) -> (r: Metadata)
    ensures
        exists|d: Seq<char>|
            {
                &&& is_decimal_of(d, id as nat)
                &&& r.name@ == project_name() + " #"@ + d
                &&& r.image@ == "ipfs://hash/"@ + d + ".png"@
            },
        r.description@ == project_description(),
        r.attributes@ == attributes@,
{
    metadata_under(id, attributes, "ipfs://hash/")
}

/// The metadata of asset `id` painted from hand-chosen layers.
pub fn build_selection_metadata(id: u64, attributes: Vec<Attribute>) -> (r: Metadata)
    ensures
        exists|d: Seq<char>|
            {
                &&& is_decimal_of(d, id as nat)
                &&& r.name@ == project_name() + " #"@ + d
                &&& r.image@ == "ar://hash/"@ + d + ".png"@
            },
        r.description@ == project_description(),
        r.attributes@ == attributes@,
{
    metadata_under(id, attributes, "ar://hash/")
}

/// What `image::imageops::overlay` makes of `bottom` with `top` painted over
/// it from the top-left corner.
pub uninterp spec fn overlaid(bottom: image::DynamicImage, top: image::DynamicImage) -> image::DynamicImage;

/// `base` with each of `layers` painted over it in order, the first lowest.
pub open spec fn overlay_all(base: image::DynamicImage, layers: Seq<image::DynamicImage>) -> image::DynamicImage
    decreases layers.len(),
{
    if layers.len() == 0 {
        base
    } else {
        overlaid(overlay_all(base, layers.drop_last()), layers.last())
    }
}

/// Relies on `image::imageops::overlay`: paints `top` over `bottom` from the
/// top-left corner, each pixel blended by the alpha of `top`; the result
/// depends on the two images alone.
#[verifier::external_body]
fn overlay_at_origin(bottom: &mut image::DynamicImage, top: &image::DynamicImage)
    ensures
        *final(bottom) == overlaid(*old(bottom), *top),
{
    image::imageops::overlay(bottom, top, 0, 0)
}

/// Paints the layers over the base image, in order: the base at the bottom,
/// each later layer over the ones before it.
pub fn composite(base: image::DynamicImage, layers: &Vec<image::DynamicImage>) -> (r:
    image::DynamicImage)
    ensures
        r == overlay_all(base, layers@),
        layers.len() == 0 ==> r == base,
{
    let ghost b = base;
    let mut canvas = base;
    let mut i: usize = 0;
    while i < layers.len()
        invariant
            i <= layers.len(),
            canvas == overlay_all(b, layers@.subrange(0, i as int)),
        decreases layers.len() - i,
    {
        assert(layers@.subrange(0, i + 1).drop_last() =~= layers@.subrange(0, i as int));
        overlay_at_origin(&mut canvas, &layers[i]);
        i = i + 1;
    }
    assert(layers@.subrange(0, layers.len() as int) =~= layers@);
    canvas
}

} // verus!
