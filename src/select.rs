//! The manual mode: one asset painted from layer files chosen by hand.
use vstd::prelude::*;

use crate::asset::Attribute;
use crate::error::ArtGenError;
use crate::naming::{file_stem, has_weight_prefix, label_of, split_weight_prefix, stem_of};

verus! {

/// A layer file chosen by hand: the name of its directory and its own name.
pub struct ChosenLayer {
    pub dir_name: String,
    pub file_name: String,
}

/// The manual mode, which describes an asset made of chosen layer files.
pub struct Select;

/// Both names of the layer follow the `<two digits><label>` convention.
pub open spec fn layer_ok(l: ChosenLayer) -> bool {
    has_weight_prefix(stem_of(l.dir_name@)) && has_weight_prefix(stem_of(l.file_name@))
}

/// `a` describes layer `l`: its directory's label and its own.
pub open spec fn layer_attribute(a: Attribute, l: ChosenLayer) -> bool {
    a.trait_type@ == label_of(stem_of(l.dir_name@)) && a.value@ == label_of(stem_of(l.file_name@))
}

/// The error for the first layer that is not `layer_ok`.
pub open spec fn layer_error(l: ChosenLayer, e: ArtGenError) -> bool {
    if !has_weight_prefix(stem_of(l.dir_name@)) {
        e is IncorrectDirectoryConvention && e->IncorrectDirectoryConvention_0@ == l.dir_name@
    } else {
        e is IncorrectFileConvention && e->IncorrectFileConvention_0@ == l.file_name@
    }
}

/// The attribute that describes one chosen layer.
fn layer_attr(l: &ChosenLayer) -> (r: Result<Attribute, ArtGenError>)
    ensures
        r is Ok <==> layer_ok(*l),
        r is Ok ==> layer_attribute(r->Ok_0, *l),
        r is Err ==> layer_error(*l, r->Err_0),
{
    let dir_stem = file_stem(l.dir_name.as_str());
    let trait_type = match split_weight_prefix(dir_stem.as_str()) {
        Some(p) => p.1,
        None => {
            return Err(ArtGenError::IncorrectDirectoryConvention(l.dir_name.clone()));
        },
    };
    let stem = file_stem(l.file_name.as_str());
    let value = match split_weight_prefix(stem.as_str()) {
        Some(p) => p.1,
        None => {
            return Err(ArtGenError::IncorrectFileConvention(l.file_name.clone()));
        },
    };
    Ok(Attribute { trait_type, value })
}

/// The chosen layer that the `i`-th of `n` attributes describes: every layer
/// after the base in order, then the base.
pub open spec fn layer_source(n: int, i: int) -> int {
    if i < n - 1 {
        i + 1
    } else {
        0
    }
}

impl Select {
    /// The attributes of the chosen layers, the first of which is the base:
    /// every later layer in order, then the base, as for a generated asset.
    /// An error names the first layer that breaks the naming convention.
    pub fn attributes(layers: &Vec<ChosenLayer>) -> (r: Result<Vec<Attribute>, ArtGenError>)
        ensures
            r is Ok <==> forall|i: int| 0 <= i < layers.len() ==> layer_ok(#[trigger] layers@[i]),
            r is Ok ==> r->Ok_0.len() == layers.len() && forall|i: int|
                0 <= i < layers.len() ==> layer_attribute(
                    #[trigger] r->Ok_0@[i],
                    layers@[layer_source(layers.len() as int, i)],
                ),
            r is Err ==> exists|i: int|
                0 <= i < layers.len() && !layer_ok(#[trigger] layers@[i]) && layer_error(
                    layers@[i],
                    r->Err_0,
                ) && forall|k: int| 0 <= k < i ==> layer_ok(#[trigger] layers@[k]),
    {
        let n = layers.len();
        if n == 0 {
            return Ok(Vec::new());
        }
        let base = match layer_attr(&layers[0]) {
            Ok(a) => a,
            Err(e) => {
                return Err(e);
            },
        };
        let mut out: Vec<Attribute> = Vec::new();
        let mut i: usize = 1;
        while i < n
            invariant
                n == layers.len(),
                1 <= i <= n,
                out.len() == i - 1,
                forall|k: int| 0 <= k < i ==> layer_ok(#[trigger] layers@[k]),
                layer_attribute(base, layers@[0]),
                forall|k: int|
                    0 <= k < out.len() ==> layer_attribute(#[trigger] out@[k], layers@[k + 1]),
            decreases n - i,
        {
            match layer_attr(&layers[i]) {
                Ok(a) => {
                    out.push(a);
                },
                Err(e) => {
                    return Err(e);
                },
            }
            i = i + 1;
        }
        let ghost before = out@;
        out.push(base);
        assert forall|k: int| 0 <= k < n implies layer_attribute(
            #[trigger] out@[k],
            layers@[layer_source(n as int, k)],
        ) by {
            if k < n - 1 {
                assert(out@[k] == before[k]);
            }
        }
        Ok(out)
    }
}

} // verus!
