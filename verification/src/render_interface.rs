//! What a renderer backend offers to set up foliage.
use crate::types::MeshFoliage;
use vstd::prelude::*;

verus! {

/// Collects foliage descriptions and numbers them in the order they come.
pub trait FoliageDescriptionBuilder<FoliageDescType>: Sized {
    /// The descriptions collected so far.
    spec fn descriptions(&self) -> Seq<FoliageDescType>;

    /// A builder with no description.
    fn new() -> (r: Self)
        ensures
            r.descriptions() == Seq::<FoliageDescType>::empty(),
    ;

    /// Adds a description and returns its number (taken as a `u32`).
    fn load_foliage(&mut self, foliage_desc: FoliageDescType) -> (r: MeshFoliage)
        ensures
            r == (old(self).descriptions().len() as u32) as usize,
            final(self).descriptions() == old(self).descriptions().push(foliage_desc),
    ;

    /// All descriptions, in the order they were added.
    fn build(self) -> (r: Vec<FoliageDescType>)
        ensures
            r@ == self.descriptions(),
    ;
}

/// A foliage handle indexes the built list: the description loaded when the
/// builder held the descriptions `before` gets the handle `before.len()`
/// (for fewer than 2^32 descriptions), and the list after that load and any
/// later ones (`later`) holds it at that index.
pub proof fn lemma_handle_indexes_built_list<D>(before: Seq<D>, desc: D, later: Seq<D>)
    requires
        before.len() <= u32::MAX,
    ensures
        ((before.len() as u32) as usize) as int == before.len(),
        (before.push(desc) + later)[before.len() as int] == desc,
        (before.push(desc) + later).len() == before.len() + 1 + later.len(),
{
}

/// Represents a (compiled from GLSL for Vulkan) shader source.
pub enum ShaderSource<'a> {
    /// SPIR-V binary data for Vulkan (compiled from GLSL).
    SpirV(&'a [u8]),
    /// WGSL string for WebGPU.
    Wgsl(&'a str),
}

/// Makes a backend's foliage description from a shader and its sizes.
pub trait FoliageDescriptionCreate<'a>: Sized {
    /// The backend can use shaders of the kind of `code`.
    spec fn accepts(code: ShaderSource<'a>) -> bool;

    /// A description from the shader `code`, `vertices` vertices per blade and
    /// `dencity` blades per row.
    fn new(code: ShaderSource<'a>, vertices: usize, dencity: usize) -> (r: Self)
        requires
            Self::accepts(code),
    ;
}

} // verus!
