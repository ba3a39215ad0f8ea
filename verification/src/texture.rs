use vstd::prelude::*;
use crate::error::ImportError;

verus! {

/// Minification and magnification filters, by their OpenGL numbers.
pub const NEAREST: u32 = 0x2600;

pub const LINEAR: u32 = 0x2601;

pub const NEAREST_MIPMAP_NEAREST: u32 = 0x2700;

pub const LINEAR_MIPMAP_NEAREST: u32 = 0x2701;

pub const NEAREST_MIPMAP_LINEAR: u32 = 0x2702;

pub const LINEAR_MIPMAP_LINEAR: u32 = 0x2703;

/// What an import may be told.
#[derive(Clone, Copy, Debug, PartialEq, Eq, Structural)]
pub struct ImportConfig {
    /// The bit depth to which pixel channels are reduced, if any.
    pub texture_bits: Option<u8>,
    /// Whether mip-mapped filter modes are replaced by their plain forms.
    pub strip_mipmap_filters: bool,
    /// The number of joints that the joint block of the GPU can take.
    pub max_joints: usize,
}

/// A texture as the asset declares it: the image it shows and its sampler.
#[derive(Clone, Copy, Debug, PartialEq, Eq, Structural)]
pub struct SourceTexture {
    pub image: usize,
    pub wrap_s: u32,
    pub wrap_t: u32,
    pub min_filter: Option<u32>,
    pub mag_filter: Option<u32>,
}

/// The sampler state a texture is created with.
#[derive(Clone, Copy, Debug, PartialEq, Eq, Structural)]
pub struct TextureParams {
    pub horz_wrap: u32,
    pub vert_wrap: u32,
    pub min_filter: u32,
    pub mag_filter: u32,
}

/// How one texture is to be created: from which image, reduced to which bit
/// depth, with which sampler state, and whether mip levels are generated.
#[derive(Clone, Copy, Debug, PartialEq, Eq, Structural)]
pub struct TexturePlan {
    pub image: usize,
    pub quantize_bits: Option<u8>,
    pub params: TextureParams,
    pub generate_mipmaps: bool,
}

/// A filter without its mip-map part: the four mip-mapped modes give the
/// mode they apply within a level, every other number is kept.
pub open spec fn without_mipmap(filter: u32) -> u32 {
    if filter == NEAREST_MIPMAP_NEAREST || filter == NEAREST_MIPMAP_LINEAR {
        NEAREST
    } else if filter == LINEAR_MIPMAP_NEAREST || filter == LINEAR_MIPMAP_LINEAR {
        LINEAR
    } else {
        filter
    }
}

/// The filter a texture ends up with: the declared one, or nearest, and
/// without its mip-map part where the configuration says so.
pub open spec fn effective_filter(declared: Option<u32>, config: ImportConfig) -> u32 {
    let f = match declared {
        Some(f) => f,
        None => NEAREST,
    };
    if config.strip_mipmap_filters {
        without_mipmap(f)
    } else {
        f
    }
}

/// The plan for a texture whose image exists.
pub open spec fn texture_plan(tex: SourceTexture, config: ImportConfig) -> TexturePlan {
    TexturePlan {
        image: tex.image,
        quantize_bits: config.texture_bits,
        params: TextureParams {
            horz_wrap: tex.wrap_s,
            vert_wrap: tex.wrap_t,
            min_filter: effective_filter(tex.min_filter, config),
            mag_filter: effective_filter(tex.mag_filter, config),
        },
        generate_mipmaps: true,
    }
}

impl ImportConfig {
    /// Five bits a channel and mip-mapped filters stripped, for a joint
    /// block of `max_joints` joints.
    pub fn new(max_joints: usize) -> (r: ImportConfig)
        ensures
            r == (ImportConfig { texture_bits: Some(5u8), strip_mipmap_filters: true, max_joints }),
    {
        ImportConfig { texture_bits: Some(5u8), strip_mipmap_filters: true, max_joints }
    }
}

/// Removes the mip-map part from a texture filter.
pub fn de_mipmapify(filter: u32) -> (r: u32)
    ensures
        r == without_mipmap(filter),
{
    if filter == NEAREST_MIPMAP_NEAREST {
        NEAREST
    } else if filter == LINEAR_MIPMAP_NEAREST {
        LINEAR
    } else if filter == NEAREST_MIPMAP_LINEAR {
        NEAREST
    } else if filter == LINEAR_MIPMAP_LINEAR {
        LINEAR
    } else {
        filter
    }
}

/// Plans one texture of an asset with `image_count` images. A texture whose
/// image does not exist is a reference error; every other texture gets its
/// plan, always with mip levels.
pub fn load_texture(tex: &SourceTexture, image_count: usize, config: &ImportConfig) -> (r: Result<
    TexturePlan,
    ImportError,
>)
    ensures
        tex.image >= image_count ==> r == Err::<TexturePlan, ImportError>(ImportError::Reference),
        tex.image < image_count ==> r == Ok::<TexturePlan, ImportError>(texture_plan(*tex, *config)),
{
    if tex.image >= image_count {
        return Err(ImportError::Reference);
    }
    let declared_min = match tex.min_filter {
        Some(f) => f,
        None => NEAREST,
    };
    let declared_mag = match tex.mag_filter {
        Some(f) => f,
        None => NEAREST,
    };
    let mut params = TextureParams {
        horz_wrap: tex.wrap_s,
        vert_wrap: tex.wrap_t,
        min_filter: declared_min,
        mag_filter: declared_mag,
    };
    if config.strip_mipmap_filters {
        params.min_filter = de_mipmapify(params.min_filter);
        params.mag_filter = de_mipmapify(params.mag_filter);
    }
    Ok(TexturePlan { image: tex.image, quantize_bits: config.texture_bits, params, generate_mipmaps: true })
}

/// A channel reduced to `bits` bits: its `bits` highest bits are kept and
/// the bits below them cleared. Eight bits or more keep the channel.
pub open spec fn quantized(p: u8, bits: u8) -> u8 {
    if bits >= 8 {
        p
    } else if bits == 0 {
        0
    } else {
        let low: u8 = (8 - bits) as u8;
        (p >> low) << low
    }
}

/// Reduces one channel to `bits` bits.
pub fn quantize_channel(p: u8, bits: u8) -> (r: u8)
    ensures
        r == quantized(p, bits),
{
    if bits >= 8 {
        p
    } else if bits == 0 {
        0
    } else {
        let low: u8 = 8 - bits;
        (p >> low) << low
    }
}

/// Reduces every channel of every pixel to `bits` bits, in place.
pub fn quantize_to_bit_depth(pixels: &mut Vec<u8>, bits: u8)
    ensures
        final(pixels)@.len() == old(pixels)@.len(),
        forall|i: int| 0 <= i < old(pixels)@.len() ==> #[trigger] final(pixels)@[i] == quantized(old(pixels)@[i], bits),
{
    let mut i: usize = 0;
    while i < pixels.len()
        invariant
            i <= pixels@.len(),
            pixels@.len() == old(pixels)@.len(),
            forall|k: int| 0 <= k < i ==> #[trigger] pixels@[k] == quantized(old(pixels)@[k], bits),
            forall|k: int| i <= k < pixels@.len() ==> #[trigger] pixels@[k] == old(pixels)@[k],
        decreases pixels@.len() - i,
    {
        let q = quantize_channel(pixels[i], bits);
        pixels.set(i, q);
        i = i + 1;
    }
}

/// Reducing a channel never raises it, and reducing it again changes
/// nothing.
pub proof fn lemma_quantized_is_lossy_once(p: u8, bits: u8)
    ensures
        quantized(p, bits) <= p,
        quantized(quantized(p, bits), bits) == quantized(p, bits),
{
    if 0 < bits < 8 {
        let low: u8 = (8 - bits) as u8;
        assert(((p >> low) << low) <= p && ((((p >> low) << low) >> low) << low) == ((p >> low) << low)) by (bit_vector)
            requires
                0 < low < 8,
        ;
    }
}

/// After stripping, no filter is a mip-mapped mode.
pub proof fn lemma_stripped_filter_is_plain(filter: u32)
    ensures
        without_mipmap(filter) != NEAREST_MIPMAP_NEAREST,
        without_mipmap(filter) != LINEAR_MIPMAP_NEAREST,
        without_mipmap(filter) != NEAREST_MIPMAP_LINEAR,
        without_mipmap(filter) != LINEAR_MIPMAP_LINEAR,
        without_mipmap(without_mipmap(filter)) == without_mipmap(filter),
{
}

} // verus!
