use dreamfield_renderer::error::ImportError;
use dreamfield_renderer::texture::{
    de_mipmapify, load_texture, quantize_channel, quantize_to_bit_depth, ImportConfig, SourceTexture, LINEAR, LINEAR_MIPMAP_LINEAR, LINEAR_MIPMAP_NEAREST,
    NEAREST, NEAREST_MIPMAP_LINEAR, NEAREST_MIPMAP_NEAREST,
};

#[test]
fn filter_numbers_are_those_of_opengl() {
    assert_eq!(NEAREST, gl::NEAREST);
    assert_eq!(LINEAR, gl::LINEAR);
    assert_eq!(NEAREST_MIPMAP_NEAREST, gl::NEAREST_MIPMAP_NEAREST);
    assert_eq!(LINEAR_MIPMAP_NEAREST, gl::LINEAR_MIPMAP_NEAREST);
    assert_eq!(NEAREST_MIPMAP_LINEAR, gl::NEAREST_MIPMAP_LINEAR);
    assert_eq!(LINEAR_MIPMAP_LINEAR, gl::LINEAR_MIPMAP_LINEAR);
}

#[test]
fn mipmapped_filters_lose_their_mip_part() {
    assert_eq!(de_mipmapify(NEAREST_MIPMAP_NEAREST), NEAREST);
    assert_eq!(de_mipmapify(LINEAR_MIPMAP_NEAREST), LINEAR);
    assert_eq!(de_mipmapify(NEAREST_MIPMAP_LINEAR), NEAREST);
    assert_eq!(de_mipmapify(LINEAR_MIPMAP_LINEAR), LINEAR);
}

#[test]
fn other_filters_are_kept() {
    assert_eq!(de_mipmapify(NEAREST), NEAREST);
    assert_eq!(de_mipmapify(LINEAR), LINEAR);
    assert_eq!(de_mipmapify(0), 0);
    assert_eq!(de_mipmapify(0x2704), 0x2704);
    assert_eq!(de_mipmapify(u32::MAX), u32::MAX);
}

#[test]
fn trilinear_sampler_becomes_linear_with_mip_levels() {
    let tex = SourceTexture {
        image: 0,
        wrap_s: gl::REPEAT,
        wrap_t: gl::CLAMP_TO_EDGE,
        min_filter: Some(LINEAR_MIPMAP_LINEAR),
        mag_filter: Some(LINEAR),
    };
    let plan = load_texture(&tex, 1, &ImportConfig::new(64)).unwrap();
    assert_eq!(plan.params.min_filter, LINEAR);
    assert_eq!(plan.params.mag_filter, LINEAR);
    assert_eq!(plan.params.horz_wrap, gl::REPEAT);
    assert_eq!(plan.params.vert_wrap, gl::CLAMP_TO_EDGE);
    assert!(plan.generate_mipmaps);
    assert_eq!(plan.quantize_bits, Some(5));
    assert_eq!(plan.image, 0);
}

#[test]
fn missing_filters_default_to_nearest() {
    let tex = SourceTexture { image: 2, wrap_s: 1, wrap_t: 2, min_filter: None, mag_filter: None };
    let plan = load_texture(&tex, 3, &ImportConfig::new(8)).unwrap();
    assert_eq!(plan.params.min_filter, NEAREST);
    assert_eq!(plan.params.mag_filter, NEAREST);
    assert!(plan.generate_mipmaps);
}

#[test]
fn stripping_can_be_switched_off() {
    let config = ImportConfig { texture_bits: None, strip_mipmap_filters: false, max_joints: 4 };
    let tex = SourceTexture {
        image: 0,
        wrap_s: 0,
        wrap_t: 0,
        min_filter: Some(NEAREST_MIPMAP_LINEAR),
        mag_filter: None,
    };
    let plan = load_texture(&tex, 1, &config).unwrap();
    assert_eq!(plan.params.min_filter, NEAREST_MIPMAP_LINEAR);
    assert_eq!(plan.params.mag_filter, NEAREST);
    assert_eq!(plan.quantize_bits, None);
    assert!(plan.generate_mipmaps);
}

#[test]
fn texture_without_its_image_is_a_reference_error() {
    let tex = SourceTexture { image: 3, wrap_s: 0, wrap_t: 0, min_filter: None, mag_filter: None };
    assert_eq!(load_texture(&tex, 3, &ImportConfig::new(1)), Err(ImportError::Reference));
    assert_eq!(load_texture(&tex, 0, &ImportConfig::new(1)), Err(ImportError::Reference));
    assert!(load_texture(&tex, 4, &ImportConfig::new(1)).is_ok());
}

#[test]
fn five_bits_keep_the_five_highest() {
    let mut pixels = vec![0u8, 7, 8, 15, 16, 127, 128, 200, 255];
    quantize_to_bit_depth(&mut pixels, 5);
    assert_eq!(pixels, vec![0, 0, 8, 8, 16, 120, 128, 200, 248]);
}

#[test]
fn quantizing_at_the_edges() {
    assert_eq!(quantize_channel(0xFF, 0), 0);
    assert_eq!(quantize_channel(0xFF, 1), 0x80);
    assert_eq!(quantize_channel(0x7F, 1), 0);
    assert_eq!(quantize_channel(0xFF, 7), 0xFE);
    assert_eq!(quantize_channel(0xAB, 8), 0xAB);
    assert_eq!(quantize_channel(0xAB, 200), 0xAB);
    assert_eq!(quantize_channel(0xAB, 4), 0xA0);
    let mut none: Vec<u8> = vec![];
    quantize_to_bit_depth(&mut none, 3);
    assert!(none.is_empty());
    let mut twice = vec![77u8, 201];
    quantize_to_bit_depth(&mut twice, 3);
    let once = twice.clone();
    quantize_to_bit_depth(&mut twice, 3);
    assert_eq!(twice, once);
    assert_eq!(once, vec![64, 192]);
}
