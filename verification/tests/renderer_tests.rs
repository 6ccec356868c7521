//! The renderer shell: construction and viewport layout, cameras, the
//! swapchain model, default bitmaps, and the asset tables.

use magellanicus::bitmap::{
    AddBitmapBitmapParameter, AddBitmapParameter, BitmapFormat, BitmapSequence, BitmapType,
    DefaultType,
};
use magellanicus::error::Error;
use magellanicus::fixed::FX_ONE;
use magellanicus::params::{parse_resolution, RendererParameters, Resolution, MSAA};
use magellanicus::renderer::{Camera, Renderer, DEFAULT_FOV, PI_FX};
use magellanicus::sky::AddSkyParameter;

fn params(w: u32, h: u32, viewports: usize) -> RendererParameters {
    RendererParameters {
        resolution: Resolution { width: w, height: h },
        number_of_viewports: viewports,
        vsync: false,
        msaa: MSAA::NoMSAA,
    }
}

fn new_renderer() -> Renderer {
    Renderer::new(params(640, 480, 1)).unwrap()
}

#[test]
fn three_viewports_are_laid_out_exactly() {
    // One across the top half, two in the bottom quarters.
    let renderer = Renderer::new(params(640, 480, 3)).unwrap();
    let half = FX_ONE / 2;
    let v = &renderer.player_viewports;
    assert_eq!(v.len(), 3);
    assert_eq!((v[0].rel_x, v[0].rel_y, v[0].rel_width, v[0].rel_height), (0, 0, FX_ONE, half));
    assert_eq!((v[1].rel_x, v[1].rel_y, v[1].rel_width, v[1].rel_height), (0, half, half, half));
    assert_eq!(
        (v[2].rel_x, v[2].rel_y, v[2].rel_width, v[2].rel_height),
        (half, half, half, half)
    );
}

#[test]
fn one_viewport_fills_the_screen() {
    let renderer = new_renderer();
    let v = &renderer.player_viewports[0];
    assert_eq!((v.rel_x, v.rel_y, v.rel_width, v.rel_height), (0, 0, FX_ONE, FX_ONE));
}

#[test]
fn four_viewports_make_quarters() {
    let renderer = Renderer::new(params(640, 480, 4)).unwrap();
    let half = FX_ONE / 2;
    let v = &renderer.player_viewports;
    assert_eq!((v[3].rel_x, v[3].rel_y, v[3].rel_width, v[3].rel_height), (half, half, half, half));
}

#[test]
fn viewport_count_out_of_range_fails() {
    assert!(Renderer::new(params(640, 480, 0)).is_err());
    assert!(Renderer::new(params(640, 480, 5)).is_err());
}

#[test]
fn zero_resolution_fails_construction() {
    assert!(Renderer::new(params(0, 480, 1)).is_err());
    assert!(Renderer::new(params(640, 0, 1)).is_err());
}

#[test]
fn rebuild_swapchain_rejects_zero_and_keeps_state() {
    // Resizing to (800,600) succeeds; a following (0,600) fails and the
    // swapchain still shows (800,600).
    let mut renderer = new_renderer();
    renderer.rebuild_swapchain(params(800, 600, 1)).unwrap();
    assert_eq!(renderer.swapchain.resolution, Resolution { width: 800, height: 600 });
    let r = renderer.rebuild_swapchain(params(0, 600, 1));
    assert!(r.is_err());
    assert_eq!(renderer.swapchain.resolution, Resolution { width: 800, height: 600 });
}

#[test]
fn camera_rotation_is_normalized() {
    let mut renderer = new_renderer();
    let mut cam = Camera::default();
    cam.rotation = [3 * FX_ONE, 0, 0];
    renderer.set_camera_for_viewport(0, cam);
    let got = renderer.get_camera_for_viewport(0);
    assert_eq!(got.rotation, [FX_ONE, 0, 0]);
}

#[test]
fn zero_rotation_falls_back_to_forward() {
    let mut renderer = new_renderer();
    let mut cam = Camera::default();
    cam.rotation = [0, 0, 0];
    renderer.set_camera_for_viewport(0, cam);
    assert_eq!(renderer.get_camera_for_viewport(0).rotation, [0, FX_ONE, 0]);
}

#[test]
fn default_camera_fov_is_in_range() {
    let cam = Camera::default();
    assert_eq!(cam.fov, DEFAULT_FOV);
    assert!(0 < cam.fov && cam.fov < PI_FX);
}

#[test]
fn designating_a_2d_bitmap_as_3d_fails_naming_it() {
    // The default 2D bitmap exists but is two-dimensional: designating it
    // for the 3D slot is a data error that names the bitmap.
    let mut renderer = new_renderer();
    let r = renderer.set_default_bitmaps("~default_2d", "~default_2d", "~default_cubemap");
    assert!(r.is_err());
    match r.unwrap_err() {
        Error::DataError { error } => assert!(error.contains("~default_2d")),
        _ => panic!("expected a data error"),
    }
}

#[test]
fn redesignating_the_proper_defaults_succeeds() {
    let mut renderer = new_renderer();
    renderer
        .set_default_bitmaps("~default_2d", "~default_3d", "~default_cubemap")
        .unwrap();
}

#[test]
fn designating_a_missing_bitmap_fails_naming_it() {
    let mut renderer = new_renderer();
    let r = renderer.set_default_bitmaps("nowhere", "~default_3d", "~default_cubemap");
    match r.unwrap_err() {
        Error::DataError { error } => assert!(error.contains("nowhere")),
        _ => panic!("expected a data error"),
    }
}

#[test]
fn bitmap_with_wrong_byte_count_fails() {
    let mut renderer = new_renderer();
    let r = renderer.add_bitmap(
        "bad",
        AddBitmapParameter {
            bitmaps: vec![AddBitmapBitmapParameter {
                format: BitmapFormat::A8R8G8B8,
                bitmap_type: BitmapType::Dim2D,
                resolution: Resolution { width: 2, height: 2 },
                mipmap_count: 0,
                data: vec![0; 15],
            }],
            sequences: Vec::new(),
        },
    );
    assert!(r.is_err());
    assert!(r.unwrap_err().message().contains("incorrect number of bytes"));
    assert_eq!(renderer.bitmaps.len(), 3);
}

#[test]
fn bitmap_with_mipmaps_needs_the_mip_chain_bytes() {
    // 4x4 at 4 bytes per pixel with two mip levels below the base:
    // 64 + 16 + 4 bytes.
    let mut renderer = new_renderer();
    renderer
        .add_bitmap(
            "mipped",
            AddBitmapParameter {
                bitmaps: vec![AddBitmapBitmapParameter {
                    format: BitmapFormat::A8R8G8B8,
                    bitmap_type: BitmapType::Dim2D,
                    resolution: Resolution { width: 4, height: 4 },
                    mipmap_count: 2,
                    data: vec![0; 84],
                }],
                sequences: Vec::new(),
            },
        )
        .unwrap();
}

#[test]
fn dxt1_blocks_are_eight_bytes() {
    // An 8x8 DXT1 bitmap is four 4x4 blocks of 8 bytes.
    let mut renderer = new_renderer();
    renderer
        .add_bitmap(
            "compressed",
            AddBitmapParameter {
                bitmaps: vec![AddBitmapBitmapParameter {
                    format: BitmapFormat::DXT1,
                    bitmap_type: BitmapType::Dim2D,
                    resolution: Resolution { width: 8, height: 8 },
                    mipmap_count: 0,
                    data: vec![0; 32],
                }],
                sequences: Vec::new(),
            },
        )
        .unwrap();
    assert_eq!(BitmapFormat::DXT1.block_pixel_length(), 4);
    assert_eq!(BitmapFormat::DXT1.block_byte_size(), 8);
    assert_eq!(BitmapFormat::A8Y8.block_byte_size(), 2);
}

#[test]
fn mipmap_count_over_the_possible_chain_fails() {
    let mut renderer = new_renderer();
    let r = renderer.add_bitmap(
        "too_mipped",
        AddBitmapParameter {
            bitmaps: vec![AddBitmapBitmapParameter {
                format: BitmapFormat::A8R8G8B8,
                bitmap_type: BitmapType::Dim2D,
                resolution: Resolution { width: 4, height: 4 },
                mipmap_count: 3,
                data: vec![0; 88],
            }],
            sequences: Vec::new(),
        },
    );
    assert!(r.is_err());
}

#[test]
fn sequence_with_bad_range_fails() {
    let mut renderer = new_renderer();
    let r = renderer.add_bitmap(
        "bad_seq",
        AddBitmapParameter {
            bitmaps: vec![AddBitmapBitmapParameter {
                format: BitmapFormat::A8R8G8B8,
                bitmap_type: BitmapType::Dim2D,
                resolution: Resolution { width: 1, height: 1 },
                mipmap_count: 0,
                data: vec![0; 4],
            }],
            sequences: vec![BitmapSequence::Bitmap { first: 1, count: 1 }],
        },
    );
    assert!(r.is_err());
}

#[test]
fn sky_density_out_of_range_fails() {
    let mut renderer = new_renderer();
    let sky = AddSkyParameter {
        geometry: None,
        outdoor_fog_color: [0, 0, 0],
        outdoor_fog_maximum_density: 2 * FX_ONE,
        outdoor_fog_start_distance: 0,
        outdoor_fog_opaque_distance: FX_ONE,
        indoor_fog_color: [0, 0, 0],
        indoor_fog_maximum_density: 0,
        indoor_fog_start_distance: 0,
        indoor_fog_opaque_distance: FX_ONE,
    };
    assert!(renderer.add_sky("sky", sky).is_err());
    assert_eq!(renderer.skies.len(), 0);
}

#[test]
fn sky_start_past_opaque_fails() {
    let mut renderer = new_renderer();
    let sky = AddSkyParameter {
        geometry: None,
        outdoor_fog_color: [0, 0, 0],
        outdoor_fog_maximum_density: FX_ONE,
        outdoor_fog_start_distance: 600 * FX_ONE,
        outdoor_fog_opaque_distance: 500 * FX_ONE,
        indoor_fog_color: [0, 0, 0],
        indoor_fog_maximum_density: 0,
        indoor_fog_start_distance: 0,
        indoor_fog_opaque_distance: FX_ONE,
    };
    assert!(renderer.add_sky("sky", sky).is_err());
}

#[test]
fn set_current_bsp_requires_a_loaded_level() {
    let mut renderer = new_renderer();
    assert!(renderer.set_current_bsp(Some("missing")).is_err());
    assert!(renderer.set_current_bsp(None).is_ok());
    assert!(renderer.current_bsp.is_none());
}

#[test]
fn reset_clears_content_but_keeps_defaults() {
    let mut renderer = new_renderer();
    renderer
        .add_sky(
            "sky",
            AddSkyParameter {
                geometry: None,
                outdoor_fog_color: [0, 0, 0],
                outdoor_fog_maximum_density: 0,
                outdoor_fog_start_distance: 0,
                outdoor_fog_opaque_distance: 0,
                indoor_fog_color: [0, 0, 0],
                indoor_fog_maximum_density: 0,
                indoor_fog_start_distance: 0,
                indoor_fog_opaque_distance: 0,
            },
        )
        .unwrap();
    assert_eq!(renderer.skies.len(), 1);
    renderer.reset();
    assert_eq!(renderer.skies.len(), 0);
    assert_eq!(renderer.bitmaps.len(), 3);
    assert!(renderer.bitmaps.get("~default_2d").is_some());
}

#[test]
fn parse_resolution_accepts_both_separators() {
    assert_eq!(
        parse_resolution(String::from("800x600")).unwrap(),
        Resolution { width: 800, height: 600 }
    );
    assert_eq!(
        parse_resolution(String::from("1920,1080")).unwrap(),
        Resolution { width: 1920, height: 1080 }
    );
}

#[test]
fn parse_resolution_rejects_malformed_strings() {
    assert!(parse_resolution(String::from("800")).is_err());
    assert!(parse_resolution(String::from("800x600x700")).is_err());
    assert!(parse_resolution(String::from("800x")).is_err());
    assert!(parse_resolution(String::from("x600")).is_err());
    assert!(parse_resolution(String::from("0x600")).is_err());
    assert!(parse_resolution(String::from("800x0")).is_err());
    assert!(parse_resolution(String::from("axb")).is_err());
    assert!(parse_resolution(String::from("99999999999x5")).is_err());
}

#[test]
fn msaa_sample_counts() {
    assert_eq!(MSAA::NoMSAA.samples(), 1);
    assert_eq!(MSAA::MSAA2x.samples(), 2);
    assert_eq!(MSAA::MSAA16x.samples(), 16);
}

#[test]
fn error_messages_name_their_kind() {
    let e = Error::from_data_error_string(String::from("broken"));
    assert_eq!(e.message(), "Data error: broken");
    let g = Error::from_vulkan_error(String::from("lost device"));
    assert_eq!(g.message(), "Vulkan API error: lost device");
}

#[test]
fn duplicate_bitmap_path_fails() {
    let mut renderer = new_renderer();
    let make = || AddBitmapParameter {
        bitmaps: vec![AddBitmapBitmapParameter {
            format: BitmapFormat::A8R8G8B8,
            bitmap_type: BitmapType::Dim2D,
            resolution: Resolution { width: 1, height: 1 },
            mipmap_count: 0,
            data: vec![0; 4],
        }],
        sequences: Vec::new(),
    };
    renderer.add_bitmap("bm", make()).unwrap();
    assert!(renderer.add_bitmap("bm", make()).is_err());
}

#[test]
fn named_bitmaps_override_the_fallback() {
    let mut renderer = new_renderer();
    renderer
        .add_bitmap(
            "named",
            AddBitmapParameter {
                bitmaps: vec![AddBitmapBitmapParameter {
                    format: BitmapFormat::A8R8G8B8,
                    bitmap_type: BitmapType::Dim2D,
                    resolution: Resolution { width: 1, height: 1 },
                    mipmap_count: 0,
                    data: vec![1, 2, 3, 4],
                }],
                sequences: Vec::new(),
            },
        )
        .unwrap();
    let named = Some(String::from("named"));
    let got = renderer.get_or_default_2d(&named, 0, DefaultType::White);
    assert_eq!(got.data, vec![1, 2, 3, 4]);
    let fallback = renderer.get_or_default_2d(&None, 0, DefaultType::White);
    assert_eq!(&fallback.data[0..4], &[0, 0, 0x80, 0x3F]);
}
