//! The small verified utilities: integer square roots, sorted index sets,
//! string ordering, and decimal rendering.

use magellanicus::bitmap::{BitmapFormat, BitmapType, DefaultType};
use magellanicus::fixed::isqrt;
use magellanicus::geometry::MaterialVertexBuffers;
use magellanicus::params::{RendererParameters, Resolution, MSAA};
use magellanicus::renderer::Renderer;
use magellanicus::sort::sort_dedup;
use magellanicus::text::{push_u64, push_str, str_lt};
use magellanicus::transcode::transcode_to_bgra8;
use magellanicus::vertex::{LightmapVertex, ModelTriangle, ModelVertex};

#[test]
fn integer_square_roots_are_floored() {
    assert_eq!(isqrt(0), 0);
    assert_eq!(isqrt(1), 1);
    assert_eq!(isqrt(2), 1);
    assert_eq!(isqrt(16), 4);
    assert_eq!(isqrt(24), 4);
    assert_eq!(isqrt(25), 5);
    assert_eq!(isqrt(1 << 40), 1 << 20);
}

#[test]
fn sort_dedup_sorts_and_removes_duplicates() {
    assert_eq!(sort_dedup(&vec![3, 1, 3, 2, 1]), vec![1, 2, 3]);
    assert_eq!(sort_dedup(&vec![]), Vec::<usize>::new());
    assert_eq!(sort_dedup(&vec![5, 5, 5]), vec![5]);
    assert_eq!(sort_dedup(&vec![9, 0, 4]), vec![0, 4, 9]);
}

#[test]
fn string_order_is_lexicographic() {
    assert!(str_lt("abc", "abd"));
    assert!(str_lt("ab", "abc"));
    assert!(!str_lt("abc", "abc"));
    assert!(!str_lt("b", "abc"));
    assert!(str_lt("", "a"));
}

#[test]
fn decimal_rendering_matches_formatting() {
    let mut s = String::new();
    push_u64(&mut s, 0);
    push_str(&mut s, " ");
    push_u64(&mut s, 48091);
    push_str(&mut s, " ");
    push_u64(&mut s, 10);
    assert_eq!(s, "0 48091 10");
}

#[test]
fn transcoding_expands_monochrome_formats() {
    assert_eq!(
        transcode_to_bgra8(BitmapFormat::A8, &vec![7, 9]).unwrap(),
        vec![255, 255, 255, 7, 255, 255, 255, 9]
    );
    assert_eq!(
        transcode_to_bgra8(BitmapFormat::Y8, &vec![7]).unwrap(),
        vec![7, 7, 7, 255]
    );
    assert_eq!(
        transcode_to_bgra8(BitmapFormat::AY8, &vec![7]).unwrap(),
        vec![7, 7, 7, 7]
    );
    assert_eq!(
        transcode_to_bgra8(BitmapFormat::A8Y8, &vec![3, 8]).unwrap(),
        vec![8, 8, 8, 3]
    );
    assert!(transcode_to_bgra8(BitmapFormat::A8Y8, &vec![3]).is_none());
    assert!(transcode_to_bgra8(BitmapFormat::DXT1, &vec![0; 8]).is_none());
}

#[test]
fn material_vertex_buffers_check_their_inputs() {
    let v = |x: i32| ModelVertex {
        position: [x, 0, 0],
        normal: [0, 0, 0],
        binormal: [0, 0, 0],
        tangent: [0, 0, 0],
        texture_coords: [0, 0],
    };
    let ok = MaterialVertexBuffers::new(
        vec![v(0), v(1), v(2)],
        Some(vec![
            LightmapVertex { lightmap_texture_coords: [1, 2] },
            LightmapVertex { lightmap_texture_coords: [3, 4] },
            LightmapVertex { lightmap_texture_coords: [5, 6] },
        ]),
        vec![ModelTriangle { indices: [0, 2, 1] }],
    )
    .unwrap();
    assert_eq!(ok.indices, vec![0, 2, 1]);
    assert_eq!(ok.lightmap_coords.as_ref().unwrap()[1], [3, 4]);

    // A triangle index past the vertex count is rejected.
    assert!(MaterialVertexBuffers::new(
        vec![v(0), v(1)],
        None,
        vec![ModelTriangle { indices: [0, 1, 2] }],
    )
    .is_err());

    // A lightmap buffer of the wrong length is rejected.
    assert!(MaterialVertexBuffers::new(
        vec![v(0), v(1)],
        Some(vec![LightmapVertex { lightmap_texture_coords: [0, 0] }]),
        vec![],
    )
    .is_err());
}

#[test]
fn default_texture_lookup_by_kind() {
    let renderer = Renderer::new(RendererParameters {
        resolution: Resolution { width: 640, height: 480 },
        number_of_viewports: 1,
        vsync: false,
        msaa: MSAA::NoMSAA,
    })
    .unwrap();
    let white = renderer.get_default_2d(DefaultType::White);
    assert_eq!(white.bitmap_type, BitmapType::Dim2D);
    assert_eq!(white.resolution, Resolution { width: 1, height: 1 });
    // 1.0f32 little-endian in every channel.
    assert_eq!(&white.data[0..4], &[0, 0, 0x80, 0x3F]);
    let null = renderer.get_default_2d(DefaultType::Null);
    assert_eq!(&null.data[0..4], &[0, 0, 0, 0]);
    let cube = renderer.get_default_cubemap(DefaultType::Gray);
    assert_eq!(cube.data.len(), 96);
    assert_eq!(cube.bitmap_type, BitmapType::Cubemap);
}
