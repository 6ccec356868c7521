//! Shaders: the closed set of material kinds a level can draw with, and the
//! cross-checks each one's bitmap references must pass.

use vstd::prelude::*;
use crate::bitmap::{Bitmap, BitmapType};
use crate::error::{Error, MResult};
use crate::table::Table;
use crate::text::{push_str, push_usize};

verus! {

/// The tag group a shader came from. `Model` shaders are meant for dynamic
/// objects only and are rejected on level geometry.
#[derive(Copy, Clone, Debug, PartialEq, Eq, Structural)]
pub enum ShaderType {
    Environment,
    Model,
    TransparentGeneric,
    TransparentChicago,
    TransparentGlass,
    TransparentMeter,
    TransparentPlasma,
    TransparentWater,
}

impl ShaderType {
    /// Transparent shaders draw after all opaque ones.
    pub open spec fn spec_is_transparent(self) -> bool {
        match self {
            ShaderType::Environment => false,
            ShaderType::Model => false,
            _ => true,
        }
    }

    /// Transparent shaders draw after all opaque ones.
    pub fn is_transparent(self) -> (r: bool)
        ensures
            r == self.spec_is_transparent(),
    {
        match self {
            ShaderType::Environment => false,
            ShaderType::Model => false,
            _ => true,
        }
    }
}

#[derive(Copy, Clone, Debug, PartialEq, Eq, Structural)]
pub enum ShaderEnvironmentType {
    Normal,
    Blended,
    BlendedBaseSpecular,
}

#[derive(Copy, Clone, Debug, PartialEq, Eq, Structural)]
pub enum ShaderEnvironmentMapFunction {
    DoubleBiasedMultiply,
    Multiply,
    DoubleBiasedAdd,
}

#[derive(Copy, Clone, Debug, PartialEq, Eq, Structural)]
pub enum ShaderReflectionType {
    BumpedCubeMap,
    FlatCubeMap,
    BumpedRadiosity,
}

/// A basic single-texture material.
pub struct AddShaderBasicShaderData {
    pub bitmap: Option<String>,
    pub shader_type: ShaderType,
    pub alpha_tested: bool,
}

/// A full environment material, with detail, bump and reflection maps.
/// Scales are 16.16 fixed-point factors.
#[derive(Clone)]
pub struct AddShaderEnvironmentShaderData {
    pub alpha_tested: bool,

    pub shader_environment_type: ShaderEnvironmentType,
    pub base_map: Option<String>,

    pub detail_map_function: ShaderEnvironmentMapFunction,
    pub primary_detail_map: Option<String>,
    pub primary_detail_map_scale: i32,
    pub secondary_detail_map: Option<String>,
    pub secondary_detail_map_scale: i32,

    pub micro_detail_map: Option<String>,
    pub micro_detail_map_scale: i32,
    pub micro_detail_map_function: ShaderEnvironmentMapFunction,

    pub bump_map: Option<String>,
    pub bump_map_scale: i32,

    pub reflection_cube_map: Option<String>,
    pub reflection_type: ShaderReflectionType,
}

/// The data of a shader being added.
pub enum AddShaderData {
    /// Basic pipeline that renders a single texture.
    BasicShader(AddShaderBasicShaderData),

    /// Renders an environment texture.
    ShaderEnvironment(AddShaderEnvironmentShaderData),
}

/// Parameters for adding a shader.
pub struct AddShaderParameter {
    pub data: AddShaderData,
}

/// An optional bitmap reference resolves, and every sub-bitmap of the
/// referenced bitmap has the expected dimensionality.
pub open spec fn bitmap_ref_ok(
    bitmaps: Table<Bitmap>,
    reference: Option<String>,
    bitmap_type: BitmapType,
) -> bool {
    match reference {
        None => true,
        Some(path) => match bitmaps.spec_get(path@) {
            None => false,
            Some(b) => forall|i: int| 0 <= i < b.bitmaps@.len()
                ==> (#[trigger] b.bitmaps@[i]).bitmap_type == bitmap_type,
        },
    }
}

/// Report the first sub-bitmap whose dimensionality is not the expected
/// one.
pub fn expect_bitmap_or_else(bitmap: &Bitmap, bitmap_type: BitmapType, name: &str) -> (r: MResult<
    (),
>)
    ensures
        r is Ok <==> (forall|i: int| 0 <= i < bitmap.bitmaps@.len()
            ==> (#[trigger] bitmap.bitmaps@[i]).bitmap_type == bitmap_type),
        r matches Err(e) ==> e is DataError,
{
    let mut i: usize = 0;
    while i < bitmap.bitmaps.len()
        invariant
            forall|k: int| 0 <= k < i
                ==> (#[trigger] bitmap.bitmaps@[k]).bitmap_type == bitmap_type,
        decreases bitmap.bitmaps@.len() - i,
    {
        if !type_eq(bitmap.bitmaps[i].bitmap_type, bitmap_type) {
            let mut m = String::new();
            push_str(&mut m, "Bitmap #");
            push_usize(&mut m, i);
            push_str(&mut m, " of ");
            push_str(&mut m, name);
            push_str(&mut m, " is not the expected type");
            return Err(Error::DataError { error: m });
        }
        i = i + 1;
    }
    Ok(())
}

/// Exact equality of bitmap types, depth included.
fn type_eq(a: BitmapType, b: BitmapType) -> (r: bool)
    ensures
        r == (a == b),
{
    match (a, b) {
        (BitmapType::Dim2D, BitmapType::Dim2D) => true,
        (BitmapType::Cubemap, BitmapType::Cubemap) => true,
        (BitmapType::Dim3D { depth: d1 }, BitmapType::Dim3D { depth: d2 }) => d1 == d2,
        _ => false,
    }
}

/// Resolve an optional bitmap reference and check its dimensionality.
pub fn check_bitmap(
    bitmaps: &Table<Bitmap>,
    reference: &Option<String>,
    bitmap_type: BitmapType,
    name: &str,
) -> (r: MResult<()>)
    ensures
        r is Ok <==> bitmap_ref_ok(*bitmaps, *reference, bitmap_type),
        r matches Err(e) ==> e is DataError,
{
    let bitmap_path = match reference.as_ref() {
        None => {
            return Ok(());
        },
        Some(p) => p,
    };
    match bitmaps.get(bitmap_path.as_str()) {
        None => {
            let mut m = String::new();
            push_str(&mut m, name);
            push_str(&mut m, " ");
            push_str(&mut m, bitmap_path.as_str());
            push_str(&mut m, " is not loaded");
            Err(Error::DataError { error: m })
        },
        Some(bitmap) => expect_bitmap_or_else(bitmap, bitmap_type, name),
    }
}

impl AddShaderEnvironmentShaderData {
    /// Every map reference resolves with the right dimensionality: the flat
    /// maps are 2D and the reflection map is a cubemap.
    pub open spec fn valid(&self, bitmaps: Table<Bitmap>) -> bool {
        &&& bitmap_ref_ok(bitmaps, self.base_map, BitmapType::Dim2D)
        &&& bitmap_ref_ok(bitmaps, self.primary_detail_map, BitmapType::Dim2D)
        &&& bitmap_ref_ok(bitmaps, self.secondary_detail_map, BitmapType::Dim2D)
        &&& bitmap_ref_ok(bitmaps, self.micro_detail_map, BitmapType::Dim2D)
        &&& bitmap_ref_ok(bitmaps, self.bump_map, BitmapType::Dim2D)
        &&& bitmap_ref_ok(bitmaps, self.reflection_cube_map, BitmapType::Cubemap)
    }

    pub fn validate(&self, bitmaps: &Table<Bitmap>) -> (r: MResult<()>)
        ensures
            r is Ok <==> self.valid(*bitmaps),
            r matches Err(e) ==> e is DataError,
    {
        match check_bitmap(bitmaps, &self.base_map, BitmapType::Dim2D, "base map") {
            Ok(()) => {},
            Err(e) => {
                return Err(e);
            },
        }
        match check_bitmap(
            bitmaps,
            &self.primary_detail_map,
            BitmapType::Dim2D,
            "primary detail map",
        ) {
            Ok(()) => {},
            Err(e) => {
                return Err(e);
            },
        }
        match check_bitmap(
            bitmaps,
            &self.secondary_detail_map,
            BitmapType::Dim2D,
            "secondary detail map",
        ) {
            Ok(()) => {},
            Err(e) => {
                return Err(e);
            },
        }
        match check_bitmap(
            bitmaps,
            &self.micro_detail_map,
            BitmapType::Dim2D,
            "micro detail map",
        ) {
            Ok(()) => {},
            Err(e) => {
                return Err(e);
            },
        }
        match check_bitmap(bitmaps, &self.bump_map, BitmapType::Dim2D, "bump map") {
            Ok(()) => {},
            Err(e) => {
                return Err(e);
            },
        }
        match check_bitmap(
            bitmaps,
            &self.reflection_cube_map,
            BitmapType::Cubemap,
            "reflection cube map",
        ) {
            Ok(()) => {},
            Err(e) => {
                return Err(e);
            },
        }
        Ok(())
    }
}

impl AddShaderParameter {
    /// Everything `validate` checks.
    pub open spec fn valid(&self, bitmaps: Table<Bitmap>) -> bool {
        match &self.data {
            AddShaderData::BasicShader(b) => match &b.bitmap {
                None => true,
                Some(path) => bitmaps.spec_get(path@) is Some,
            },
            AddShaderData::ShaderEnvironment(s) => s.valid(bitmaps),
        }
    }

    /// Check that every referenced bitmap is loaded and of the right
    /// dimensionality.
    pub fn validate(&self, bitmaps: &Table<Bitmap>) -> (r: MResult<()>)
        ensures
            r is Ok <==> self.valid(*bitmaps),
            r matches Err(e) ==> e is DataError,
    {
        match &self.data {
            AddShaderData::BasicShader(b) => {
                if let Some(bitmap) = b.bitmap.as_ref() {
                    if !bitmaps.contains_key(bitmap.as_str()) {
                        let mut m = String::new();
                        push_str(&mut m, "Referenced bitmap ");
                        push_str(&mut m, bitmap.as_str());
                        push_str(&mut m, " is not loaded.");
                        return Err(Error::DataError { error: m });
                    }
                }
                Ok(())
            },
            AddShaderData::ShaderEnvironment(shader_data) => shader_data.validate(bitmaps),
        }
    }
}

/// A loaded shader: its kind decides transparency and draw-command
/// emission.
pub struct Shader {
    pub shader_type: ShaderType,
    pub data: AddShaderData,
}

impl Shader {
    /// Validate, then record the shader under its kind.
    pub fn load_from_parameters(
        bitmaps: &Table<Bitmap>,
        add_shader_parameter: AddShaderParameter,
    ) -> (r: MResult<Shader>)
        ensures
            r is Ok <==> add_shader_parameter.valid(*bitmaps),
            r matches Ok(s) ==> {
                &&& s.shader_type == (match add_shader_parameter.data {
                    AddShaderData::BasicShader(b) => b.shader_type,
                    AddShaderData::ShaderEnvironment(_) => ShaderType::Environment,
                })
                &&& s.data == add_shader_parameter.data
            },
            r matches Err(e) ==> e is DataError,
    {
        match add_shader_parameter.validate(bitmaps) {
            Ok(()) => {},
            Err(e) => {
                return Err(e);
            },
        }
        let shader_type = match &add_shader_parameter.data {
            AddShaderData::BasicShader(s) => s.shader_type,
            AddShaderData::ShaderEnvironment(_) => ShaderType::Environment,
        };
        Ok(Shader { shader_type, data: add_shader_parameter.data })
    }
}

} // verus!
