//! Skies: fog parameters for the indoor and outdoor variants of a level's
//! atmosphere. Densities are 16.16 fractions of full opacity; distances are
//! 16.16 world units.

use vstd::prelude::*;
use crate::error::{Error, MResult};
use crate::fixed::FX_ONE;
use crate::geometry::Geometry;
use crate::table::Table;
use crate::text::push_str;

verus! {

/// Parameters for adding a sky.
pub struct AddSkyParameter {
    /// Optional skybox geometry, which must already be loaded.
    pub geometry: Option<String>,

    pub outdoor_fog_color: [i32; 3],
    pub outdoor_fog_maximum_density: i32,
    pub outdoor_fog_start_distance: i32,
    pub outdoor_fog_opaque_distance: i32,

    pub indoor_fog_color: [i32; 3],
    pub indoor_fog_maximum_density: i32,
    pub indoor_fog_start_distance: i32,
    pub indoor_fog_opaque_distance: i32,
}

/// A loaded sky.
pub struct Sky {
    pub geometry: Option<String>,

    pub outdoor_fog_color: [i32; 3],
    pub outdoor_fog_maximum_density: i32,
    pub outdoor_fog_start_distance: i32,
    pub outdoor_fog_opaque_distance: i32,

    pub indoor_fog_color: [i32; 3],
    pub indoor_fog_maximum_density: i32,
    pub indoor_fog_start_distance: i32,
    pub indoor_fog_opaque_distance: i32,
}

/// A density is a fraction of full opacity.
pub open spec fn density_ok(d: int) -> bool {
    0 <= d <= FX_ONE
}

/// Fog starts at or after zero and no later than it becomes opaque.
pub open spec fn fog_distances_ok(start: int, opaque: int) -> bool {
    0 <= start <= opaque
}

impl AddSkyParameter {
    /// Everything `validate` checks.
    pub open spec fn valid(&self, geometries: Table<Geometry>) -> bool {
        &&& density_ok(self.outdoor_fog_maximum_density as int)
        &&& density_ok(self.indoor_fog_maximum_density as int)
        &&& fog_distances_ok(
            self.outdoor_fog_start_distance as int,
            self.outdoor_fog_opaque_distance as int,
        )
        &&& fog_distances_ok(
            self.indoor_fog_start_distance as int,
            self.indoor_fog_opaque_distance as int,
        )
        &&& (self.geometry matches Some(g) ==> geometries.spec_get(g@) is Some)
    }

    /// Check fog ranges and the optional skybox geometry reference.
    pub fn validate(&self, geometries: &Table<Geometry>) -> (r: MResult<()>)
        ensures
            r is Ok <==> self.valid(*geometries),
            r matches Err(e) ==> e is DataError,
    {
        if self.outdoor_fog_maximum_density < 0 || self.outdoor_fog_maximum_density > FX_ONE {
            let mut m = String::new();
            push_str(&mut m, "Outdoor fog density is not between 0 and 1");
            return Err(Error::DataError { error: m });
        }
        if self.indoor_fog_maximum_density < 0 || self.indoor_fog_maximum_density > FX_ONE {
            let mut m = String::new();
            push_str(&mut m, "Indoor fog density is not between 0 and 1");
            return Err(Error::DataError { error: m });
        }
        if self.outdoor_fog_start_distance > self.outdoor_fog_opaque_distance
            || self.outdoor_fog_start_distance < 0 {
            let mut m = String::new();
            push_str(
                &mut m,
                "Outdoor fog starting distance is not between 0 and the opaque distance",
            );
            return Err(Error::DataError { error: m });
        }
        if self.indoor_fog_start_distance > self.indoor_fog_opaque_distance
            || self.indoor_fog_start_distance < 0 {
            let mut m = String::new();
            push_str(
                &mut m,
                "Indoor fog starting distance is not between 0 and the opaque distance",
            );
            return Err(Error::DataError { error: m });
        }
        if let Some(s) = self.geometry.as_ref() {
            if !geometries.contains_key(s.as_str()) {
                let mut m = String::new();
                push_str(&mut m, "Fog references skybox geometry ");
                push_str(&mut m, s.as_str());
                push_str(&mut m, " which is not loaded");
                return Err(Error::DataError { error: m });
            }
        }
        Ok(())
    }
}

} // verus!
