//! Versions of the Java edition, as numbers that compare as the versions do.

use vstd::prelude::*;

verus! {

/// A version: a million for the first part, a thousand for the second, one for the third.
pub type JavaMinecraftVersion = u32;

pub const V_1_10: JavaMinecraftVersion = 1_010_000;

pub const V_1_20_2: JavaMinecraftVersion = 1_020_002;

pub const V_1_20_3: JavaMinecraftVersion = 1_020_003;

pub const V_1_20_5: JavaMinecraftVersion = 1_020_005;

pub const V_1_21: JavaMinecraftVersion = 1_021_000;

pub const V_26_1: JavaMinecraftVersion = 26_001_000;

pub const V_26_2: JavaMinecraftVersion = 26_002_000;

/// Whether a version has the configuration state.
pub fn supports_configuration_state(version: JavaMinecraftVersion) -> (r: bool)
    ensures
        r == (version >= V_1_20_2),
{
    version >= V_1_20_2
}

} // verus!
