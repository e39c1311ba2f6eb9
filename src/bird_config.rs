use vstd::prelude::*;

verus! {

/// Largest value a config scalar may take, in fixed-point units.
pub const CONFIG_LIMIT: i64 = 1048576;

/// The parameters of one species, in fixed-point units. Separation looks at
/// neighbours within `desired_separation`; alignment and cohesion look at
/// neighbours within `neighbor_distance`.
#[derive(Clone, Copy, Debug, PartialEq, Eq, Structural)]
pub struct BirdConfig {
    pub neighbor_distance: i64,
    pub desired_separation: i64,
    pub separation_multiplier: i64,
    pub alignment_multiplier: i64,
    pub cohesion_multiplier: i64,
    pub max_speed: i64,
    pub max_force: i64,
    pub bird_size: i64,
    pub color_r: i64,
    pub color_g: i64,
    pub color_b: i64,
}

impl BirdConfig {
    /// Every steering scalar lies in `0..=CONFIG_LIMIT`; colours are free.
    pub open spec fn valid(&self) -> bool {
        &&& 0 <= self.neighbor_distance <= CONFIG_LIMIT
        &&& 0 <= self.desired_separation <= CONFIG_LIMIT
        &&& 0 <= self.separation_multiplier <= CONFIG_LIMIT
        &&& 0 <= self.alignment_multiplier <= CONFIG_LIMIT
        &&& 0 <= self.cohesion_multiplier <= CONFIG_LIMIT
        &&& 0 <= self.max_speed <= CONFIG_LIMIT
        &&& 0 <= self.max_force <= CONFIG_LIMIT
        &&& 0 <= self.bird_size <= CONFIG_LIMIT
    }

    pub fn new(
        neighbor_distance: i64,
        desired_separation: i64,
        separation_multiplier: i64,
        alignment_multiplier: i64,
        cohesion_multiplier: i64,
        max_speed: i64,
        max_force: i64,
        bird_size: i64,
        color_r: i64,
        color_g: i64,
        color_b: i64,
    ) -> (r: BirdConfig)
        ensures
            r == (BirdConfig {
                neighbor_distance,
                desired_separation,
                separation_multiplier,
                alignment_multiplier,
                cohesion_multiplier,
                max_speed,
                max_force,
                bird_size,
                color_r,
                color_g,
                color_b,
            }),
    {
        BirdConfig {
            neighbor_distance,
            desired_separation,
            separation_multiplier,
            alignment_multiplier,
            cohesion_multiplier,
            max_speed,
            max_force,
            bird_size,
            color_r,
            color_g,
            color_b,
        }
    }

    /// Whether every steering scalar lies in `0..=CONFIG_LIMIT`.
    pub fn is_valid(&self) -> (r: bool)
        ensures
            r == self.valid(),
    {
        0 <= self.neighbor_distance && self.neighbor_distance <= CONFIG_LIMIT && 0
            <= self.desired_separation && self.desired_separation <= CONFIG_LIMIT && 0
            <= self.separation_multiplier && self.separation_multiplier <= CONFIG_LIMIT && 0
            <= self.alignment_multiplier && self.alignment_multiplier <= CONFIG_LIMIT && 0
            <= self.cohesion_multiplier && self.cohesion_multiplier <= CONFIG_LIMIT && 0
            <= self.max_speed && self.max_speed <= CONFIG_LIMIT && 0 <= self.max_force
            && self.max_force <= CONFIG_LIMIT && 0 <= self.bird_size && self.bird_size
            <= CONFIG_LIMIT
    }
}

} // verus!
