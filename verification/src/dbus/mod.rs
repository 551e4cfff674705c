//! DBus state.

pub mod modem_manager;

use vstd::prelude::*;

use crate::geometry::GeoPoint;

verus! {

/// Milliseconds between compass updates.
pub const COMPASS_INTERVAL: u64 = 500;

/// Change of the compass claim.
#[derive(Copy, Clone, Debug, PartialEq, Eq, Structural)]
pub enum CompassClaim {
    /// The compass is in the desired state.
    Keep,
    /// Start compass updates.
    Claim,
    /// Stop compass updates.
    Release,
}

/// Next step for the compass.
#[derive(Copy, Clone, Debug, PartialEq, Eq, Structural)]
pub struct CompassUpdate {
    pub claim: CompassClaim,
    /// Wait for the next heading.
    pub listen: bool,
}

/// Location and heading of the device.
#[derive(Copy, Clone, Debug, PartialEq, Eq)]
pub struct SensorState {
    pub location: Option<GeoPoint>,
    /// Bits of the heading's floating point value.
    pub heading: Option<u64>,
    pub has_compass: bool,
    pub compass_claimed: bool,
}

impl SensorState {
    /// Create a state without heading.
    ///
    /// The compass will start out as paused by default.
    pub fn new(location: Option<GeoPoint>, has_compass: bool) -> (state: Self)
        ensures
            state == (SensorState {
                location,
                heading: None,
                has_compass,
                compass_claimed: false,
            }),
    {
        SensorState { location, heading: None, has_compass, compass_claimed: false }
    }

    /// The compass is required.
    pub open spec fn needs_compass(self) -> bool {
        self.has_compass && self.location is Some
    }

    /// Enable the compass if we have a GPS location fix, and disable it without.
    pub fn update_compass(&mut self) -> (update: CompassUpdate)
        ensures
            update.listen == old(self).needs_compass(),
            update.claim == (if old(self).needs_compass() && !old(self).compass_claimed {
                CompassClaim::Claim
            } else if old(self).has_compass && old(self).location is None
                && old(self).compass_claimed {
                CompassClaim::Release
            } else {
                CompassClaim::Keep
            }),
            *final(self) == (if old(self).has_compass {
                SensorState {
                    compass_claimed: old(self).needs_compass(),
                    heading: if old(self).needs_compass() {
                        old(self).heading
                    } else {
                        None
                    },
                    ..*old(self)
                }
            } else {
                *old(self)
            }),
    {
        if !self.has_compass {
            return CompassUpdate { claim: CompassClaim::Keep, listen: false };
        }
        let claimed = self.compass_claimed;
        if self.location.is_some() {
            self.compass_claimed = true;
            let claim = if claimed {
                CompassClaim::Keep
            } else {
                CompassClaim::Claim
            };
            CompassUpdate { claim, listen: true }
        } else {
            self.compass_claimed = false;
            self.heading = None;
            let claim = if claimed {
                CompassClaim::Release
            } else {
                CompassClaim::Keep
            };
            CompassUpdate { claim, listen: false }
        }
    }

    /// Update the location.
    pub fn set_location(&mut self, location: Option<GeoPoint>)
        ensures
            *final(self) == (SensorState { location, ..*old(self) }),
    {
        self.location = location;
    }

    /// Update the heading.
    ///
    /// Headings which cannot be read are zero.
    pub fn set_heading(&mut self, heading: Option<u64>)
        ensures
            *final(self) == (SensorState {
                heading: Some(
                    match heading {
                        Some(heading) => heading,
                        None => 0,
                    },
                ),
                ..*old(self)
            }),
    {
        self.heading = Some(
            match heading {
                Some(heading) => heading,
                None => 0,
            },
        );
    }
}

/// The compass is only required while there is a location, and only if there is
/// one.
pub proof fn law_compass_needs_location(state: SensorState)
    ensures
        state.needs_compass() <==> state.location is Some && state.has_compass,
{
}

} // verus!
