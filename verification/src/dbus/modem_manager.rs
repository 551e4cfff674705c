//! Modem location sources.

use vstd::prelude::*;

use crate::geometry::GeoPoint;
use crate::text::{chars_of, is_at, starts_with};

verus! {

/// Sources of location information supported by the modem.
#[derive(Copy, Clone, Debug, PartialEq, Eq, PartialOrd, Structural)]
pub enum ModemLocationSource {
    /// No location source.
    NoSource,
    /// Location Area Code and Cell ID.
    LacCi,
    /// GPS location given by predefined keys.
    GpsRaw,
    /// GPS location given as NMEA traces.
    GpsNmea,
    /// CDMA base station position.
    CdmaBs,
    /// No location given, just GPS module setup. Since 1.4.
    GpsUnmanaged,
    /// Mobile Station Assisted A-GPS location requested. In MSA A-GPS, the
    /// position fix is computed by a server online. The modem must have a valid
    /// SIM card inserted and be enabled for this mode to be allowed. Since 1.12.
    AgpsMsa,
    /// Mobile Station Based A-GPS location requested. In MSB A-GPS, the
    /// position fix is computed by the modem, but it first gathers information
    /// from an online server to facilitate the process (e.g. ephemeris). The
    /// modem must have a valid SIM card inserted and be enabled for this mode to
    /// be allowed. Since 1.12.
    AgpsMsb,
}

impl ModemLocationSource {
    /// Flag of a location source.
    pub open spec fn spec_bits(self) -> u32 {
        match self {
            ModemLocationSource::NoSource => 0,
            ModemLocationSource::LacCi => 1,
            ModemLocationSource::GpsRaw => 2,
            ModemLocationSource::GpsNmea => 4,
            ModemLocationSource::CdmaBs => 8,
            ModemLocationSource::GpsUnmanaged => 16,
            ModemLocationSource::AgpsMsa => 32,
            ModemLocationSource::AgpsMsb => 64,
        }
    }

    /// Get the flag of this location source.
    pub fn bits(self) -> (bits: u32)
        ensures
            bits == self.spec_bits(),
    {
        match self {
            ModemLocationSource::NoSource => 0,
            ModemLocationSource::LacCi => 1,
            ModemLocationSource::GpsRaw => 2,
            ModemLocationSource::GpsNmea => 4,
            ModemLocationSource::CdmaBs => 8,
            ModemLocationSource::GpsUnmanaged => 16,
            ModemLocationSource::AgpsMsa => 32,
            ModemLocationSource::AgpsMsb => 64,
        }
    }
}

/// State of a modem's location interface, as far as it could be read.
#[derive(Copy, Clone, Debug, PartialEq, Eq, Structural)]
pub struct ModemStatus {
    /// Enabled location sources.
    pub enabled: Option<u32>,
    /// GPS refresh rate in seconds.
    pub refresh_rate: Option<u32>,
}

impl ModemStatus {
    /// Refresh rate of a modem with raw GPS enabled.
    pub open spec fn gps_rate(self) -> Option<u32> {
        match (self.enabled, self.refresh_rate) {
            (Some(enabled), Some(rate)) if (enabled / 2) % 2 == 1 => Some(rate),
            _ => None,
        }
    }
}

/// Get the minimum refresh interval from a list of modems.
///
/// This only checks modems with raw GPS enabled, since it is the only supported
/// location format.
pub fn gps_refresh_rate(modems: &Vec<ModemStatus>) -> (min_secs: Option<u32>)
    ensures
        match min_secs {
            Some(secs) => {
                &&& exists|i: int| 0 <= i < modems.len() && #[trigger] modems[i].gps_rate() == Some(secs)
                &&& forall|i: int|
                    0 <= i < modems.len() ==> (#[trigger] modems[i].gps_rate() matches Some(rate)
                        ==> secs <= rate)
            },
            None => forall|i: int|
                0 <= i < modems.len() ==> #[trigger] modems[i].gps_rate() is None,
        },
{
    // Setup duration to never refresh by default.
    let mut min_secs: Option<u32> = None;

    // Find shortest refresh interval from all modems.
    let gps_raw: u32 = ModemLocationSource::GpsRaw.bits();
    let mut i: usize = 0;
    while i < modems.len()
        invariant
            0 <= i <= modems.len(),
            gps_raw == 2,
            match min_secs {
                Some(secs) => {
                    &&& exists|j: int| 0 <= j < i && #[trigger] modems[j].gps_rate() == Some(secs)
                    &&& forall|j: int|
                        0 <= j < i ==> (#[trigger] modems[j].gps_rate() matches Some(rate)
                            ==> secs <= rate)
                },
                None => forall|j: int| 0 <= j < i ==> #[trigger] modems[j].gps_rate() is None,
            },
        decreases modems.len() - i,
    {
        let modem = modems[i];
        if let Some(enabled) = modem.enabled {
            assert((enabled & 2 != 0) == ((enabled / 2) % 2 == 1)) by (bit_vector);
            if enabled & gps_raw != 0 {
                if let Some(rate) = modem.refresh_rate {
                    let shorter = match min_secs {
                        Some(min) => min >= rate,
                        None => true,
                    };
                    assert(modems[i as int].gps_rate() == Some(rate));
                    if shorter {
                        min_secs = Some(rate);
                    }
                }
            }
        }
        i += 1;
    }
    min_secs
}

/// Time between location updates in seconds.
///
/// This is never zero, to avoid excessive polling of modems with a low refresh
/// rate.
pub fn polling_interval(refresh_rate: Option<u32>) -> (secs: Option<u64>)
    ensures
        secs == (match refresh_rate {
            Some(rate) => Some(
                if rate > 0 {
                    rate as u64
                } else {
                    1
                },
            ),
            None => None,
        }),
{
    match refresh_rate {
        Some(rate) => {
            if rate > 0 {
                Some(rate as u64)
            } else {
                Some(1)
            }
        },
        None => None,
    }
}

/// Get the GPS location from the raw GPS data of all modems.
///
/// Modems without raw GPS data are skipped.
pub fn location(locations: &Vec<Option<GeoPoint>>) -> (location: Option<GeoPoint>)
    ensures
        match location {
            Some(location) => exists|i: int|
                0 <= i < locations.len() && #[trigger] locations[i] == Some(location)
                    && forall|j: int| 0 <= j < i ==> #[trigger] locations[j] is None,
            None => forall|i: int| 0 <= i < locations.len() ==> #[trigger] locations[i] is None,
        },
{
    let mut i: usize = 0;
    while i < locations.len()
        invariant
            i <= locations.len(),
            forall|j: int| 0 <= j < i ==> #[trigger] locations[j] is None,
        decreases locations.len() - i,
    {
        // Return data from first modem with raw GPS enabled.
        if let Some(location) = locations[i] {
            assert(locations[i as int] == Some(location));
            return Some(location);
        }
        i += 1;
    }
    None
}

/// Check whether a DBus object is a modem.
pub fn is_modem_path(path: &str) -> (is_modem: bool)
    ensures
        is_modem == starts_with(path@, "/org/freedesktop/ModemManager1/Modem/"@),
{
    let path = chars_of(path);
    let prefix = chars_of("/org/freedesktop/ModemManager1/Modem/");
    proof {
        assert(path@.skip(0) =~= path@);
    }
    is_at(&path, &prefix, 0)
}

/// Every location source has its own flag.
pub proof fn law_sources_have_own_flags(a: ModemLocationSource, b: ModemLocationSource)
    ensures
        a.spec_bits() == b.spec_bits() ==> a == b,
        a == ModemLocationSource::NoSource <==> a.spec_bits() == 0,
{
}

/// Only modems with raw GPS enabled have a refresh rate for GPS.
pub proof fn law_only_raw_gps_has_rate(modem: ModemStatus)
    ensures
        modem.gps_rate() is Some <==> modem.enabled is Some && modem.enabled->0
            & ModemLocationSource::GpsRaw.spec_bits() != 0 && modem.refresh_rate is Some,
        modem.gps_rate() is Some ==> modem.gps_rate() == modem.refresh_rate,
{
    if let Some(enabled) = modem.enabled {
        assert((enabled & 2 != 0) == ((enabled / 2) % 2 == 1)) by (bit_vector);
    }
}

} // verus!
