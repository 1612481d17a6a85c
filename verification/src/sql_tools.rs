//! The time-series record that the pipeline produces and persists, and the
//! decisions behind keeping the device's stored metadata in line with the
//! local configuration.
//!
//! All physical quantities are held in fixed-point integer form so that the
//! arithmetic on them is exact: power in milli-decibels (one unit is
//! 0.001 dB) and frequency in hertz.

use vstd::prelude::*;

verus! {

/// Largest magnitude a power value (in milli-decibels) may take.  One unit
/// is 0.001 dB, so this bound allows one million decibels either way --
/// far beyond any physical signal -- while keeping rolling sums over a
/// window comfortably inside `i64`.
pub const POWER_BOUND: i64 = 1_000_000_000;

/// True of a power value that the detector accepts.
pub open spec fn valid_power(p: i64) -> bool {
    -POWER_BOUND <= p <= POWER_BOUND
}

/// One measurement: the signal power seen at one monitored frequency by one
/// sensor at one instant.
#[derive(Clone, Copy, Debug, PartialEq, Eq, Structural)]
pub struct TSData {
    /// Wall-clock instant of acquisition, microseconds since the epoch.
    pub time: u64,
    /// Identity of the owning sensor.
    pub id: u128,
    /// Signal power in milli-decibels.
    pub rssi: i64,
    /// The monitored frequency this reading represents, in hertz.
    pub frequency: i64,
}

impl TSData {
    /// Builds a reading; the power goes to `rssi` and the frequency to
    /// `frequency`, never the other way around.
    pub fn new(time: u64, id: u128, rssi: i64, frequency: i64) -> (d: TSData)
        ensures
            d.time == time,
            d.id == id,
            d.rssi == rssi,
            d.frequency == frequency,
    {
        TSData { time, id, rssi, frequency }
    }
}

/// Which of the device's mutable metadata fields must be written back to
/// storage to match the local configuration.
#[derive(Clone, Copy, Debug, PartialEq, Eq, Structural)]
pub struct SyncPlan {
    pub update_name: bool,
    pub update_geohash: bool,
}

/// Compares the locally configured device metadata against what storage
/// holds and says which fields diverge and must be updated.
pub fn device_sync_plan(
    cfg_name: &String,
    cfg_geohash: &String,
    db_name: &String,
    db_geohash: &String,
) -> (p: SyncPlan)
    ensures
        p.update_name == (cfg_name@ != db_name@),
        p.update_geohash == (cfg_geohash@ != db_geohash@),
{
    SyncPlan { update_name: !cfg_name.eq(db_name), update_geohash: !cfg_geohash.eq(db_geohash) }
}

/// The only metadata columns that a reconciliation update may touch.
pub fn column_allowed(field: &String) -> (ok: bool)
    ensures
        ok == (field@ == "name"@ || field@ == "geohash"@),
{
    let name: String = "name".to_owned();
    let geohash: String = "geohash".to_owned();
    field.eq(&name) || field.eq(&geohash)
}

} // verus!
