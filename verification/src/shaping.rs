//! Traffic-shaping policy carried by `Action::RateLimit`.

use vstd::prelude::*;

verus! {

/// Unit for a rate-limit's numeric `rate` field.
#[derive(Debug, Clone, Copy, PartialEq, Eq, Structural)]
pub enum RateUnit {
    /// Packets per second.
    PacketsPerSecond,
    /// Bits per second.
    BitsPerSecond,
    /// Bytes per second.
    BytesPerSecond,
}

/// A token-bucket style rate cap applied to matching traffic.
#[derive(Debug, PartialEq, Eq)]
pub struct ShapingPolicy {
    /// Maximum rate in `unit` terms.
    pub rate: u64,
    /// Burst size, in packets for packet rates and in the rate's unit otherwise.
    pub burst: u64,
    /// What `rate` is measured in.
    pub unit: RateUnit,
    /// Optional remark for operators/logs.
    pub remark: Option<String>,
}

impl Clone for ShapingPolicy {
    fn clone(&self) -> (r: Self)
        ensures
            r == *self,
    {
        let remark = match &self.remark {
            Some(a) => Some(a.clone()),
            None => None,
        };
        ShapingPolicy { rate: self.rate, burst: self.burst, unit: self.unit, remark }
    }
}

impl ShapingPolicy {
    /// Packets-per-second cap.
    pub fn pps(rate: u64, burst: u64) -> (s: Self)
        ensures
            s.rate == rate,
            s.burst == burst,
            s.unit == RateUnit::PacketsPerSecond,
            s.remark is None,
    {
        ShapingPolicy { rate, burst, unit: RateUnit::PacketsPerSecond, remark: None }
    }
}

} // verus!
