//! Charging demands and the append-only store that holds them.
use vstd::prelude::*;

verus! {

/// One vehicle's charging demand. State-of-charge fields are percentages,
/// `capacity` is in watt-hours, `max_charging_power` in watts, and the
/// availability window `[start, end]` is in whole seconds.
pub struct EnergyDemand {
    pub vehicle_id: String,
    /// minimum state of charge in percent
    pub min_soc: i32,
    /// maximum state of charge in percent
    pub max_soc: i32,
    /// target state of charge in percent
    pub target_soc: i32,
    /// current state of charge in percent
    pub current_soc: i32,
    /// capacity in Wh
    pub capacity: i32,
    /// maximum charging power in W
    pub max_charging_power: i32,
    /// start of the availability window, seconds since the epoch
    pub start: i64,
    /// end of the availability window, seconds since the epoch
    pub end: i64,
}

/// Timestamps the engine accepts: far enough from the `i64` limits that
/// minute steps and envelope spans cannot overflow.
pub open spec fn ts_ok(t: int) -> bool {
    -0x2000_0000_0000_0000 <= t <= 0x2000_0000_0000_0000
}

impl EnergyDemand {
    /// A demand the envelope generator can work on: percentages in range,
    /// positive capacity and charging power, timestamps away from the `i64`
    /// limits, and a capacity small enough that all watt-hour arithmetic
    /// (which scales energies by 60) stays within `i32`.
    pub open spec fn wf(self) -> bool {
        &&& 0 <= self.min_soc <= 100
        &&& 0 <= self.max_soc <= 100
        &&& 0 <= self.target_soc <= 100
        &&& 0 <= self.current_soc <= 100
        &&& 0 < self.capacity
        &&& 0 < self.max_charging_power
        &&& 60 * self.capacity <= i32::MAX
        &&& 2 * self.capacity + self.max_charging_power <= i32::MAX
        &&& ts_ok(self.start as int)
        &&& ts_ok(self.end as int)
    }
}

/// Append-only store of every submitted demand. Callers that share it
/// across workers put it behind a lock; the operations here are the
/// all-or-nothing append and read access for aggregation.
pub struct Demands {
    pub demands: Vec<EnergyDemand>,
}

impl Demands {
    /// All stored demands are well formed, so aggregation can run the
    /// envelope generator on any of them.
    pub open spec fn wf(self) -> bool {
        forall|i: int| 0 <= i < self.demands@.len() ==> (#[trigger] self.demands@[i]).wf()
    }

    /// The empty store.
    pub fn new() -> (r: Self)
        ensures
            r.demands@.len() == 0,
            r.wf(),
    {
        let demands: Vec<EnergyDemand> = Vec::new();
        Demands { demands }
    }

    /// Appends one demand; nothing already stored moves or changes.
    pub fn insert(&mut self, demand: EnergyDemand)
        requires
            demand.wf(),
        ensures
            final(self).demands@ == old(self).demands@.push(demand),
            old(self).wf() ==> final(self).wf(),
    {
        self.demands.push(demand);
    }
}

} // verus!
