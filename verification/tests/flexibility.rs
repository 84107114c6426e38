use ev_flex::{AggregationDT, Demands, EnergyDemand, MinuteDateRange};

const T: i64 = 1_700_000_000;

fn demand(start: i64, end: i64) -> EnergyDemand {
    EnergyDemand {
        vehicle_id: String::from("car-1"),
        min_soc: 20,
        max_soc: 100,
        target_soc: 80,
        current_soc: 50,
        capacity: 10_000,
        max_charging_power: 6_000,
        start,
        end,
    }
}

#[test]
fn feasible_two_hour_window_has_one_point_per_minute() {
    let series = ev_flex::create_flex_series(&demand(T, T + 7200)).expect("feasible");
    assert_eq!(series.len(), 121);
    for (i, point) in series.iter().enumerate() {
        assert_eq!(point.time, T + 60 * i as i64);
        assert_eq!(point.max_charging_power, 6_000);
    }
}

#[test]
fn feasible_two_hour_window_bounds() {
    let series = ev_flex::create_flex_series(&demand(T, T + 7200)).expect("feasible");
    // one percent of the capacity is 100 Wh; the vehicle arrives at 5000 Wh
    // and needs 3000 Wh more, which takes 30 minutes at 6000 W.
    assert_eq!(series[0].min_soe, 5_000);
    assert_eq!(series[0].max_soe, 5_000);
    // the earliest-charging climb rises 100 Wh per minute for 30 minutes
    for i in 0..=30 {
        assert_eq!(series[i].max_soe, 5_000 + 100 * i as i32);
        assert_eq!(series[i].min_soe, 5_000);
    }
    // the middle of the window is flat between the bounds
    assert_eq!(series[60].min_soe, 5_000);
    assert_eq!(series[60].max_soe, 8_000);
    // the last point forces the full charge
    assert_eq!(series[120].min_soe, 8_000);
    assert_eq!(series[120].max_soe, 8_000);
}

#[test]
fn min_never_exceeds_max_and_bounds_nondecreasing() {
    let series = ev_flex::create_flex_series(&demand(T, T + 7200)).expect("feasible");
    for w in series.windows(2) {
        assert!(w[0].min_soe <= w[0].max_soe);
        assert!(w[0].min_soe <= w[1].min_soe);
        assert!(w[0].max_soe <= w[1].max_soe);
    }
}

#[test]
fn short_window_is_infeasible() {
    // twenty minutes cannot hold the thirty-minute full-power charge
    assert!(ev_flex::create_flex_series(&demand(T, T + 1200)).is_none());
}

#[test]
fn infeasible_demand_widens_window_but_adds_no_points() {
    let mut store = Demands::new();
    store.insert(demand(T, T + 1200));
    let aggregation = store.compute_aggregation(T - 100);
    assert_eq!(aggregation.series.len(), 0);
    assert_eq!(aggregation.start, T - 100);
    assert_eq!(aggregation.end, T + 1200);
}

#[test]
fn zero_required_energy_is_feasible() {
    let mut d = demand(T, T + 7200);
    d.target_soc = 50;
    let series = ev_flex::create_flex_series(&d).expect("nothing to charge");
    assert_eq!(series[0].min_soe, 5_000);
    assert_eq!(series[0].max_soe, 5_000);
    assert_eq!(series.last().unwrap().time, T + 7200);
}

#[test]
fn aggregating_two_disjoint_demands_concatenates_their_envelopes() {
    let mut store = Demands::new();
    store.insert(demand(T, T + 7200));
    store.insert(demand(T + 10_000, T + 17_200));
    let aggregation = store.compute_aggregation(T + 5_000);
    assert_eq!(aggregation.start, T);
    assert_eq!(aggregation.end, T + 17_200);
    assert_eq!(aggregation.series.len(), 121 + 121);
    assert_eq!(aggregation.series[0].time, T);
    assert_eq!(aggregation.series[121].time, T + 10_000);
}

#[test]
fn minute_range_single_point() {
    let mut range = MinuteDateRange(T, T);
    assert_eq!(range.next(), Some(T));
    assert_eq!(range.next(), None);
}

#[test]
fn minute_range_reversed_bounds_is_empty() {
    let mut range = MinuteDateRange(T + 60, T);
    assert_eq!(range.next(), None);
}

#[test]
fn minute_range_steps_by_sixty_seconds() {
    let mut range = MinuteDateRange(T, T + 150);
    assert_eq!(range.next(), Some(T));
    assert_eq!(range.next(), Some(T + 60));
    assert_eq!(range.next(), Some(T + 120));
    assert_eq!(range.next(), None);
}

fn point(time: i64) -> AggregationDT {
    AggregationDT { min_soe: 1, max_soe: 2, max_charging_power: 3, time }
}

#[test]
fn resample_keeps_one_point_per_interval() {
    let mut series: Vec<AggregationDT> =
        vec![point(0), point(60), point(120), point(180), point(240), point(300)];
    ev_flex::resample_series(&mut series, 2);
    let times: Vec<i64> = series.iter().map(|p| p.time).collect();
    assert_eq!(times, vec![0, 120, 240]);
}

#[test]
fn resample_is_idempotent() {
    let mut series: Vec<AggregationDT> =
        vec![point(0), point(60), point(90), point(200), point(260), point(500)];
    ev_flex::resample_series(&mut series, 2);
    let once = series.clone();
    ev_flex::resample_series(&mut series, 2);
    assert_eq!(series, once);
}

#[test]
fn empty_store_aggregates_to_the_seed_instant() {
    let store = Demands::new();
    let aggregation = store.compute_aggregation(T);
    assert_eq!(aggregation.start, T);
    assert_eq!(aggregation.end, T);
    assert!(aggregation.series.is_empty());
}

#[test]
fn resample_of_an_empty_series_stays_empty() {
    let mut series: Vec<AggregationDT> = Vec::new();
    ev_flex::resample_series(&mut series, 15);
    assert!(series.is_empty());
}

#[test]
fn store_keeps_demands_in_insertion_order() {
    let mut store = Demands::new();
    store.insert(demand(T, T + 7200));
    store.insert(demand(T + 100_000, T + 107_200));
    assert_eq!(store.demands.len(), 2);
    assert_eq!(store.demands[0].start, T);
    assert_eq!(store.demands[1].start, T + 100_000);
}
