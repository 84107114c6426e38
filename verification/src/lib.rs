//! Charging-flexibility aggregation for electric vehicles, plus a few
//! small verified utilities (puzzle solvers and a month-calendar builder).
mod aggregation;
mod calendar;
mod calories;
mod cranes;
mod demand;
mod parse;
mod resample;
mod rock_paper;
mod rucksack;
mod sections;
mod signal;
mod text;
mod utils;

pub use aggregation::Aggregation;
pub use aggregation::AggregationDT;
pub use aggregation::create_flex_series;
pub use calendar::generate_calendar;
pub use calories::biggest_sum;
pub use cranes::calculate_crates_order;
pub use cranes::cranes_state_to_string;
pub use cranes::insert_crates_to_cranes;
pub use cranes::move_crates;
pub use demand::Demands;
pub use demand::EnergyDemand;
pub use parse::parse_i32_or;
pub use parse::parse_u32_opt;
pub use resample::resample_series;
pub use rock_paper::GameOptions;
pub use rock_paper::GameScore;
pub use rock_paper::calculate_score;
pub use rucksack::process_rucksack_lines;
pub use sections::Pair;
pub use sections::ParsePairError;
pub use sections::calc_overlapping_pairs;
pub use signal::calculate_signal;
pub use utils::MinuteDateRange;
