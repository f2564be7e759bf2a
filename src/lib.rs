//! Estimates how long a population needs to reach herd immunity from a
//! vaccination time series, and renders the estimate as Portuguese text with
//! a textual progress bar.
pub mod calendar;
pub mod civil;
pub mod decode;
pub mod estimate;
pub mod number;
pub mod owid;
pub mod phrase;
pub mod progress;
pub mod series;
pub mod text;

pub use calendar::supported_instant;
pub use decode::{decode_covid19br, get_last_vaccination_data_covid19br, BRASILIA_OFFSET};
pub use estimate::{
    estimate_days, get_brazil_immunization_estimate, EstimateError, BRAZIL_POPULATION,
};
pub use owid::{get_last_vaccination_data, Record};
pub use phrase::{format_estimate, format_full_estimate, phrase_from_parts};
pub use progress::format_progress;
pub use series::{daily_rate, select_series, DataError, RecordCovid19br, Region};
