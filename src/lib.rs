//! Air-quality index computation for PM2.5 readings and the rolling
//! display window that the monitor draws from.

pub mod aqi;
pub mod series;
pub mod monitor;
