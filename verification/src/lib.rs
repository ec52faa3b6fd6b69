//! Week-by-week projection of personal finances: a home, a home loan, a car
//! loan, a study debt, a share portfolio and a retirement account, together
//! with a progressive income-tax engine.
//!
//! All money is held as whole numbers of millionths of the currency unit and
//! all rates as millionths of a percentage point, so every result is exact and
//! every contract is stated over the integers.

#![allow(unused_imports)]

pub mod car_loan;
pub mod fixed;
pub mod hecs;
pub mod home;
pub mod home_loan;
pub mod loan;
pub mod lots;
pub mod misc;
pub mod model;
pub mod params;
pub mod parse;
pub mod report;
pub mod schedule;
pub mod shares;
pub mod superannuation;
pub mod tax;
