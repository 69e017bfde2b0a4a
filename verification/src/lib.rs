//! The Boys function F_m(t), the integral of x^(2m) exp(-t x^2) over [0, 1],
//! for an order m and an argument t that are not negative.
//!
//! The library checks the domain, picks the way a value is obtained,
//! gives the value itself where it is known in closed form, and rules on
//! when the power series ends. Real numbers are carried as IEEE 754 binary64
//! bit patterns, and every statement about them is a statement about
//! integers.

pub mod binary64;
pub mod nearest;
pub mod closed_form;
pub mod boys_impl;
pub mod series;
