//! A student mark sheet: seven subject rows, an exact average, a pass/fail
//! verdict and the lines that a CSV log receives for each valid calculation.
pub mod text;
pub mod mark;
pub mod grade;
pub mod form;
