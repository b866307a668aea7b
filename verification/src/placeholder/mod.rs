pub mod key;
pub mod parser;
pub mod token;
pub mod pattern;
pub mod laws;
pub mod interpolator;
pub mod roundtrip;
