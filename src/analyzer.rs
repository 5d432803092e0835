pub mod loudness;
