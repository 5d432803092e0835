pub mod mov_max;
pub mod mov_rms;
