pub mod normalize;
