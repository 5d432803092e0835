pub mod amplify;
pub mod compressor;
