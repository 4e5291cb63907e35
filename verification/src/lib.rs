pub mod binary;
pub mod codec;
pub mod errors;
