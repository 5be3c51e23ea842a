pub mod adapter;
pub mod bridge;
pub mod codec;
pub mod errors;
pub mod frames;
pub mod identity;
pub mod wire;
