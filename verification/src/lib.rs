pub mod codec;
pub mod color;
pub mod palette;
pub mod stream;
pub mod zones;
