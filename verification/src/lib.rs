//! A fixed-size grid of RGB pixels that shows one vertical bar per column,
//! with its binary pixel-map encoding and its terminal preview.

pub mod decimal;
pub mod encoding;
pub mod frame;
pub mod height;
pub mod pixel;
pub mod preview;
pub mod ppmp6;

pub use frame::Frame;
pub use pixel::Pixel;
pub use ppmp6::PPMP6;
