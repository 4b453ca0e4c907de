pub mod direction;
pub mod easing;
