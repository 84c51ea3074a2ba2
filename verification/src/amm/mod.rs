pub mod constant_product;
pub mod slippage;
pub mod tick_math;
pub mod ticks;
