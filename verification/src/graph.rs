pub mod buffer_pool;
pub mod connection;
pub mod dsp;
pub mod endpoint;
