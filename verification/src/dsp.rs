pub mod sampler;
