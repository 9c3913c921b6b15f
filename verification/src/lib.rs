//! The realtime core of an audio engine: a graph of DSP nodes that is rendered
//! block by block, the buffer pool and schedule behind it, parameter automation,
//! and a sampler voice with click-free fades. Sample data itself stays behind the
//! `AudioBuffer` capability; everything that decides what is rendered, when and
//! into which buffer is verified here.

pub mod audio_process;
pub mod buffer;
pub mod commands;
pub mod dsp;
pub mod graph;
pub mod nodes;
pub mod parameter;
pub mod realtime;
pub mod timestamp;
