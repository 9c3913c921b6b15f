pub mod audio_buffer;
pub mod sample_location;
