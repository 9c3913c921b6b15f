pub mod fade;
pub mod processor;
pub mod voice;
