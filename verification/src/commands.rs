pub mod command;
pub mod id;
pub mod notification;
