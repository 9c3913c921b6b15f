pub mod channel;
pub mod dsp_graph;
pub mod garbage_collector;
pub mod graph;
pub mod periodic_notification;
pub mod processor;
pub mod topological_sort;
