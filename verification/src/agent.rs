//! The agent that a traced process runs, and the client that starts it.

pub mod agent_state;
pub mod client;
pub mod epoll_thread;
pub mod extension;
pub mod process_id;
