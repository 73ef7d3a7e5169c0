//! Data types shared by the IPC engine and the kernel calls.

pub mod endpoint;
pub mod guest_memory;
pub mod message;
pub mod message_queue;
pub mod minix_errno;
pub mod minix_process;
pub mod minix_process_table;
pub mod minix_shared;
pub mod priv_flags;
pub mod wire;

pub use endpoint::Endpoint;
pub use guest_memory::{Error, GuestMemory};
pub use message::{Message, MessagePayload, Payload, MESSAGE_SIZE, NOTIFY_MESSAGE};
pub use message_queue::MessageQueue;
pub use minix_process::{Effect, Instruction, MinixProcess, ProcessState, ProcessView, Registers};
pub use minix_process_table::{MinixProcessTable, MAX_PROCESSES};
pub use minix_shared::{Clockinfo, MinixKerninfo, SharedImage, SHARED_BASE_ADDR};
