pub mod next;
pub mod progress;
pub mod reset;
pub mod verify;
