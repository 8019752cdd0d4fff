pub mod linux_drive;
pub mod paranoia;
pub mod reader;
