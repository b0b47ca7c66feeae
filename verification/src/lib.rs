//! Verified core of a network disk-imaging agent: on-disk format parsing,
//! chunk planning, block-transfer planning, physical page accounting,
//! device-register encodings and the small state machines that drive them.

pub mod le;
pub mod frames;

pub mod chunks;
pub mod gpt;
pub mod ext4;
pub mod pci;
pub mod idt;
pub mod timer;
pub mod speed;
pub mod ui;
pub mod raw_fb;
pub mod pull;
pub mod image;
pub mod codec;
pub mod error;
pub mod boot_options;
pub mod serial;
pub mod disk;
pub mod nvme;
pub mod ahci;
pub mod e1000;
pub mod rtl8169;
pub mod nic;
pub mod input;
pub mod fetch;
pub mod upload;
pub mod register;
pub mod agent;
pub mod fat;
pub mod ntfs;
pub mod partition;
pub mod boot;
pub mod heap;
pub mod mpsc;
pub mod logger;
pub mod tasks;
pub mod timers;
pub mod web;
