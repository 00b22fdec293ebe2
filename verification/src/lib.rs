//! Verified core of udev-hid-bpf: the logic that decides which HID-BPF
//! programs are loaded for a device, how udev properties and the parsed
//! report descriptor are injected into a BPF object's data sections, and
//! how the command line and the generated udev rules are shaped.
pub mod text;
pub mod order;
pub mod errors;
pub mod paths;
pub mod cli;
pub mod hex;
pub mod install;
pub mod device;
pub mod stems;
pub mod lookup;
pub mod sysfs;
pub mod loader;
pub mod inspect;
pub mod dump;
pub mod btf;
pub mod rdesc;
pub mod rdesc_scan;
pub mod rdesc_parse;
pub mod properties;
pub mod metadata;
