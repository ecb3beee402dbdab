//! Flashing images onto USB drives: every decision that is made on the way, from listing the
//! devices and checking a request to the bytes of the partition table and the order in which
//! cached sectors reach the device. Nothing here touches a device; callers perform the reads,
//! writes and commands that these functions ask for.

pub mod align;
pub mod bytes;
pub mod cache;
pub mod cache_laws;
pub mod copy;
pub mod crc;
pub mod device;
pub mod eltorito;
pub mod fields;
pub mod gpt;
pub mod gpt_laws;
pub mod guid;
pub mod human;
pub mod image_laws;
pub mod label;
pub mod layout_laws;
pub mod list;
pub mod list_laws;
pub mod logger;
pub mod message_laws;
pub mod method_laws;
pub mod mode;
pub mod mount;
pub mod ntfs;
pub mod numbers;
pub mod operation_laws;
pub mod partition;
pub mod platform;
pub mod plist;
pub mod position;
pub mod privilege;
pub mod system_laws;
pub mod table;
pub mod text;
pub mod text_laws;
pub mod tree;
pub mod validate;
pub mod walk;
pub mod wide;
pub mod writer;

pub use list::{list_drives, UsbDevice};
pub use logger::init as init_logger;
pub use mode::{ImageCaps, Mode};
pub use platform::Platform;
pub use privilege::is_privileged;
pub use validate::{device_size, validate, WriteParams};
