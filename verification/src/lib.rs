//! Firmware logic of a split keyboard: the column transform that maps the
//! 17 switches of one half onto the shared 4 x 10 layout, the one-byte serial
//! protocol between the halves, the scan step and the USB report hand-off.
//! Hardware access lives in the application around this library.

pub mod keys;
pub mod link;
pub mod scan;
pub mod handle;
pub mod usb;
