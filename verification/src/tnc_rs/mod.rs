//! Teensy firmware images, board models and the HalfKay upload protocol.

pub mod device;
pub mod firmware;
pub mod ihex;
pub mod model;
pub mod upload;

pub use firmware::{
    identify_firmware_file, is_hex_file, load_firmware_file, Firmware, FirmwareError,
    FirmwareFormat, FirmwareProgram, FirmwareSegment,
};
pub use model::{Model, ModelInfo};
pub use upload::UploadOptions;
pub use device::{list_devices, Capability, Device, Interface};
