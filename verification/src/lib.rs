//! The logic of a Bluetooth leveling sensor.
//!
//! A sensor fixed to a vehicle measures its acceleration at rest and tells a phone the
//! vehicle's pitch and roll. [`mounting`] and [`angles`] turn a reading into angles,
//! on the numbers of [`binary32`]. [`config`] and [`storage`] keep what the user has
//! set, and [`gatt`], [`transfer`] and [`advertising`] decide what goes over the air.

pub mod accelerometer;
pub mod advertising;
pub mod angles;
pub mod arithmetic;
pub mod binary32;
pub mod bytes;
pub mod config;
pub mod crc;
pub mod gatt;
pub mod identity;
pub mod measuring;
pub mod mounting;
pub mod rounding;
pub mod storage;
pub mod transfer;
pub mod vec3;
