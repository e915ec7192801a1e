# ble-leveler

A Bluetooth leveling sensor for vehicles: an LSM6DS3 accelerometer on an nRF52840
board tells a phone the vehicle's pitch and roll. The phone shows them with the
Phyphox app, to which the sensor transfers its experiment on the first connection.

## Layout

- `src/` is the logic, verified with Verus.
  - `rounding`, `binary32`, `vec3`: single-precision arithmetic on bit patterns, with
    every operation proved to round to the nearest number, and vectors of it.
  - `mounting`, `angles`: the 24 ways to mount the sensor, and the way from a raw
    reading to the angles that are shown.
  - `config`, `storage`: the configuration, its records, and keeping them in flash.
  - `gatt`: what the device does when the phone reads or writes an attribute.
  - `crc`, `transfer`: the packets in which the experiment is transferred.
  - `advertising`, `identity`: the advertisement, the address and the name.
  - `accelerometer`, `measuring`: the accelerometer's registers and the pace of measuring.
  - `bytes`: integers in byte sequences.
- `tests/` runs the library, also against the machine's own floating point.
- `app/` is the firmware around the library: peripherals, radio, flash and logging,
  and the arctangents and square root of `libm`.

## What is proved

Each function of the library states what it returns for every input. Beside them stand
laws, proof functions whose names begin with `law_`: a configuration is read back as
it was written and survives a restart, a file that was transferred arrives as it was
and a changed byte is noticed, in every mounting the vehicle's acceleration is found
from what the sensor reads, so that a level vehicle is level and the angles do not
depend on the mounting.

One thing is trusted: that `AdStructure::encode_slice` of `trouble-host` encodes the
fields of an advertisement as `src/advertising.rs` says.

## Building the firmware

The firmware is built for `thumbv7em-none-eabi`, with the features `platform-cortex-m`
and `executor-thread` of `embassy-executor`. The build puts the zipped experiment into
`$OUT_DIR/leveler.zip`.
