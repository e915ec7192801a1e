[package]
name = "ble-leveler"
version = "0.1.0"
edition = "2021"
publish = false

[dependencies]
bt-hci = { version = "=0.10.1", features = ["uuid"] }
defmt = "=1.2.0"
defmt-rtt = "=1.3.1"
embassy-executor = "=0.10.0"
embassy-futures = "=0.1.2"
embassy-nrf = { version = "=0.11.0", features = ["nrf52840", "time-driver-rtc1", "gpiote", "unstable-pac"] }
embassy-sync = "=0.8.0"
embassy-time = "=0.5.1"
libm = "=0.2.16"
nrf-mpsl = { version = "=0.4.0", features = ["nrf52840"] }
nrf-sdc = { version = "=0.4.0", features = ["nrf52840", "peripheral"] }
panic-probe = "=1.0.0"
sequential-storage = "=6.0.1"
static_cell = "=2.1.1"
trouble-host = "=0.8.0"
