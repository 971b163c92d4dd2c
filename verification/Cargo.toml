[package]
name = "congo_ps"
version = "0.1.0"
edition = "2021"
publish = false

[dependencies]
ads1x1x = "*"
bytemuck = "*"
critical-section = "*"
defmt = "*"
embassy-executor = "*"
embassy-net = { version = "*", features = ["tcp", "proto-ipv4", "medium-ethernet"] }
embassy-sync = "*"
embassy-time = "*"
esp-alloc = "*"
esp-backtrace = { version = "*", features = ["esp32"] }
esp-bootloader-esp-idf = { version = "*", features = ["esp32"] }
esp-hal = { version = "*", features = ["esp32", "unstable"] }
esp-println = { version = "*", features = ["esp32"] }
esp-rtos = { version = "*", features = ["esp32", "embassy"] }
nb = "*"
picoserve = { version = "*", features = ["embassy"] }
pid = "*"
