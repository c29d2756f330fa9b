[package]
name = "jiggly"
version = "0.2.0"
edition = "2021"
publish = false

[dependencies]
rand = "0.9"
libm = "0.2"
heuropt = "*"
hsmc = "*"
smart-leds = "*"
usbd-hid = "*"
static_cell = "*"
embassy-futures = "*"
embassy-sync = "*"
embassy-time = { version = "*", features = ["std"] }
embassy-usb = "*"
embassy-executor = { version = "*", features = ["platform-std", "executor-thread"] }
embassy-rp = { version = "*", features = ["rp2040", "time-driver", "critical-section-impl"] }
