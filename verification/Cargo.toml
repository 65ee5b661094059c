[package]
name = "yasmine"
version = "0.1.0"
edition = "2021"
publish = false

[dependencies]
data-encoding = "=2.11.1"
form_urlencoded = "=1.2.2"
unicode-normalization = "=0.1.26"
uuid = { version = "=1.29.0", features = ["v4", "v7"] }
blake3 = "=1.8.7"
rusqlite = { version = "=0.41.1", features = ["bundled", "array"] }
serde = { version = "=1.0.229", features = ["derive"] }
postcard = { version = "=1.1.3", features = ["use-std"] }
snow = "=0.9.6"
x25519-dalek = { version = "=2.0.1", features = ["static_secrets"] }
getrandom = "=0.2.17"
image = { version = "*", default-features = false, features = ["png", "jpeg"] }
lofty = "*"
jwalk = "*"
rayon = "*"
directories = "*"
qrcode = { version = "*", default-features = false, features = ["svg"] }
mdns-sd = "*"
notify = "*"
