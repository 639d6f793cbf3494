[package]
name = "bysqr"
version = "0.3.1"
edition = "2021"
publish = false

[dependencies]
crc32fast = "1"
liblzma = "*"
chrono = { version = "0.4", default-features = false, features = ["alloc"] }
serde = { version = "1", features = ["derive"] }
serde_json = "1"
quick-xml = { version = "*", features = ["serialize"] }
clap = { version = "4", features = ["derive"] }
qrcode = { version = "*", default-features = false, features = ["svg"] }
xmltree = "*"
base64 = "*"
jpeg-encoder = "*"
resvg = { version = "*", default-features = false }
usvg = { version = "*", default-features = false }
image = { version = "*", default-features = false, features = ["png", "jpeg"] }
rqrr = "*"
