[package]
name = "tiny-dfr"
version = "0.1.0"
edition = "2021"
publish = false

[dependencies]
anyhow = "1"
cairo-rs = { version = "*", default-features = false, features = ["freetype", "png"] }
chrono = { version = "0.4", features = ["unstable-locales"] }
drm = "*"
freedesktop-icons = "*"
freetype-rs = "*"
input = "*"
input-linux = { version = "*", features = ["serde"] }
input-linux-sys = "*"
libc = "0.2"
librsvg-rebind = "*"
nix = { version = "*", features = ["event", "fs", "inotify", "signal", "socket"] }
privdrop = "*"
rand = "0.8"
serde = { version = "1", features = ["derive"] }
serde_json = "1"
toml = "*"
udev = "*"
