[package]
name = "clipboard-cli"
version = "0.0.5"
edition = "2021"
publish = false

[dependencies]
arboard = { version = "3", features = ["wayland-data-control"] }
clipboard-win = { version = "5", features = ["monitor"] }
crossterm = "0.28"
dirs = "6"
objc2-app-kit = "0.3"
ratatui = "0.29"
serde = { version = "1", features = ["derive"] }
serde_json = "1"
wayland-client = "0.31"
wayland-protocols = { version = "0.32", features = ["client", "staging"] }
wayland-protocols-wlr = { version = "0.3", features = ["client"] }
wl-clipboard-rs = "0.9"
x11rb = { version = "0.13", features = ["xfixes"] }
