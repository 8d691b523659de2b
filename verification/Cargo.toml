[package]
name = "bspwm-cyberquote"
version = "0.1.0"
edition = "2021"
publish = false

[dependencies]
rand = "=0.8.8"
serde = { version = "=1.0.229", features = ["derive"] }
serde_json = "=1.0.154"
toml = "=0.8.23"
libc = "=0.2.191"
gtk4 = "=0.11.5"
gdk4-x11 = { version = "=0.11.5", features = ["xlib"] }
webkit6 = "=0.6.1"
