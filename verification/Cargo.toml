[package]
name = "solidoak"
version = "0.1.0"
edition = "2021"
publish = false

[dependencies]
gdk = "*"
glib = "*"
gtk = "*"
libc = "*"
neovim = "*"
rustc-serialize = "*"
