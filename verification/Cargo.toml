[package]
name = "wiktitrage"
version = "0.1.0"
edition = "2021"
publish = false

[dependencies]
url = "2"
getopts = "0.2"
serde = { version = "1", features = ["derive"] }
reqwest = { version = "0.10", features = ["json"] }
tokio = { version = "0.2", features = ["macros", "rt-threaded"] }
gtk = "0.9"
gdk = "0.13"
gio = "0.9"
glib = "0.10"
cairo-rs = "0.9"
