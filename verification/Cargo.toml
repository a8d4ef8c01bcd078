[package]
name = "comicshelf"
version = "0.1.0"
edition = "2021"
publish = false

[dependencies]
petgraph = "*"
actix-web = "4"
rusqlite = { version = "*", features = ["bundled"] }
serde = { version = "1", features = ["derive"] }
serde_json = "1"
anyhow = "1"
futures = "0.3"
tokio = { version = "1", features = ["fs", "macros", "rt-multi-thread"] }
image = "0.25"
webp = "*"
unrar = "*"
zip = "*"
tempfile = "3"
sysinfo = "*"
perseus = "*"
sycamore = "*"
stylist = "*"
web-sys = "*"
