[package]
name = "expsum_wallpaper"
version = "0.1.0"
edition = "2021"
publish = false

[dependencies]
chrono = "=0.4.45"
num-complex = "=0.4.6"
plotters = { version = "=0.3.7", default-features = false, features = ["bitmap_backend", "bitmap_encoder", "line_series"] }
tempfile = "=3.27.0"
wallpaper = "=3.2.0"
windows = { version = "=0.58.0", features = ["Foundation", "Storage", "System_UserProfile"] }
