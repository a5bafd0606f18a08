[package]
name = "blog_backend"
version = "0.1.0"
edition = "2021"
publish = false

[dependencies]
chrono = { version = "=0.4.45", default-features = false, features = ["std"] }
comrak = { version = "=0.8.2", default-features = false }
nus3audio = "=1.2.0"
rand = "=0.7.3"
rocket = { version = "0.5", default-features = false, features = ["json"] }
rocket_dyn_templates = { version = "*", features = ["handlebars"] }
rss = "=1.10.0"
serde_json = "=1.0.154"

[dev-dependencies]
regex = "=1.13.1"
