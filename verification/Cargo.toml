[package]
name = "support_bridge"
version = "0.1.0"
edition = "2021"
publish = false

[dependencies]
rand = "=0.10.3"
teloxide = { version = "=0.17.0", default-features = false, features = ["ctrlc_handler", "macros"] }
tokio = { version = "=1.53.2", features = ["macros", "rt-multi-thread"] }
dotenv = "=0.15.0"
dptree = "=0.5.1"
takecell = "=0.1.1"
