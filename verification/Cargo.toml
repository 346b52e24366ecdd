[package]
name = "csvview"
version = "0.1.0"
edition = "2021"
publish = false

[dependencies]
argparse = "*"
cursive = { version = "*", default-features = false }
cursive_table_view = "*"
env_logger = "*"
log = "*"
