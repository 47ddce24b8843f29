[package]
name = "mysql_dump_schedule"
version = "0.1.0"
edition = "2021"
publish = false

[dependencies]
zip = "*"
chrono = "*"
mysql = { version = "*", default-features = false }
tokio = { version = "*", features = ["rt-multi-thread", "macros", "process", "time"] }
log = "*"
log4rs = "*"
cli-table = "*"
dotenv = "*"
