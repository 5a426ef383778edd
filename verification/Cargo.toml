[package]
name = "ledger_oxide"
version = "0.1.0"
edition = "2021"
publish = false

[dependencies]
chrono = "0.4"
rrule = "*"
async-graphql = { version = "*", default-features = false, features = ["chrono"] }
sqlx = { version = "*", default-features = false, features = ["postgres", "chrono", "runtime-tokio", "derive"] }
