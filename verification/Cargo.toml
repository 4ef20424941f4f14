[package]
name = "invoice_generator"
version = "0.1.0"
edition = "2021"
publish = false

[dependencies]
chrono = "*"
clap = { version = "*", features = ["derive"] }
clap-cargo = "*"
ctreg = "*"
derive_more = { version = "*", features = ["debug", "display"] }
diesel = { version = "*", features = ["sqlite", "chrono", "returning_clauses_for_sqlite_3_35"] }
serde = { version = "*", features = ["derive"] }
typst = "*"
typst-pdf = "*"
