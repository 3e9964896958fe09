[package]
name = "oxibooks_sql"
version = "0.1.0"
edition = "2021"
publish = false

[dependencies]
quickbooks-types = "*"
quick-oxibooks = "*"
ureq = "*"
