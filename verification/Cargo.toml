[package]
name = "catalog_report"
version = "0.1.0"
edition = "2021"
publish = false

[dependencies]
csv = "1"
cstr = "*"
qmetaobject = "*"

[dev-dependencies]
horrorshow = "*"
