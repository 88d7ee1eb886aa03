[package]
name = "reader_parser"
version = "0.1.0"
edition = "2021"
publish = false

[dependencies]
aes = "0.8"
anyhow = "1"
base64 = "0.22"
cbc = { version = "0.1", features = ["alloc"] }
chardetng = "0.1"
chrono = "0.4"
cookie_store = "*"
encoding_rs = "0.8"
flate2 = "1"
hex = "0.4"
java_regex = "*"
jsonpath_lib = "0.3"
md5 = "0.7"
once_cell = "1"
rand = "0.8"
regex = "1"
ring = "0.17"
rquickjs = "*"
safer-ffi = "0.1"
scraper = "*"
serde = { version = "1", features = ["derive"] }
serde_json = "1"
sxd-document = "0.3"
sxd-xpath = "0.4"
ureq = "3"
url = "2"
urlencoding = "2"
uuid = { version = "1", features = ["v4"] }
