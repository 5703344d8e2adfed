[package]
name = "pkcs12"
version = "0.2.0"
edition = "2021"
publish = false

[dependencies]
cbc = { version = "*", features = ["alloc"] }
cms = "0.3.0-0"
const-oid = "*"
der = { version = "*", features = ["alloc", "oid"] }
des = "*"
hmac = "*"
pkcs5 = { version = "*", features = ["alloc", "pbes2", "sha1-insecure", "3des"] }
pkcs8 = { version = "*", features = ["alloc", "encryption"] }
rand_core = "*"
sha1 = "*"
sha2 = "*"
spki = { version = "*", features = ["alloc"] }
zeroize = { version = "*", features = ["alloc"] }

[dev-dependencies]
rand = "*"
