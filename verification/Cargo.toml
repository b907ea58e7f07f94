[package]
name = "listdisk-rs"
version = "0.1.0"
edition = "2021"
publish = false

[dependencies]
bitvec = "1"
log = "0.4"
serde = { version = "1", features = ["derive"] }
thiserror = "*"
utf16string = "*"
windows-sys = { version = "*", features = ["Win32_Foundation", "Win32_Storage_FileSystem"] }
wmi = "*"
