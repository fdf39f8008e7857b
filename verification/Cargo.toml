[package]
name = "terminalt"
version = "1.0.0"
edition = "2021"
publish = false

[dependencies]
chrono = "0.4"
log = "0.4"
russh = { version = "*", default-features = false, features = ["ring", "rsa", "flate2"] }
russh-sftp = "*"
serde = { version = "1", features = ["derive"] }
serde_json = "1"
tokio = { version = "1", features = ["fs", "io-util", "macros", "net", "rt", "rt-multi-thread", "sync", "time"] }
uuid = { version = "1", features = ["v4"] }
windows-sys = { version = "0.61", features = ["Win32_Foundation", "Win32_Security_Credentials", "Win32_Storage_FileSystem"] }
zeroize = "1"
