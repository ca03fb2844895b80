[package]
name = "mneme"
version = "0.1.0"
edition = "2021"
publish = false

[dependencies]
libc = "0.2"
rustix = { version = "1", features = ["event", "fs", "net", "pipe", "process", "pty", "stdio", "termios"] }
tokio = { version = "1", features = ["io-util", "macros", "net", "process", "rt", "signal", "sync", "time"] }
bitflags = "2"
