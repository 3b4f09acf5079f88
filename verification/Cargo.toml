[package]
name = "ogurpchik"
version = "0.1.0"
edition = "2021"
publish = false

[dependencies]
capnp = "=0.27.3"
capnp-rpc = "=0.27.3"
compio = { version = "=0.19.2", features = ["fs", "macros", "net", "time"] }
error-stack = "=0.8.0"
futures = "=0.3.34"
getrandom = "=0.4.3"
hmac = "=0.12.1"
libc = "=0.2.191"
rustix = { version = "=1.1.6", features = ["net"] }
serde = { version = "=1.0.229", features = ["derive"] }
serde_json = "=1.0.154"
sha2 = "=0.10.9"
socket2 = { version = "=0.6.5", features = ["all"] }
uuid = "=1.29.0"
widestring = "=1.2.1"
winapi = { version = "=0.3.9", features = ["combaseapi", "libloaderapi", "minwindef", "ntdef"] }
windows = { version = "0.62", features = ["Win32_Foundation", "Win32_Networking_WinSock", "Win32_Security", "Win32_Security_Authorization", "Win32_System_Hypervisor", "Win32_System_Pipes", "Win32_System_Threading"] }
winreg = "=0.56.0"
