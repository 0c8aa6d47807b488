[package]
name = "compactor"
version = "0.11.4"
edition = "2021"
publish = false

[dependencies]
crossbeam-channel = "0.5"
ctrlc = "3"
directories = "4"
dirs-sys = "0.3"
filesize = "0.2"
filetime = "0.2"
fs2 = "0.4"
globset = "0.4"
humansize = "=1.1.1"
lazy_static = "1"
open = "*"
serde = "1"
serde_derive = "1"
serde_json = "1"
tinyfiledialogs = "*"
walkdir = "2"
web-view = "*"
wfd = "*"
winapi = { version = "0.3", features = ["winbase", "winnt", "fileapi", "ioapiset", "winioctl", "processthreadsapi", "knownfolders", "minwindef", "ntdef"] }
