[package]
name = "procinfo"
version = "0.1.0"
edition = "2021"
publish = false

[dependencies]
libc = "0.2"
ntapi = "0.4"
winapi = { version = "0.3", features = ["handleapi", "memoryapi", "minwindef", "ntdef", "processthreadsapi", "psapi", "shellapi", "tlhelp32", "winbase", "winnt"] }
