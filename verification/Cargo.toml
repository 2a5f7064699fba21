[package]
name = "virtio-balloon"
version = "0.1.0"
edition = "2021"
publish = false

[dependencies]
event-manager = "0.4"
libc = "0.2"
log = "0.4"
virtio-queue = "*"
vm-device = "0.1"
vm-memory = { version = "*", features = ["backend-mmap"] }
vmm-sys-util = "*"

[dev-dependencies]
virtio-queue = { version = "*", features = ["test-utils"] }
