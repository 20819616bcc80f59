[package]
name = "feebos"
version = "0.1.0"
edition = "2021"
publish = false

[dependencies]
font8x8 = "=0.3.1"
pc-keyboard = "=0.9.0"
x86_64 = { version = "=0.15.5", default-features = false, features = ["instructions"] }
uart_16550 = "=0.8.1"
pic8259 = "=0.11.0"
spin = "=0.12.3"
lazy_static = "=1.5.1"
linked_list_allocator = "=0.10.6"
bootloader-locator = "=0.0.4"
locate-cargo-manifest = "=0.2.2"
runner-utils = "=0.0.2"
