[package]
name = "kernel"
version = "0.1.0"
edition = "2021"
publish = false

[dependencies]
bitflags = "=2.13.2"
generic_once_cell = "=0.1.2"
limine = "0.5"
spin = "=0.9.9"
uart_16550 = "=0.2.19"
