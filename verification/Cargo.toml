[package]
name = "bog"
version = "0.1.0"
edition = "2021"
publish = false

[dependencies]
arrayvec = "*"
bitflags = "2"
bytemuck = "*"
bytes = "*"
cgmath = "*"
glam = "*"
guillotiere = "*"
hashbrown = "*"
rustc-hash = "*"
slotmap = "*"
taffy = "*"
