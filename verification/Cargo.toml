[package]
name = "umbrella"
version = "0.1.0"
edition = "2021"
publish = false

[dependencies]
bincode = "=1.3.3"
bit-vec = "=0.6.3"
frunk = "=0.5.0"
itertools = "=0.15.0"
nom = "3"
rustyline = "=19.0.0"
void = "=1.0.2"
