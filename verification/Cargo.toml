[package]
name = "jiminy"
version = "0.1.0"
edition = "2021"
publish = false

[dependencies]
bytemuck = { version = "=1.25.2", features = ["derive", "min_const_generics"] }
paste = "=1.0.15"
pinocchio = "=0.9.3"
pinocchio-pubkey = "=0.3.0"
pinocchio-system = "=0.3.0"
pinocchio-token = "=0.4.0"
shank = "=0.4.9"
