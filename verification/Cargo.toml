[package]
name = "stm32u083c_dk"
version = "0.1.0"
edition = "2021"
publish = false

[dependencies]
embassy-sync = "*"
critical-section = { version = "*", features = ["std"] }
embassy-executor = { version = "*", features = ["arch-std", "executor-thread"] }
embassy-time = "*"
embassy-stm32 = { version = "*", features = ["stm32u083mc"] }
defmt = "*"
