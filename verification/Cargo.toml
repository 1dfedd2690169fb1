[package]
name = "adder_net"
version = "0.1.0"
edition = "2021"
publish = false

[dependencies]
uuid = { version = "*", features = ["v4"] }
timely = "*"
differential-dataflow = "*"
abomonation = "*"
abomonation_derive = "*"
serde = { version = "*", features = ["derive"] }
