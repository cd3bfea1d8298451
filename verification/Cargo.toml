[package]
name = "bevy_state_plugin_generator"
version = "0.1.0"
edition = "2021"
publish = false

[dependencies]
duct = "*"
