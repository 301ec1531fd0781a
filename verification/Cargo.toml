[package]
name = "bevy_mod_schematica"
version = "0.1.0"
edition = "2021"
publish = false

[dependencies]
bevy_ecs = "0.14"
bevy_hierarchy = "0.14"
smallvec = "1"
