[package]
name = "lightyear_replication"
version = "0.1.0"
edition = "2021"
publish = false

[dependencies]
bevy_app = "=0.18.1"
bevy_ecs = "=0.18.1"
bevy_replicon = "=0.39.5"
bevy_state = "=0.18.1"
tracing = "=0.1.44"

[dev-dependencies]
bevy_time = "=0.18.1"
bytes = "=1.12.1"
