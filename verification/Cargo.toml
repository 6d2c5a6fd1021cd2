[package]
name = "layout_tiles"
version = "0.1.0"
edition = "2021"
publish = false

[dependencies]
bevy = { version = "0.8", default-features = false, features = ["render", "bevy_asset"] }
bevy_pancam = "0.6"
bevy_prototype_lyon = "0.6"
bitflags = "1"
crossbeam-channel = "0.5"
csv = "1"
futures-lite = "1"
geo = "0.23"
itertools = "0.10"
layout21 = "3.0.0-pre.2"
rkyv = "0.7"
