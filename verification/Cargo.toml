[package]
name = "framestack"
version = "0.1.0"
edition = "2021"
publish = false

[dependencies]
atomic_refcell = "=0.1.14"
gstreamer = "=0.25.4"
gstreamer-base = "=0.25.4"
gstreamer-video = "=0.25.4"
kstring = ">=2.0.0, <=2.0.2"
