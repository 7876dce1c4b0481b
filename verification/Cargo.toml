[package]
name = "weresocool_visualizer"
version = "0.1.0"
edition = "2021"
publish = false

[dependencies]
crossbeam-channel = "0.5"
env_logger = "0.10"
error-iter = "0.4"
hound = "3.5"
log = "0.4"
pixels = "0.13"
portaudio = "0.7"
rand = "0.8"
winit = "0.28"
winit_input_helper = "0.14"
