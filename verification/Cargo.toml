[package]
name = "webble"
version = "0.1.0"
edition = "2021"
publish = false

[dependencies]
async-channel = "2"
async-task = "4"
crossbeam-deque = "0.8"
wasm-bindgen = "0.2"

[dependencies.web-sys]
version = "0.3"
features = ["Worker", "WorkerOptions", "WorkerType"]
