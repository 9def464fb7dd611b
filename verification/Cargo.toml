[package]
name = "libgreen"
version = "0.1.0"
edition = "2021"
publish = false

[dependencies]
perf-event2 = "0.7"
perf-event-data = "0.1"
affinity = "0.1"
num_cpus = "1"
chrono = "0.4"
csv = "1"
jni = "0.21"
