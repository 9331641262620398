[package]
name = "ics_rsvp"
version = "0.1.0"
edition = "2021"
publish = false

[dependencies]
chrono = "*"
