[package]
name = "zelda_a_link_to_the_past"
version = "0.1.0"
edition = "2021"
publish = false
