[package]
name = "epr_sim"
version = "0.1.0"
edition = "2021"
publish = false

[dependencies]
anyhow = "=1.0.104"
petgraph = "0.7"
rand = "=0.9.5"
rand_distr = "=0.5.1"
