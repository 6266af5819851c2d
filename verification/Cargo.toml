[package]
name = "graphql_pipeline"
version = "0.1.0"
edition = "2021"
publish = false

[dependencies]
graphql-parser = "*"
async-trait = "*"
tide = "*"
