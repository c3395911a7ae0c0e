[package]
name = "discord_storage"
version = "0.1.0"
edition = "2021"
publish = false

[dependencies]
serenity = "=0.11.7"
gluesql-core = "=0.16.3"
# gluesql-core 0.16.3 does not build against newer bigdecimal releases;
# this pin holds the dependency tree to the last compatible patch.
bigdecimal = "=0.4.5"
rust_decimal = "=1.43.0"
serde_json = "=1.0.151"
tokio = { version = "=1.53.2", features = ["macros", "rt-multi-thread"] }
async-trait = "=0.1.92"
eyre = "=0.6.14"
dotenv = "=0.15.0"
