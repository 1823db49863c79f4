[package]
name = "git_pluck"
version = "0.1.0"
edition = "2021"
publish = false

[dependencies]
anyhow = "=1.0.104"
bstr = "=1.13.1"
clap = { version = "=4.6.7", features = ["derive"] }
git2 = "=0.21.0"
gix-config = "=0.62.2"
# Not called by the project: named only to enable the `sha1` hash that gix-config needs to build.
gix-hash = { version = "=0.28.1", features = ["sha1"] }
regex = "=1.13.1"
