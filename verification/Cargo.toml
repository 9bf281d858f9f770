[package]
name = "grayline_apps"
version = "0.1.0"
edition = "2021"
publish = false

[dependencies]
jiff = "*"
toml_edit = "*"
directories = "*"
thiserror = "*"
hound = "*"
image = { version = "*", default-features = false, features = ["png"] }
