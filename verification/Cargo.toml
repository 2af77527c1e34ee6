[package]
name = "rpgm_asset_decrypter_lib"
version = "0.1.0"
edition = "2021"

[dependencies]
thiserror = "2"
