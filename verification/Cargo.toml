[package]
name = "tile_svg"
version = "0.1.0"
edition = "2021"
publish = false

[dependencies]
arrayvec = "0.4"
byteorder = "1"
clap = "2"
euclid = "0.19"
fixedbitset = "0.4"
hashbrown = "0.9"
lyon_path = "0.12"
rayon = "1"
svgtypes = "0.3"
usvg = "0.4"

[dev-dependencies]
quickcheck = "1"
