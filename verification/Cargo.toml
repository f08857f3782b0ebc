[package]
name = "particle_life"
version = "0.1.0"
edition = "2021"
publish = false

[dependencies]
rayon = "1.10"
sdl2 = { version = "0.37", features = ["ttf", "gfx"] }
