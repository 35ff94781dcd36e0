[package]
name = "osm_nominatim"
version = "0.1.0"
edition = "2021"
publish = false

[dependencies]
iso3166-static = "*"
country-boundaries = "*"
osmpbf = "*"
proj = "*"
