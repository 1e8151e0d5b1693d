[package]
name = "fluxcap"
version = "0.1.0"
edition = "2021"

[dependencies]
chrono = "=0.4.45"
earlgrey = "=0.4.1"
kronos = "=0.0.5"
lexers = "=0.0.5"
libm = "=0.2.16"
regex = "=1.13.1"
