[package]
name = "weather_node"
version = "0.1.0"
edition = "2021"
publish = false

[dependencies]
arrayvec = "=0.7.8"
cortex-m = "*"
cortex-m-rt = "*"
embedded-hal = "=0.2.7"
heapless = "=0.8.0"
itoa = "=0.4.8"
nb = "=1.1.0"
panic-semihosting = "*"
stm32f1xx-hal = { version = "*", features = ["stm32f103", "rt"] }
