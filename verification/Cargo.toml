[package]
name = "cardiac_monitor"
version = "0.1.0"
edition = "2021"
publish = false

[dependencies]
heapless = "0.7"
cortex-m = "0.7"
cortex-m-rtic = "1.0"
systick-monotonic = "1.0"
stm32f1xx-hal = { version = "0.8", features = ["stm32f107", "rt"] }
stm32f1 = { version = "0.14", features = ["stm32f107", "rt"] }
max3010x = "0.1"
embedded-graphics = "0.7"
embedded-graphics-core = "0.3"
embedded-hal = "0.2"
panic-halt = "0.2"
