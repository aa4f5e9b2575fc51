[package]
name = "pick_up_xml_value"
version = "0.1.0"
edition = "2021"
publish = false

[dependencies]
quick-xml = "0.37"
