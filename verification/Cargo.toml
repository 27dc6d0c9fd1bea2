[package]
name = "unvesys"
version = "0.1.0"
edition = "2021"
publish = false

[dependencies]
sanitise-file-name = "*"
csv = "*"
egui = "*"
egui-data-table = "*"
xlsxwriter = "*"
chrono = "*"
wildflower = "*"
