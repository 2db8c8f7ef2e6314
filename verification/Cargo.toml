[package]
name = "chess_trainer"
version = "0.1.0"
edition = "2021"
publish = false

[dependencies]
shakmaty = "=0.16.4"
pgn-reader = "=0.15.0"
encoding_rs = "=0.8.42"
chessground = "=0.8.0"
gtk = "=0.4.1"
gdk = "=0.8.0"
relm = "=0.14.6"
relm-derive = "=0.14.6"
