pub mod text;
pub mod adb;
pub mod json;
pub mod protocol;
pub mod sms;
pub mod sim;
pub mod phones;
pub mod serial_map;
pub mod screen;
pub mod ports;
pub mod commands;
pub mod records;
pub mod config;
pub mod events;
pub mod web;
pub mod session;
pub mod rounds;
