//! Verified core of a Matrix widget container: command-line arguments, the
//! widget-API message rules, the Element Call capabilities and URL.

pub mod json;
pub mod custom_messages;
pub mod cmd;
pub mod element_call_url;
pub mod widget_driver;
