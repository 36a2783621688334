//! Packing a web page into a single self-reproducing desktop executable:
//! the tail configuration format, its JSON payload, the URL rules, and the
//! names a packed application is given.

pub mod builder;
pub mod json;
pub mod launch;
pub mod tail;
pub mod text;
pub mod ui;
pub mod webview;
