//! Connection, address-book, framebuffer and input logic of a VNC viewer.
pub mod address_book;
pub mod credentials;
pub mod text;
pub mod connection;
pub mod bridge;
pub mod framebuffer;
pub mod render;
pub mod session_view;
pub mod address_book_panel;
pub mod password_dialog;
pub mod connection_dialog;
pub mod sync;
pub mod tunnel;
pub mod viewer;
pub mod i18n;
