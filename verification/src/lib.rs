//! Relays chat messages to an HTTP webhook when their content matches a
//! configured pattern.
//!
//! The verified core is made of four pieces: the content extractor, which
//! strips protocol framing from a raw line; the match engine
//! ([`message_handler::MessageHandler`]), which classifies payloads in
//! single-line or buffered multi-line mode; the template renderer
//! ([`webhook_publisher::templ_replace`]), which substitutes positional
//! `${i}` placeholders; and the request-rendering half of the dispatch
//! engine ([`webhook_publisher::WebhookPublisher`]). The HTTP and chat
//! transports themselves live outside this crate.

pub mod message_handler;
pub mod pattern;
pub mod strutil;
pub mod webhook_publisher;
