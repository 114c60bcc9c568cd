//! The logic of a small portfolio site with client quotes: quotes shown to
//! their recipients, the administrator's quote form and its checks, sign-in
//! with Discord, the assistant tools' view of quotes, and the home page's
//! project list.

pub mod text;
mod vecs;
pub mod decimal;
pub mod fields;
pub mod quotes;
pub mod form;
pub mod admin;
pub mod auth;
pub mod mcp;
pub mod site;
