//! A conversational-assistant client library: a role-tagged transcript with a
//! line-oriented stored form, the JSON request sent to a completion endpoint,
//! the decisions of the interactive session, and an identifier-keyed record store.
pub mod completion;
pub mod error;
pub mod items;
pub mod message;
pub mod session;
pub mod text;
pub mod transcript;
