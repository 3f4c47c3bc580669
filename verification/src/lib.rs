//! A server-side rendering engine with streaming, suspense-aware hydration.
//!
//! The engine renders a component tree to HTML, emits an initial frame with
//! placeholders for asynchronous subtrees, then streams replacement fragments
//! as those subtrees resolve, interleaving the serialized state the client
//! needs to resume execution. Fully resolved pages can be cached under their
//! route for subsequent requests.
//!
//! - [`graph`] models the component tree: scopes, rendered nodes, suspense
//!   and error state.
//! - [`render`] holds the two tree walks: plain resolved markup, and the
//!   streaming walk that plants placeholders and fills the registry.
//! - [`streaming`] owns chunk emission, mount allocation and replacement
//!   instructions; [`registry`] ties pending boundaries to their mounts.
//! - [`hydration`] extracts and serializes per-boundary state depth-first.
//! - [`shell`] wraps rendered fragments with the page shell and the
//!   hydration payload script; [`cache`] stores fully resolved pages.
//! - [`session`] is the render session as a state machine, with the
//!   streaming laws proved of it; [`pool`] is the executable entry point,
//!   proved to follow the machine.

pub mod cache;
pub mod graph;
pub mod hydration;
pub mod pool;
pub mod registry;
pub mod render;
pub mod session;
pub mod shell;
pub mod streaming;
pub mod text;
