//! Link-preview core for a chat bot that expands references to a code
//! repository: recognizing issue and pull-request URLs in message text,
//! sanitizing remote body text for display, rendering preview cards, and
//! authorizing deletion of a posted reply.

pub mod dispatch;
pub mod guard;
pub mod matcher;
pub mod num;
pub mod render;
pub mod sanitize;
pub mod text;

use vstd::prelude::*;

verus! {

} // verus!
