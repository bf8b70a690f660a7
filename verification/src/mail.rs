//! The mail handoff contract: the library composes a message; sending
//! it over SMTP is the runtime's business and is never awaited by the
//! request path.

use vstd::prelude::*;

verus! {

/// A composed e-mail, ready to hand to a mail transport.
#[derive(Debug, PartialEq, Eq)]
pub struct Email {
    pub to_name: Vec<u8>,
    pub to_address: Vec<u8>,
    pub subject: Vec<u8>,
    pub body: Vec<u8>,
}

} // verus!
