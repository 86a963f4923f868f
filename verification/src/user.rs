//! A remote user allowed to drive the gateway; the phone number is the
//! authorization key for every inbound message.
use vstd::prelude::*;

verus! {

#[derive(Debug, Clone, PartialEq)]
pub struct User {
    pub name: String,
    pub phone_number: String,
    pub email: String,
}

} // verus!
