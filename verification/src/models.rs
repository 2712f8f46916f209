//! The account record that the user store keeps for each chat user.
use vstd::prelude::*;

verus! {

/// A registered chat user.
pub struct User {
    pub id: i32,
    pub nickname: String,
    pub last_nickname: String,
    pub active: bool,
}

} // verus!
