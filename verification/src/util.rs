//! Small helpers around the coordinator: the display name of a user, and the
//! color hint a new thread is created with.

use vstd::prelude::*;
use vstd::string::StringExecFns;

verus! {

/// What the coordinator reads of a user: an optional username and the first
/// name shown when no username is set.
#[derive(Clone, Debug)]
pub struct UserIdentity {
    pub username: Option<String>,
    pub first_name: String,
}

/// The name shown for a user: the username when one is set, the first name
/// otherwise.
pub open spec fn user_name_spec(u: UserIdentity) -> Seq<char> {
    match u.username {
        Some(n) => n@,
        None => u.first_name@,
    }
}

/// The name shown for a user.
pub fn get_user_name(user: &UserIdentity) -> (r: String)
    ensures
        r@ == user_name_spec(*user),
{
    match &user.username {
        Some(n) => n.clone(),
        None => user.first_name.clone(),
    }
}

/// The palette a new thread's color hint is drawn from.
pub open spec fn is_topic_color(c: u32) -> bool {
    c == 0x6FB9F0 || c == 0xFFD67E || c == 0xCB86DB || c == 0x8EEE98 || c == 0xFF93B2 || c
        == 0xFB6F5F
}

/// Relies on rand::random_range: a uniform sample from a nonempty range lies
/// within it; the call panics only on an empty range, which the precondition
/// rules out.
#[verifier::external_body]
fn random_below(n: usize) -> (r: usize)
    requires
        n > 0,
    ensures
        r < n,
{
    rand::random_range(0..n)
}

/// A color hint for a new thread, drawn from the fixed palette.
pub fn get_random_topic_color() -> (r: u32)
    ensures
        is_topic_color(r),
{
    let i = random_below(6);
    match i {
        0 => 0x6FB9F0,
        1 => 0xFFD67E,
        2 => 0xCB86DB,
        3 => 0x8EEE98,
        4 => 0xFF93B2,
        _ => 0xFB6F5F,
    }
}

} // verus!
