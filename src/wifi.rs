//! Joining a wireless network: the authentication a network's security name asks for.

use vstd::prelude::*;

verus! {

/// The authentication used to join a wireless network.
#[derive(Clone, Copy, Debug, PartialEq, Eq, Structural)]
pub enum JoinAuth {
    Open,
    Wpa,
    Wpa2,
    Wpa3,
}

/// The authentication for a network whose security is named `security`: `open`, `wpa`,
/// `wpa2` or `wpa3`; any other name is not supported.
pub fn join_auth(security: &String) -> (r: Option<JoinAuth>)
    ensures
        r == if security@ == "open"@ {
            Some(JoinAuth::Open)
        } else if security@ == "wpa"@ {
            Some(JoinAuth::Wpa)
        } else if security@ == "wpa2"@ {
            Some(JoinAuth::Wpa2)
        } else if security@ == "wpa3"@ {
            Some(JoinAuth::Wpa3)
        } else {
            None
        },
{
    if *security == "open".to_string() {
        Some(JoinAuth::Open)
    } else if *security == "wpa".to_string() {
        Some(JoinAuth::Wpa)
    } else if *security == "wpa2".to_string() {
        Some(JoinAuth::Wpa2)
    } else if *security == "wpa3".to_string() {
        Some(JoinAuth::Wpa3)
    } else {
        None
    }
}

} // verus!
