//! The identity resolver: numeric owner and group identities become
//! names, falling back to the decimal form of the number when the
//! platform's identity database knows no name.

use vstd::prelude::*;
use vstd::string::*;
use crate::numfmt::{decimal_string, spec_decimal};

verus! {

/// Relies on users::get_user_by_uid: queries the platform's user
/// database; the result depends on the machine, so nothing is promised
/// of it.
#[verifier::external_body]
fn user_name_of(uid: u32) -> Option<String> {
    users::get_user_by_uid(uid).map(|u| u.name().to_string_lossy().into_owned())
}

/// Relies on users::get_group_by_gid: queries the platform's group
/// database; the result depends on the machine, so nothing is promised
/// of it.
#[verifier::external_body]
fn group_name_of(gid: u32) -> Option<String> {
    users::get_group_by_gid(gid).map(|g| g.name().to_string_lossy().into_owned())
}

/// What an identity renders as once the database has answered: the
/// name when one was found, else the decimal form of the number.
pub open spec fn spec_fallback(id: u32, name: Option<Seq<char>>) -> Seq<char> {
    match name {
        Some(n) => n,
        None => spec_decimal(id as nat),
    }
}

/// Choose the rendered form of an identity from the database's answer:
/// the name when one was found, else the decimal form of the number.
/// A failed lookup is never an error.
pub fn fallback_name(id: u32, name: Option<String>) -> (r: String)
    ensures
        r@ == spec_fallback(
            id,
            match name {
                Some(n) => Some(n@),
                None => None,
            },
        ),
{
    match name {
        Some(n) => n,
        None => decimal_string(id as u64),
    }
}

/// Resolve an owner identity to its rendered form. Whatever the user
/// database answered, the result is the fallback rendering of that
/// answer.
pub fn resolve_user(uid: u32) -> (r: String)
    ensures
        exists|name: Option<Seq<char>>| r@ == spec_fallback(uid, name),
{
    let looked_up = user_name_of(uid);
    let ghost answer: Option<Seq<char>> = match looked_up {
        Some(ref n) => Some(n@),
        None => None,
    };
    let r = fallback_name(uid, looked_up);
    proof {
        assert(r@ == spec_fallback(uid, answer));
    }
    r
}

/// Resolve a group identity to its rendered form. Whatever the group
/// database answered, the result is the fallback rendering of that
/// answer.
pub fn resolve_group(gid: u32) -> (r: String)
    ensures
        exists|name: Option<Seq<char>>| r@ == spec_fallback(gid, name),
{
    let looked_up = group_name_of(gid);
    let ghost answer: Option<Seq<char>> = match looked_up {
        Some(ref n) => Some(n@),
        None => None,
    };
    let r = fallback_name(gid, looked_up);
    proof {
        assert(r@ == spec_fallback(gid, answer));
    }
    r
}

} // verus!
