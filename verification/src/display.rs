//! What a display is known by: a number while the program runs, and a
//! stable identifier derived from its name.

use vstd::prelude::*;

verus! {

/// The number of a display, as the platform counts its displays.
#[derive(Clone, Copy, Debug, PartialEq, Eq, Hash, Structural)]
pub struct DisplayId(pub u32);

/// Why a display has no stable identifier.
#[derive(Clone, Copy, Debug, PartialEq, Eq, Structural)]
pub enum DisplayError {
    /// The platform does not know the display's name.
    MissingName,
}

impl DisplayError {
    /// The error in words.
    pub fn message(&self) -> (r: &'static str)
        ensures
            r@ == "Failed to get monitor name"@,
    {
        "Failed to get monitor name"
    }
}

/// The version 5 UUID of a name in the DNS namespace, as 128 bits with the
/// first byte of the UUID on top.
pub uninterp spec fn uuid_v5_dns(name: Seq<char>) -> u128;

/// Calls `uuid::Uuid::new_v5` with `Uuid::NAMESPACE_DNS` and the bytes of
/// `name`, and packs the result with `Uuid::as_u128`. The UUID is a hash of
/// the namespace and the name and of nothing else, so the contract gives it
/// a name and says no more.
#[verifier::external_body]
fn new_v5_dns(name: &str) -> (r: u128)
    ensures
        r == uuid_v5_dns(name@),
{
    uuid::Uuid::new_v5(&uuid::Uuid::NAMESPACE_DNS, name.as_bytes()).as_u128()
}

/// The stable identifier of a display with the given name: the version 5
/// UUID of the name in the DNS namespace. A display without a name has none.
pub fn display_uuid(name: Option<&str>) -> (r: Result<u128, DisplayError>)
    ensures
        r == match name {
            Some(name) => Ok::<u128, DisplayError>(uuid_v5_dns(name@)),
            None => Err::<u128, DisplayError>(DisplayError::MissingName),
        },
{
    match name {
        Some(name) => Ok(new_v5_dns(name)),
        None => Err(DisplayError::MissingName),
    }
}

} // verus!
