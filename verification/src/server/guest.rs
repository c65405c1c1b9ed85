//! The per-session record of who is visiting.
use vstd::prelude::*;

verus! {

/// Calls `uuid::Uuid::new_v4` and gives its 128 bits, most significant
/// first. Claimed: the version field (bits 76..80) is 4 and the variant
/// field (bits 62..64) is 0b10, as the crate sets them; the other bits are
/// random and left open.
#[verifier::external_body]
fn new_v4_id() -> (id: u128)
    ensures
        (id >> 76u128) & 0xfu128 == 4,
        (id >> 62u128) & 0x3u128 == 2,
{
    uuid::Uuid::new_v4().as_u128()
}

/// The role number of an administrator.
pub const ADMIN: u8 = 255;

/// What the session remembers of its visitor.
#[derive(Debug, Clone)]
pub struct GuestData {
    /// A random version-4 UUID, as its 128 bits.
    pub id: u128,
    pub username: String,
    pub logged_in: bool,
    pub role: u8,
}

impl Default for GuestData {
    /// A visitor who has not logged in, with a fresh random id.
    fn default() -> (g: Self)
        ensures
            g.username@ == Seq::<char>::empty(),
            !g.logged_in,
            g.role == 0,
            (g.id >> 76u128) & 0xfu128 == 4,
            (g.id >> 62u128) & 0x3u128 == 2,
    {
        GuestData { id: new_v4_id(), username: String::new(), logged_in: false, role: 0 }
    }
}

} // verus!
