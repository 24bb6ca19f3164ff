//! Outside identities that the library carries without looking inside.
use vstd::prelude::*;

verus! {

/// `uuid::Uuid`: the identity of a window, a drawable or a world. It is only carried: nothing
/// is claimed of it.
#[verifier::external_type_specification]
#[verifier::external_body]
pub struct ExUuid(uuid::Uuid);

} // verus!
