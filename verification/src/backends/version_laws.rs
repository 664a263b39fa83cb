//! Laws of the version check, stated with the order std gives to tuples.
use vstd::prelude::*;
use vstd::std_specs::cmp::PartialOrdSpec;

use crate::backends::server_info::supported_version;

verus! {

/// A server can run the pop script exactly when its version (major, minor) is at least
/// (6, 2) in the order std gives to tuples, which compares the majors first and the
/// minors where the majors are equal: Redis 6.2 or later.
pub proof fn law_supported_iff_at_least_6_2(version: (u8, u8))
    ensures
        supported_version(version) <==> (version.partial_cmp_spec(&(6u8, 2u8)) matches Some(
            core::cmp::Ordering::Greater | core::cmp::Ordering::Equal,
        )),
{
}

/// Every version at least as great as a supported one, in the order std gives to tuples,
/// is supported.
pub proof fn law_supported_is_upward_closed(lower: (u8, u8), higher: (u8, u8))
    requires
        supported_version(lower),
        higher.partial_cmp_spec(&lower) matches Some(
            core::cmp::Ordering::Greater | core::cmp::Ordering::Equal,
        ),
    ensures
        supported_version(higher),
{
}

} // verus!
