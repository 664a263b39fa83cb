//! The items of the `redis` crate that the library holds or calls.
use vstd::prelude::*;

verus! {

/// A Redis client: it carries the connection settings; the library only passes it on.
#[verifier::external_type_specification]
#[verifier::external_body]
pub struct ExClient(::redis::Client);

/// A Lua script, kept with its SHA1 hash; the library only passes it on.
#[verifier::external_type_specification]
#[verifier::external_body]
pub struct ExScript(redis::Script);

/// The script that `redis::Script::new` makes of `code`: the code together with its SHA1
/// hash, which depend on the code alone.
pub uninterp spec fn lua_script(code: Seq<char>) -> redis::Script;

/// `redis::Script::new` keeps a copy of the code and computes its SHA1 hash: the script
/// that comes back is `lua_script` of the code's characters. The call has no precondition.
pub assume_specification[ redis::Script::new ](code: &str) -> (r: redis::Script)
    ensures
        r == lua_script(code@),
;

} // verus!

verus! {

/// The clone of a Redis client: `redis::Client` derives `Clone`, so the clone holds equal
/// connection settings; it is claimed equal to the original.
pub assume_specification[ <redis::Client as std::clone::Clone>::clone ](c: &redis::Client) -> (r: redis::Client)
    ensures
        r == *c,
;

/// The clone of a script: `redis::Script` derives `Clone`, so the clone holds the same
/// code and hash; it is claimed equal to the original.
pub assume_specification[ <redis::Script as std::clone::Clone>::clone ](s: &redis::Script) -> (r: redis::Script)
    ensures
        r == *s,
;

} // verus!
