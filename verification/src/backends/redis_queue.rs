//! A backend that keeps its queue in a Redis sorted set. The commands themselves are
//! sent by the caller; the backend holds the settings and decides what they carry.
use vstd::prelude::*;

use crate::redis_specs::lua_script;

verus! {

/// The Lua script that Taskline runs to pop due tasks: it reads the members of the sorted
/// set `KEYS[1]` whose score is below `ARGV[1]` (the bound is exclusive, as the read
/// functions promise: with no task scored below the bound, nothing is read), at most
/// `ARGV[2]` of them, and removes them where `ARGV[3]` is `1`.
pub const POP_SCHEDULE_SCRIPT: &'static str = "
local key = KEYS[1]
local unix_ts = ARGV[1]
local limit = ARGV[2]
local autodelete = ARGV[3] == '1'
local res = redis.call('zrange', key, '-inf', '(' .. unix_ts, 'byscore', 'limit', 0, limit)
if autodelete then
    for _, raw in ipairs(res) do
        redis.call('zrem', key, raw)
    end
end
return res
";

/// The Lua script that `RedisBackend` runs to pop due tasks; it does what
/// `POP_SCHEDULE_SCRIPT` does, written with the indentation of the backend's source.
pub const REDIS_BACKEND_POP_SCRIPT: &'static str = "
                local key = KEYS[1]
                local unix_ts = ARGV[1]
                local limit = ARGV[2]
                local autodelete = ARGV[3] == '1'
                local res = redis.call('zrange', key, '-inf', '(' .. unix_ts, 'byscore', 'limit', 0, limit)
                if autodelete then
                    for _, raw in ipairs(res) do
                        redis.call('zrem', key, raw)
                    end
                end
                return res";

/// The code of the script that pops due tasks.
pub fn pop_schedule_script_code() -> (r: &'static str)
    ensures
        r == POP_SCHEDULE_SCRIPT,
{
    POP_SCHEDULE_SCRIPT
}

/// The third argument of the pop script: `1` where popped tasks are removed, else `0`.
pub open spec fn autodelete_arg_of(autodelete: bool) -> u8 {
    if autodelete {
        1
    } else {
        0
    }
}

/// The third argument of the pop script, which makes the script remove what it reads when
/// it is `1`, is `1` exactly where autodelete is on and `0` exactly where it is off.
pub proof fn law_autodelete_arg(autodelete: bool)
    ensures
        (autodelete_arg_of(autodelete) == 1u8) == autodelete,
        (autodelete_arg_of(autodelete) == 0u8) == !autodelete,
{
}

/// Configuration for Redis backend.
#[derive(Debug, Clone)]
/// You can use it to create `RedisBackend` instance.
pub struct RedisBackendConfig {
    /// Redis key is used to store tasks.
    pub queue_key: String,
    /// Number of tasks to read in one batch.
    pub read_batch_size: usize,
    /// If `true`, tasks will be deleted from queue after reading.
    /// If autodelete is `false`, tasks should be deleted explicitly from queue after reading.
    pub autodelete: bool,
}

impl RedisBackendConfig {
    /// Creates a `RedisBackend` with these settings over `client`.
    pub fn with_client(self, client: redis::Client) -> (r: RedisBackend)
        ensures
            r@ == (self.queue_key@, self.read_batch_size, self.autodelete),
            r.client_spec() == client,
    {
        RedisBackend::new(client, self.queue_key, self.read_batch_size, self.autodelete)
    }
}

/// Redis backend: the client, the key of the sorted set that holds the tasks (ordered by
/// score, usually a unix timestamp), the pop script, the batch size, and whether reading
/// removes what it reads.
#[derive(Debug)]
pub struct RedisBackend {
    client: redis::Client,
    queue_key: String,
    pop_schedule_script: redis::Script,
    read_batch_size: usize,
    autodelete: bool,
}

impl View for RedisBackend {
    /// The settings: queue key, batch size, autodelete.
    type V = (Seq<char>, usize, bool);

    closed spec fn view(&self) -> (Seq<char>, usize, bool) {
        (self.queue_key@, self.read_batch_size, self.autodelete)
    }
}

impl RedisBackend {
    /// The script a backend holds is the one made of its pop code.
    #[verifier::type_invariant]
    spec fn holds_pop_script(self) -> bool {
        self.pop_schedule_script == lua_script(REDIS_BACKEND_POP_SCRIPT@)
    }

    /// The client the backend talks through.
    pub closed spec fn client_spec(&self) -> redis::Client {
        self.client
    }

    /// Creates a backend over `client` that keeps its tasks under `queue_key`, reads at
    /// most `read_batch_size` of them at once, and removes what it reads when `autodelete`.
    pub fn new(
        client: redis::Client,
        queue_key: String,
        read_batch_size: usize,
        autodelete: bool,
    ) -> (r: Self)
        ensures
            r@ == (queue_key@, read_batch_size, autodelete),
            r.client_spec() == client,
    {
        RedisBackend {
            client,
            queue_key,
            pop_schedule_script: redis::Script::new(REDIS_BACKEND_POP_SCRIPT),
            read_batch_size,
            autodelete,
        }
    }

    /// The client to send the commands through.
    pub fn client(&self) -> (r: &redis::Client)
        ensures
            *r == self.client_spec(),
    {
        &self.client
    }

    /// The script that pops due tasks: the script made of the backend's pop code.
    pub fn pop_schedule_script(&self) -> (r: &redis::Script)
        ensures
            *r == lua_script(REDIS_BACKEND_POP_SCRIPT@),
    {
        proof {
            use_type_invariant(self);
        }
        &self.pop_schedule_script
    }

    /// The key of the sorted set that holds the tasks.
    pub fn queue_key(&self) -> (r: &str)
        ensures
            r@ == self@.0,
    {
        self.queue_key.as_str()
    }

    /// The most tasks one read gives: the second argument of the pop script.
    pub fn read_limit(&self) -> (r: usize)
        ensures
            r == self@.1,
    {
        self.read_batch_size
    }

    /// The third argument of the pop script: `1` where reading removes the tasks it reads.
    pub fn autodelete_arg(&self) -> (r: u8)
        ensures
            r == autodelete_arg_of(self@.2),
    {
        if self.autodelete {
            1
        } else {
            0
        }
    }

    /// Whether a handled task must be removed by a command of its own: only where reading
    /// does not remove it already. Where this is false, deleting a task sends nothing and
    /// succeeds.
    pub fn needs_explicit_delete(&self) -> (r: bool)
        ensures
            r == !self@.2,
    {
        !self.autodelete
    }
}

impl Clone for RedisBackend {
    /// A backend with the same client, settings and script.
    fn clone(&self) -> (r: Self)
        ensures
            r == *self,
    {
        proof {
            use_type_invariant(self);
        }
        RedisBackend {
            client: self.client.clone(),
            queue_key: self.queue_key.clone(),
            pop_schedule_script: self.pop_schedule_script.clone(),
            read_batch_size: self.read_batch_size,
            autodelete: self.autodelete,
        }
    }
}

} // verus!
