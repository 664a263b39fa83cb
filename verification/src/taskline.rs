//! Taskline: a queue in a Redis sorted set under a key of any type, with its configuration.
use vstd::prelude::*;

use crate::backends::redis_queue::{autodelete_arg_of, pop_schedule_script_code, POP_SCHEDULE_SCRIPT};
use crate::redis_specs::lua_script;

verus! {

/// Configuration for Taskline: the key of the queue, the number of tasks one read gives
/// at most, and whether reading removes what it reads.
#[derive(Debug)]
pub struct TasklineConfig<K: Clone> {
    queue_key: K,
    read_batch_size: usize,
    autodelete: bool,
}

impl<K: Clone> View for TasklineConfig<K> {
    /// Queue key, batch size, autodelete.
    type V = (K, usize, bool);

    closed spec fn view(&self) -> (K, usize, bool) {
        (self.queue_key, self.read_batch_size, self.autodelete)
    }
}

impl<K: Clone> Clone for TasklineConfig<K> {
    /// A configuration with a clone of the key and the same batch size and autodelete.
    fn clone(&self) -> (r: Self)
        ensures
            cloned(self@.0, r@.0),
            r@.1 == self@.1,
            r@.2 == self@.2,
    {
        TasklineConfig {
            queue_key: self.queue_key.clone(),
            read_batch_size: self.read_batch_size,
            autodelete: self.autodelete,
        }
    }
}

impl<K: Default + Clone> Default for TasklineConfig<K> {
    /// The default key of `K`, batches of 50, and autodelete on.
    fn default() -> (r: Self)
        ensures
            call_ensures(K::default, (), r@.0),
            r@.1 == 50,
            r@.2,
    {
        TasklineConfig { queue_key: K::default(), read_batch_size: 50, autodelete: true }
    }
}

impl<K: Default + Clone> TasklineConfig<K> {
    /// The default configuration.
    pub fn new() -> (r: Self)
        ensures
            call_ensures(K::default, (), r@.0),
            r@.1 == 50,
            r@.2,
    {
        Self::default()
    }
}

impl<K: Clone> TasklineConfig<K> {
    /// Redis key is used to store tasks.
    pub fn queue_key<Q: Into<K>>(self, queue_key: Q) -> (r: Self)
        ensures
            call_ensures(Q::into, (queue_key,), r@.0),
            r@.1 == self@.1,
            r@.2 == self@.2,
    {
        TasklineConfig { queue_key: queue_key.into(), ..self }
    }

    /// Number of tasks to read in one batch.
    pub fn read_batch_size(self, read_batch_size: usize) -> (r: Self)
        ensures
            r@ == (self@.0, read_batch_size, self@.2),
    {
        TasklineConfig { read_batch_size, ..self }
    }

    /// If `true`, tasks will be deleted from queue after reading.
    /// If autodelete is `false`, tasks should be deleted explicitly from queue after reading.
    pub fn autodelete(self, autodelete: bool) -> (r: Self)
        ensures
            r@ == (self@.0, self@.1, autodelete),
    {
        TasklineConfig { autodelete, ..self }
    }

    /// The configuration as set.
    pub fn build(self) -> (r: Self)
        ensures
            r@ == self@,
    {
        TasklineConfig {
            queue_key: self.queue_key,
            read_batch_size: self.read_batch_size,
            autodelete: self.autodelete,
        }
    }
}

/// Taskline: a queue of tasks in a Redis sorted set, ordered by score (usually a unix
/// timestamp). The commands themselves are sent by the caller; Taskline holds the
/// configuration, the client and the pop script, and decides what the commands carry.
#[derive(Debug)]
pub struct Taskline<K: Clone> {
    config: TasklineConfig<K>,
    client: redis::Client,
    pop_schedule_script: redis::Script,
}

impl<K: Clone> Taskline<K> {
    /// The script a Taskline holds is the one made of the pop code.
    #[verifier::type_invariant]
    spec fn holds_pop_script(self) -> bool {
        self.pop_schedule_script == lua_script(POP_SCHEDULE_SCRIPT@)
    }

    /// The configuration.
    pub closed spec fn config_spec(&self) -> TasklineConfig<K> {
        self.config
    }

    /// The client.
    pub closed spec fn client_spec(&self) -> redis::Client {
        self.client
    }

    /// Creates a Taskline with `config` over `client`.
    pub fn new(config: TasklineConfig<K>, client: redis::Client) -> (r: Self)
        ensures
            r.config_spec() == config,
            r.client_spec() == client,
    {
        Taskline { config, client, pop_schedule_script: redis::Script::new(pop_schedule_script_code()) }
    }

    /// The client to send the commands through.
    pub fn client(&self) -> (r: &redis::Client)
        ensures
            *r == self.client_spec(),
    {
        &self.client
    }

    /// The script that pops due tasks: the script made of the pop code.
    pub fn pop_schedule_script(&self) -> (r: &redis::Script)
        ensures
            *r == lua_script(POP_SCHEDULE_SCRIPT@),
    {
        proof {
            use_type_invariant(self);
        }
        &self.pop_schedule_script
    }

    /// The key of the sorted set that holds the tasks.
    pub fn queue_key(&self) -> (r: &K)
        ensures
            *r == self.config_spec()@.0,
    {
        &self.config.queue_key
    }

    /// The most tasks one read gives: the second argument of the pop script.
    pub fn read_limit(&self) -> (r: usize)
        ensures
            r == self.config_spec()@.1,
    {
        self.config.read_batch_size
    }

    /// The third argument of the pop script: `1` where reading removes the tasks it reads.
    pub fn autodelete_arg(&self) -> (r: u8)
        ensures
            r == autodelete_arg_of(self.config_spec()@.2),
    {
        if self.config.autodelete {
            1
        } else {
            0
        }
    }

    /// Whether a handled task must be removed by a command of its own: only where reading
    /// does not remove it already. Where this is false, deleting a task sends nothing and
    /// succeeds.
    pub fn needs_explicit_delete(&self) -> (r: bool)
        ensures
            r == !self.config_spec()@.2,
    {
        !self.config.autodelete
    }
}

impl<K: Clone> Clone for Taskline<K> {
    /// A Taskline with a clone of the configuration, the same client and the same script.
    fn clone(&self) -> (r: Self)
        ensures
            cloned(self.config_spec()@.0, r.config_spec()@.0),
            r.config_spec()@.1 == self.config_spec()@.1,
            r.config_spec()@.2 == self.config_spec()@.2,
            r.client_spec() == self.client_spec(),
    {
        proof {
            use_type_invariant(self);
        }
        Taskline {
            config: self.config.clone(),
            client: self.client.clone(),
            pop_schedule_script: self.pop_schedule_script.clone(),
        }
    }
}

} // verus!
