//! The registry of task constructors by protocol key.
//!
//! A registry is filled before serving begins and only read afterwards. A key
//! has at most one constructor: the first that is registered under it stays.
//! Asking for a key that has none gives a `NotFound` error.

use std::collections::HashMap;
use vstd::prelude::*;
use vstd::std_specs::iter::IteratorSpec;
use vstd::string::StringExecFns;
use crate::errors::{CuteError, CuteErrorCode};
use crate::text::{append_decimal, decimal_text};

verus! {

/// What the input of a task is in contracts.
pub open spec fn input_view(input: Option<Box<[u8]>>) -> Option<Seq<u8>> {
    match input {
        Some(bytes) => Some(bytes@),
        None => None,
    }
}

/// Builds a task from the bytes of a request.
pub trait TaskConstructor {
    /// The tasks that this constructor builds.
    type Task;

    /// Builds a task from `input`, or says why it cannot.
    fn create(&self, input: Option<Box<[u8]>>) -> Result<Self::Task, CuteError>;
}

/// The message of the error for a key that has no constructor.
pub open spec fn not_found_text(key: u32) -> Seq<char> {
    "Task \""@ + decimal_text(key as nat) + "\" not found"@
}

/// The constructors of a server, each under its protocol key.
pub struct ProcManager<TC> {
    constructor_map: HashMap<u32, TC>,
}

impl<TC> View for ProcManager<TC> {
    type V = Map<u32, TC>;

    closed spec fn view(&self) -> Map<u32, TC> {
        self.constructor_map@
    }
}

impl<TC: TaskConstructor> ProcManager<TC> {
    /// A registry without constructors.
    pub fn new() -> (procs: Self)
        ensures
            procs@ == Map::<u32, TC>::empty(),
    {
        ProcManager { constructor_map: HashMap::new() }
    }

    /// Registers `task_constructor` under `key`, unless the key has a
    /// constructor already: the first one stays.
    pub fn insert(&mut self, key: u32, task_constructor: TC)
        ensures
            final(self)@ == if old(self)@.contains_key(key) {
                old(self)@
            } else {
                old(self)@.insert(key, task_constructor)
            },
    {
        broadcast use vstd::std_specs::hash::group_hash_axioms;

        if !self.constructor_map.contains_key(&key) {
            self.constructor_map.insert(key, task_constructor);
        }
    }

    /// The keys that have a constructor, each once, in no stated order.
    pub fn get_service_protocols(&self) -> (r: Result<Vec<u32>, CuteError>)
        ensures
            r matches Ok(keys) && keys@.no_duplicates() && keys@.to_set() == self@.dom(),
    {
        broadcast use vstd::std_specs::hash::group_hash_axioms;

        let mut results: Vec<u32> = Vec::new();
        let ghost all: Seq<u32> = self.constructor_map.keys().remaining().unref();
        proof {
            assert(all.no_duplicates()) by {
                let refs = self.constructor_map.keys().remaining();
                assert forall|i: int, j: int|
                    0 <= i < all.len() && 0 <= j < all.len() && i != j implies all[i]
                    != all[j] by {
                    assert(refs[i] != refs[j]);
                }
            }
        }
        for key in iter: self.constructor_map.keys()
            invariant
                iter.seq().unref() == all,
                results@ == all.take(iter.index()),
        {
            results.push(*key);
            assert(results@ =~= all.take(iter.index() + 1));
        }
        assert(all.take(all.len() as int) =~= all);
        Ok(results)
    }

    /// Builds the task for a request under `key`: what the key's
    /// constructor makes of `input`. A key without constructor gives a
    /// `NotFound` error that names the key.
    pub fn get_task(&self, key: u32, input: Option<Box<[u8]>>) -> (made: Result<
        TC::Task,
        CuteError,
    >)
        ensures
            !self@.contains_key(key) ==> {
                &&& made matches Err(e)
                &&& e.code == CuteErrorCode::NotFound
                &&& e.message@ == not_found_text(key)
            },
            self@.contains_key(key) ==> call_ensures(TC::create, (&self@[key], input), made),
    {
        broadcast use vstd::std_specs::hash::group_hash_axioms;

        match self.constructor_map.get(&key) {
            None => {
                let mut message = String::from_str("Task \"");
                append_decimal(&mut message, key);
                message.append("\" not found");
                Err(CuteError::not_found(message.as_str()))
            },
            Some(constructor) => constructor.create(input),
        }
    }
}

} // verus!
