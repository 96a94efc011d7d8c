//! Tasks as the registry sees them: things that are built from the bytes of
//! a request.

use std::marker::PhantomData;
use vstd::prelude::*;
use crate::errors::CuteError;
use crate::procs::TaskConstructor;

verus! {

/// A unit of work, as far as its making goes. Running it and tearing it
/// down wait on the outside world and are left to the runtime that drives
/// it.
pub trait Task: Sized {
    /// Builds the task from the bytes of a request, or says why it cannot.
    fn new(input: Option<Box<[u8]>>) -> Result<Self, CuteError>;
}

/// The constructor that builds a `T` by `T::new`, for a context of type `C`.
pub struct BasicTaskConstructor<T, C> {
    phantom_t: PhantomData<T>,
    phantom_c: PhantomData<C>,
}

impl<T, C> BasicTaskConstructor<T, C> {
    pub fn new() -> (constructor: Self) {
        BasicTaskConstructor { phantom_t: PhantomData, phantom_c: PhantomData }
    }
}

impl<T: Task, C> TaskConstructor for BasicTaskConstructor<T, C> {
    type Task = T;

    /// What `T::new` makes of `input`.
    fn create(&self, input: Option<Box<[u8]>>) -> (made: Result<T, CuteError>)
        ensures
            call_ensures(T::new, (input,), made),
    {
        T::new(input)
    }
}

} // verus!
