//! A value shared by reference count.

use vstd::prelude::*;
use std::ops::Deref;
use std::sync::Arc;
use crate::trusted::share;

verus! {

/// A handle to a shared value. Every clone of the handle leads to the same
/// value.
pub struct Data<T: ?Sized>(Arc<T>);

impl<T: ?Sized> Data<T> {
    /// The reference-counted pointer that the handle holds.
    pub closed spec fn pointer(&self) -> Arc<T> {
        self.0
    }
}

impl<T> Data<T> {
    /// A handle to `state`.
    pub fn new(state: T) -> (data: Data<T>)
        ensures
            *data.pointer() == state,
    {
        Data(Arc::new(state))
    }
}

impl<T: ?Sized> Clone for Data<T> {
    /// A second handle to the same value.
    fn clone(&self) -> (other: Data<T>)
        ensures
            other == *self,
    {
        Data(share(&self.0))
    }
}

impl<T: ?Sized> Deref for Data<T> {
    type Target = Arc<T>;

    fn deref(&self) -> (pointer: &Arc<T>)
        ensures
            *pointer == self.pointer(),
    {
        &self.0
    }
}

impl<T: ?Sized> From<Arc<T>> for Data<T> {
    fn from(arc: Arc<T>) -> (data: Data<T>) {
        Data(arc)
    }
}

impl<T: ?Sized> vstd::std_specs::convert::FromSpecImpl<Arc<T>> for Data<T> {
    open spec fn obeys_from_spec() -> bool {
        true
    }

    closed spec fn from_spec(arc: Arc<T>) -> Data<T> {
        Data(arc)
    }
}

} // verus!
