//! The protocol values exchanged between client and server, and the shared
//! cell that holds a component.
use vstd::prelude::*;

use std::cell::RefCell;
use std::rc::Rc;

verus! {

/// A value of the client–server protocol. The framework generates its
/// implementations from the registered models and procedures.
pub trait Proto {
    /// Runs the value's handler.
    fn dispatch(&self);

    /// Decodes a value.
    fn from_bytes(bytes: &[u8]) -> Self where Self: Sized;

    /// Encodes the value.
    fn to_bytes(&self) -> Vec<u8>;
}

/// `std::cell::RefCell`, whose contents the library does not read.
#[verifier::external_type_specification]
#[verifier::external_body]
#[verifier::reject_recursive_types(T)]
pub struct ExRefCell<T: ?Sized>(RefCell<T>);

/// A cell.
///
/// Trusted: `RefCell::new`; nothing is stated of the cell, which the library
/// only hands on.
#[verifier::external_body]
fn new_cell<T>(value: T) -> RefCell<T> {
    RefCell::new(value)
}

/// Another handle on the same value.
///
/// Trusted: `<Rc<T> as Clone>::clone`, which the standard library documents
/// as making another pointer to the same allocation.
#[verifier::external_body]
fn rc_clone<T>(rc: &Rc<T>) -> (res: Rc<T>)
    ensures
        res == *rc,
{
    rc.clone()
}

/// A value shared between a component and the callbacks of its view.
#[verifier::reject_recursive_types(T)]
pub struct Shared<T>(pub Rc<RefCell<Box<T>>>);

impl<T> Shared<T> {
    /// Puts a value into a new shared cell.
    pub fn from(t: T) -> Self {
        Self(Rc::new(new_cell(Box::new(t))))
    }

    /// The cell.
    pub fn deref(&self) -> (res: &RefCell<Box<T>>)
        ensures
            *res == *self.0,
    {
        &*self.0
    }
}

impl<T> Clone for Shared<T> {
    /// Another handle on the same cell.
    fn clone(&self) -> (res: Self)
        ensures
            res.0 == self.0,
    {
        Self(rc_clone(&self.0))
    }
}

} // verus!
