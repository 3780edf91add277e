//! Words implemented by the embedding program as Rust closures.
use vstd::prelude::*;
use std::rc::Rc;
use super::Interpreter;
use super::error::RuntimeError;

verus! {

/// A closure registered with `Interpreter::register_native`.  Kept as an
/// opaque, shared handle: Verus sees nothing of the closure, which may do
/// anything to the interpreter through its public methods.
#[verifier::external_body]
pub struct NativeFn {
    f: Rc<dyn Fn(&mut Interpreter) -> Result<(), RuntimeError>>,
}

/// Puts a closure behind a shared handle (`Rc::new`).  Nothing is claimed.
#[verifier::external_body]
pub(crate) fn make_native<F: Fn(&mut Interpreter) -> Result<(), RuntimeError> + 'static>(f: F) -> NativeFn {
    NativeFn { f: Rc::new(f) }
}

/// A second handle to the same closure (`Rc::clone`).  Nothing is claimed.
#[verifier::external_body]
pub(crate) fn share_native(f: &NativeFn) -> NativeFn {
    NativeFn { f: Rc::clone(&f.f) }
}

/// Runs the closure on the interpreter.  Nothing is claimed of the result
/// nor of the interpreter afterwards: the closure is the embedder's code.
#[verifier::external_body]
pub(crate) fn invoke_native(f: &NativeFn, interp: &mut Interpreter) -> Result<(), RuntimeError> {
    (f.f)(interp)
}

} // verus!
