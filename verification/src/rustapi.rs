//! The native-function bridge: typed argument accessors and the return
//! slot, the only surface a host-registered native function needs.
//!
//! Arguments sit on the frame's stack, with slot 0 holding the callable
//! itself, so user-visible arguments start at index 1. Every misuse is a
//! typed error attributed to the one call, never a crash.

use vstd::prelude::*;
use crate::types::{EvalError, EvalErrorModel, FunctionEnv, Value, ValueModel};

verus! {

/// The slot at `index`, or `IndexOutOfRange` exactly when `index` is not
/// a valid stack position.
fn check_stack(f: &FunctionEnv, index: usize) -> (r: Result<&Value, EvalError>)
    ensures
        match r {
            Ok(v) => index < f.model().stack.len() && v.model() == f.model().stack[index as int],
            Err(e) => index >= f.model().stack.len() && e.model()
                == EvalErrorModel::IndexOutOfRange,
        },
{
    if index >= f.stack.len() {
        Err(EvalError::IndexOutOfRange)
    } else {
        Ok(&f.stack[index])
    }
}

/// The numeric literal text in slot `index`: `IndexOutOfRange` exactly
/// when the slot does not exist, `TypeMismatch` exactly when it holds
/// anything but a number.
pub fn get_number(f: &FunctionEnv, index: usize) -> (r: Result<std::string::String, EvalError>)
    ensures
        match r {
            Ok(t) => index < f.model().stack.len() && f.model().stack[index as int]
                == ValueModel::Number(t@),
            Err(e) => (index >= f.model().stack.len() && e.model()
                == EvalErrorModel::IndexOutOfRange) || (index < f.model().stack.len() && !(
            f.model().stack[index as int] is Number) && e.model() == EvalErrorModel::TypeMismatch),
        },
{
    match check_stack(f, index) {
        Ok(v) => v.get_number(),
        Err(e) => Err(e),
    }
}

/// The string in slot `index`: `IndexOutOfRange` exactly when the slot
/// does not exist, `TypeMismatch` exactly when it holds anything but a
/// string.
pub fn get_string(f: &FunctionEnv, index: usize) -> (r: Result<std::string::String, EvalError>)
    ensures
        match r {
            Ok(t) => index < f.model().stack.len() && f.model().stack[index as int]
                == ValueModel::String(t@),
            Err(e) => (index >= f.model().stack.len() && e.model()
                == EvalErrorModel::IndexOutOfRange) || (index < f.model().stack.len() && !(
            f.model().stack[index as int] is String) && e.model() == EvalErrorModel::TypeMismatch),
        },
{
    match check_stack(f, index) {
        Ok(v) => v.get_string(),
        Err(e) => Err(e),
    }
}

/// Write the callee's result into the frame's single return slot,
/// leaving the stack and scope untouched.
pub fn push_return(f: &mut FunctionEnv, v: Value)
    ensures
        final(f).model().retval == v.model(),
        final(f).model().stack == old(f).model().stack,
        final(f).model().scope == old(f).model().scope,
{
    f.retval = v;
    proof {
        assert(final(f).model().stack =~= old(f).model().stack);
    }
}

} // verus!
