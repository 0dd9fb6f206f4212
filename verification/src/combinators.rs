use vstd::prelude::*;
use crate::error::ErrorV;
use crate::primitives::spec_literal;
use crate::reader::ReaderState;

verus! {

/// The outcome of a parser: its result and the state it leaves.
pub type Outcome<T> = (Result<T, ErrorV>, ReaderState);

/// An ordered choice: the second alternative is tried only when the first
/// fails recoverably (from the same starting state).
pub open spec fn or_else<T>(a: Outcome<T>, b: Outcome<T>) -> Outcome<T> {
    match a.0 {
        Err(e) => if e.recoverable {
            b
        } else {
            a
        },
        Ok(_) => a,
    }
}

/// The keyword `s`, giving `v`; recoverable when absent.
pub open spec fn keyword<T>(text: Seq<char>, st: ReaderState, s: Seq<char>, v: T) -> Outcome<T> {
    let (r, st1) = spec_literal(text, st, s, true);
    match r {
        Ok(_) => (Ok(v), st1),
        Err(e) => (Err(e), st1),
    }
}

} // verus!
