//! Calls of functions whose results rest on chance, on the clock or on the
//! machine. Of such a result a contract can say only which function gave it,
//! and for which arguments.

use vstd::prelude::*;

verus! {

pub(crate) fn ask<A, F: Fn() -> A>(f: F) -> (a: A)
    requires
        f.requires(()),
    ensures
        f.ensures((), a),
{
    f()
}

pub(crate) fn ask_of<A, B, F: Fn(A) -> B>(f: F, a: A) -> (b: B)
    requires
        f.requires((a,)),
    ensures
        f.ensures((a,), b),
{
    f(a)
}

pub(crate) fn ask_of_both<A, B, C, F: Fn(A, B) -> C>(f: F, a: A, b: B) -> (c: C)
    requires
        f.requires((a, b)),
    ensures
        f.ensures((a, b), c),
{
    f(a, b)
}

} // verus!
