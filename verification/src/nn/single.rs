//! Closures that are functions: equal arguments give equal results.
use vstd::prelude::*;

verus! {

/// A closure of one argument gives one result for each.
pub open spec fn single_valued1<X, Y, F: Fn(X) -> Y>(f: F) -> bool {
    forall|x: X, y: Y, z: Y|
        #[trigger] call_ensures(f, (x,), y) && #[trigger] call_ensures(f, (x,), z) ==> y == z
}

/// A closure of two arguments gives one result for each pair.
pub open spec fn single_valued2<X, W, Y, F: Fn(X, W) -> Y>(f: F) -> bool {
    forall|x: X, w: W, y: Y, z: Y|
        #[trigger] call_ensures(f, (x, w), y) && #[trigger] call_ensures(f, (x, w), z) ==> y == z
}

/// A closure of three arguments gives one result for each triple.
pub open spec fn single_valued3<X, W, V, Y, F: Fn(X, W, V) -> Y>(f: F) -> bool {
    forall|x: X, w: W, v: V, y: Y, z: Y|
        #[trigger] call_ensures(f, (x, w, v), y) && #[trigger] call_ensures(f, (x, w, v), z) ==> y
            == z
}

} // verus!
