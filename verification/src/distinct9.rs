//! Whether nine numbers are all different.

use vstd::prelude::*;

verus! {

/// No two of the nine numbers are equal.
pub open spec fn all_distinct(arr: [i32; 9]) -> bool {
    forall|i: int, j: int| 0 <= i < j < 9 ==> arr[i] != arr[j]
}

/// Compares each of the nine numbers with each of those after it.
pub fn distinct9_naive(arr: &[i32; 9]) -> (distinct: bool)
    ensures
        distinct == all_distinct(*arr),
{
    let a = arr[0];
    let b = arr[1];
    let c = arr[2];
    let d = arr[3];
    let e = arr[4];
    let f = arr[5];
    let g = arr[6];
    let h = arr[7];
    let i = arr[8];
    let f1 = (a != b) && (a != c) && (a != d) && (a != e) && (a != f) && (a != g) && (a != h)
        && (a != i);
    let f2 = (b != c) && (b != d) && (b != e) && (b != f) && (b != g) && (b != h) && (b != i);
    let f3 = (c != d) && (c != e) && (c != f) && (c != g) && (c != h) && (c != i);
    let f4 = (d != e) && (d != f) && (d != g) && (d != h) && (d != i);
    let f5 = (e != f) && (e != g) && (e != h) && (e != i);
    let f6 = (f != g) && (f != h) && (f != i);
    let f7 = (g != h) && (g != i);
    let f8 = h != i;
    f1 && f2 && f3 && f4 && f5 && f6 && f7 && f8
}

} // verus!
