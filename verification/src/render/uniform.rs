use vstd::prelude::*;
use vstd::std_specs::cmp::PartialEqSpec;

verus! {

/// Whether two arrays hold equal values at every position.
pub fn arr_eq<T: PartialEq, const N: usize>(arr1: [T; N], arr2: [T; N]) -> (r: bool)
    ensures
        T::obeys_eq_spec() ==> (r <==> forall|i: int| 0 <= i < N ==> #[trigger] arr1@[i].eq_spec(
            &arr2@[i],
        )),
{
    let mut i: usize = 0;
    while i < N
        invariant
            i <= N,
            T::obeys_eq_spec() ==> forall|j: int| 0 <= j < i ==> #[trigger] arr1@[j].eq_spec(
                &arr2@[j],
            ),
        decreases N - i,
    {
        if !(arr1[i] == arr2[i]) {
            return false;
        }
        i = i + 1;
    }
    true
}

} // verus!
