//! Choosing a microphone.

use crate::text::same;
use vstd::prelude::*;

verus! {

/// The device has the wanted name.
pub open spec fn is_named(d: Option<String>, wanted: Seq<char>) -> bool {
    match d {
        Some(n) => n@ == wanted,
        None => false,
    }
}

/// The first device with the wanted name, given the names of all devices, as far
/// as they could be read. `None`: the default device is taken.
pub fn choose_device(names: &Vec<Option<String>>, wanted: &Option<String>) -> (r: Option<usize>)
    ensures
        match r {
            Some(i) => {
                &&& wanted is Some
                &&& i < names@.len()
                &&& is_named(names@[i as int], wanted->0@)
                &&& forall|k: int| 0 <= k < i ==> !is_named(#[trigger] names@[k], wanted->0@)
            },
            None => wanted is None || forall|k: int|
                0 <= k < names@.len() ==> !is_named(#[trigger] names@[k], wanted->0@),
        },
        r matches Some(i) ==> names@[i as int] is Some && names@[i as int]->0@ == wanted->0@,
        forall|k: int|
            0 <= k < names@.len() && (#[trigger] names@[k]) is Some && wanted is Some
                && names@[k]->0@ == wanted->0@ ==> r is Some && r->0 <= k,
{
    let w = match wanted {
        Some(w) => w,
        None => return None,
    };
    let mut i: usize = 0;
    while i < names.len()
        invariant
            i <= names@.len(),
            *wanted == Some(*w),
            forall|k: int| 0 <= k < i ==> !is_named(#[trigger] names@[k], w@),
        decreases names@.len() - i,
    {
        if let Some(n) = &names[i] {
            if same(n, w) {
                return Some(i);
            }
        }
        i += 1;
    }
    None
}

} // verus!
