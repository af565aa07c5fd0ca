//! What the inspector shows for an asset handle.

use vstd::prelude::*;

verus! {

/// What the inspector shows for a handle no option names.
pub const UNNAMED: &'static str = "—";

/// The name of the first option whose handle is `handle`.
pub open spec fn option_name(options: Seq<(String, u32)>, handle: Option<u32>) -> Option<String> {
    match handle {
        Some(h) => if exists|i: int| 0 <= i < options.len() && #[trigger] options[i].1 == h {
            let i = choose|i: int|
                0 <= i < options.len() && #[trigger] options[i].1 == h && forall|j: int|
                    0 <= j < i ==> options[j].1 != h;
            Some(options[i].0)
        } else {
            None
        },
        None => None,
    }
}

/// The name the inspector shows for `handle` among `options`, or `UNNAMED`.
pub fn name_of(options: &[(String, u32)], handle: Option<u32>) -> (r: String)
    ensures
        match option_name(options@, handle) {
            Some(name) => r == name,
            None => r@ == UNNAMED@,
        },
{
    if let Some(h) = handle {
        let mut i: usize = 0;
        while i < options.len()
            invariant
                handle == Some(h),
                i <= options@.len(),
                forall|j: int| 0 <= j < i ==> (#[trigger] options@[j]).1 != h,
            decreases options@.len() - i,
        {
            if options[i].1 == h {
                proof {
                    assert(options@[i as int].1 == h);
                    assert(0 <= i < options@.len() && options@[i as int].1 == h && forall|j: int|
                        0 <= j < i ==> options@[j].1 != h);
                    let q = choose|q: int|
                        0 <= q < options@.len() && #[trigger] options@[q].1 == h && forall|j: int|
                            0 <= j < q ==> options@[j].1 != h;
                    if q < i {
                        assert(options@[q].1 != h);
                    }
                    if q > i {
                        assert(options@[i as int].1 == h);
                    }
                    assert(q == i);
                }
                return options[i].0.clone();
            }
            i += 1;
        }
    }
    String::from_str(UNNAMED)
}

} // verus!
