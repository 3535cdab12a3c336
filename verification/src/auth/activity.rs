//! The submitted keys recorded for activity logs: allowlisted names only,
//! each once, never values.
use vstd::prelude::*;

use crate::text::same_text;

verus! {

pub open spec fn str_views(v: Seq<&'static str>) -> Seq<Seq<char>> {
    v.map_values(|s: &'static str| s@)
}

/// Record a key the request carried: an allowlisted name is kept once, in
/// the order first seen; anything else is dropped.
pub fn record(fields: &mut Vec<&'static str>, allowed: &[&'static str], key: &str)
    ensures
        if str_views(allowed@).contains(key@) && !str_views(old(fields)@).contains(key@) {
            str_views(final(fields)@) == str_views(old(fields)@).push(key@)
        } else {
            final(fields)@ == old(fields)@
        },
{
    let mut found: Option<&'static str> = None;
    let mut i: usize = 0;
    while i < allowed.len() && found.is_none()
        invariant
            i <= allowed@.len(),
            found matches Some(f) ==> f@ == key@ && str_views(allowed@).contains(key@),
            found is None ==> forall|j: int| 0 <= j < i ==> allowed@[j]@ != key@,
        decreases allowed@.len() - i,
    {
        if same_text(allowed[i], key) {
            assert(str_views(allowed@)[i as int] == key@);
            found = Some(allowed[i]);
        }
        i = i + 1;
    }
    proof {
        if found is None && str_views(allowed@).contains(key@) {
            let k = choose|k: int| 0 <= k < allowed@.len() && str_views(allowed@)[k] == key@;
            assert(allowed@[k]@ == key@);
        }
    }
    if let Some(field) = found {
        let mut seen = false;
        let mut j: usize = 0;
        while j < fields.len() && !seen
            invariant
                j <= fields@.len(),
                seen ==> str_views(fields@).contains(key@),
                !seen ==> forall|q: int| 0 <= q < j ==> fields@[q]@ != key@,
            decreases fields@.len() - j,
        {
            if same_text(fields[j], key) {
                assert(str_views(fields@)[j as int] == key@);
                seen = true;
            }
            j = j + 1;
        }
        proof {
            if !seen && str_views(fields@).contains(key@) {
                let k = choose|k: int| 0 <= k < fields@.len() && str_views(fields@)[k] == key@;
                assert(fields@[k]@ == key@);
            }
        }
        if !seen {
            let ghost before = fields@;
            fields.push(field);
            assert(str_views(fields@) == str_views(before).push(key@));
        }
    }
}

} // verus!
