//! Which sound device a watch opens.
//!
//! The devices are listed by the host; here they are their names, in the
//! host's order, and a choice is a position in that list.

use vstd::prelude::*;

use crate::text::same_text;
use crate::transmit::texts;

verus! {

/// Whether `index` is the first position in `names` holding `name`.
pub open spec fn first_named(names: Seq<Seq<char>>, name: Seq<char>, index: int) -> bool {
    &&& 0 <= index < names.len()
    &&& names[index] == name
    &&& forall|j: int| 0 <= j < index ==> names[j] != name
}

/// Whether some position in `names` holds `name`.
pub open spec fn named(names: Seq<Seq<char>>, name: Seq<char>) -> bool {
    exists|i: int| 0 <= i < names.len() && names[i] == name
}

/// The first device called `name`, if one is listed.
pub fn position_of(names: &[String], name: &str) -> (found: Option<usize>)
    ensures
        found matches Some(i) ==> first_named(texts(names@), name@, i as int),
        found is None <==> !named(texts(names@), name@),
{
    let mut index: usize = 0;
    while index < names.len()
        invariant
            index <= names@.len(),
            forall|j: int| 0 <= j < index ==> #[trigger] names@[j]@ != name@,
        decreases names@.len() - index,
    {
        if same_text(names[index].as_str(), name) {
            proof {
                assert(texts(names@)[index as int] == name@);
            }
            return Some(index);
        }
        index += 1;
    }
    proof {
        if named(texts(names@), name@) {
            let i = choose|i: int| 0 <= i < texts(names@).len() && texts(names@)[i] == name@;
            assert(names@[i]@ == name@);
        }
    }
    None
}

/// The device a watch opens: the one the operator chose last time, by name,
/// when it is still listed; otherwise the host's default, when it is listed;
/// otherwise the first listed; otherwise none.
pub open spec fn chosen_device(
    names: Seq<Seq<char>>,
    preferred: Option<Seq<char>>,
    default: Option<int>,
    chosen: Option<int>,
) -> bool {
    let by_name = match preferred {
        Some(name) => named(names, name),
        None => false,
    };
    let by_default = match default {
        Some(d) => 0 <= d < names.len(),
        None => false,
    };
    if by_name {
        chosen matches Some(i) && first_named(names, preferred->0, i)
    } else if by_default {
        chosen == default
    } else if names.len() > 0 {
        chosen == Some(0int)
    } else {
        chosen is None
    }
}

/// Chooses the device a watch opens, `default` being the position of the
/// host's default device in the list, if it is listed.
pub fn choose_device(names: &[String], preferred: Option<&str>, default: Option<usize>) -> (chosen:
    Option<usize>)
    ensures
        chosen_device(
            texts(names@),
            match preferred {
                Some(name) => Some(name@),
                None => None,
            },
            match default {
                Some(d) => Some(d as int),
                None => None,
            },
            match chosen {
                Some(i) => Some(i as int),
                None => None,
            },
        ),
{
    if let Some(name) = preferred {
        if let Some(index) = position_of(names, name) {
            return Some(index);
        }
    }
    if let Some(index) = default {
        if index < names.len() {
            return Some(index);
        }
    }
    if names.len() > 0 {
        return Some(0);
    }
    None
}

/// A choice is always a listed device, and there is one whenever any device
/// is listed; a device the operator chose before is chosen again while it is
/// listed; otherwise a listed default is kept.
pub proof fn lemma_a_listed_device_is_chosen(
    names: Seq<Seq<char>>,
    preferred: Option<Seq<char>>,
    default: Option<int>,
    chosen: Option<int>,
)
    requires
        chosen_device(names, preferred, default, chosen),
    ensures
        chosen is Some <==> names.len() > 0,
        chosen matches Some(i) ==> 0 <= i < names.len(),
        (preferred matches Some(name) && exists|k: int| 0 <= k < names.len() && names[k] == name) ==> names[chosen->0]
            == preferred->0,
        (default matches Some(d) && 0 <= d < names.len() && !(preferred matches Some(name) && exists|k: int|
            0 <= k < names.len() && names[k] == name)) ==> chosen == default,
{
}

} // verus!
