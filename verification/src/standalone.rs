//! Choosing the MIDI input ports that a standalone plugin connects to.
use vstd::prelude::*;

verus! {

/// One of `names` is `name`.
pub open spec fn names_contain(names: Seq<String>, name: Seq<char>) -> bool {
    exists|i: int| 0 <= i < names.len() && (#[trigger] names[i])@ == name
}

/// A MIDI input port is connected when no port names are configured, or when its name is
/// one of the configured names.
pub fn port_selected(port_names: &Option<Vec<String>>, port_name: &String) -> (r: bool)
    ensures
        r == match port_names {
            None => true,
            Some(names) => names_contain(names@, port_name@),
        },
{
    if port_names.is_none() {
        return true;
    }
    let names = port_names.as_ref().unwrap();
    let mut i: usize = 0;
    while i < names.len()
        invariant
            i <= names@.len(),
            *port_names == Some(*names),
            forall|j: int| 0 <= j < i ==> (#[trigger] names@[j])@ != port_name@,
        decreases names@.len() - i,
    {
        if names[i] == *port_name {
            assert(names@[i as int]@ == port_name@);
            return true;
        }
        i = i + 1;
    }
    false
}

} // verus!
