use vstd::prelude::*;

verus! {

/// Pairs each helper command with whether the caller found it on the
/// general search path, in the given order.  The original kept these in
/// an ordered map; an ordered list of pairs carries the same information
/// as plain values.
pub fn scan_tools(tools: &Vec<String>, available: &Vec<bool>) -> (r: Vec<(String, bool)>)
    requires
        tools@.len() == available@.len(),
    ensures
        r@.len() == tools@.len(),
        forall|i: int|
            0 <= i < r@.len() ==> (#[trigger] r@[i]).0@ == tools@[i]@ && r@[i].1 == available@[i],
{
    let mut out: Vec<(String, bool)> = Vec::new();
    let mut i: usize = 0;
    while i < tools.len()
        invariant
            i <= tools@.len(),
            tools@.len() == available@.len(),
            out@.len() == i,
            forall|j: int|
                0 <= j < i ==> (#[trigger] out@[j]).0@ == tools@[j]@ && out@[j].1 == available@[j],
        decreases tools@.len() - i,
    {
        out.push((tools[i].clone(), available[i]));
        i = i + 1;
    }
    out
}

} // verus!
