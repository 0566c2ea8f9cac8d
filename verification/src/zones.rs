use vstd::prelude::*;

use crate::text::same_chars;

verus! {

/// Fixed-offset abbreviations, in minutes east of UTC. The list is short and
/// hand-picked, not the IANA database: zones with daylight saving by date
/// need a rules engine, which a string formatter does not have.
///
/// Several abbreviations are ambiguous: CST (US Central -6:00 or China
/// +8:00), AST (Atlantic -4:00 or Arabia +3:00) and BST (British Summer Time
/// +1:00 or Bangladesh +6:00). The US/European reading is taken in each case,
/// as the rest of the list leans that way.
///
/// Names are upper case; the first entry whose name equals `name` decides.
pub open spec fn named_zone(name: Seq<char>) -> Option<int> {
    if name == seq!['U', 'T', 'C'] {
        Some(0int)
    } else if name == seq!['G', 'M', 'T'] {
        Some(0int)
    } else if name == seq!['Z'] {
        Some(0int)
    } else if name == seq!['E', 'S', 'T'] {
        Some((-5 * 60) as int)
    } else if name == seq!['E', 'D', 'T'] {
        Some((-4 * 60) as int)
    } else if name == seq!['C', 'S', 'T'] {
        Some((-6 * 60) as int)
    } else if name == seq!['C', 'D', 'T'] {
        Some((-5 * 60) as int)
    } else if name == seq!['M', 'S', 'T'] {
        Some((-7 * 60) as int)
    } else if name == seq!['M', 'D', 'T'] {
        Some((-6 * 60) as int)
    } else if name == seq!['P', 'S', 'T'] {
        Some((-8 * 60) as int)
    } else if name == seq!['P', 'D', 'T'] {
        Some((-7 * 60) as int)
    } else if name == seq!['I', 'S', 'T'] {
        Some((5 * 60 + 30) as int)
    } else if name == seq!['J', 'S', 'T'] {
        Some((9 * 60) as int)
    } else if name == seq!['C', 'E', 'T'] {
        Some((1 * 60) as int)
    } else if name == seq!['C', 'E', 'S', 'T'] {
        Some((2 * 60) as int)
    } else if name == seq!['W', 'E', 'T'] {
        Some(0int)
    } else if name == seq!['W', 'E', 'S', 'T'] {
        Some((1 * 60) as int)
    } else if name == seq!['E', 'E', 'T'] {
        Some((2 * 60) as int)
    } else if name == seq!['E', 'E', 'S', 'T'] {
        Some((3 * 60) as int)
    } else if name == seq!['M', 'S', 'K'] {
        Some((3 * 60) as int)
    } else if name == seq!['B', 'S', 'T'] {
        Some((1 * 60) as int)
    } else if name == seq!['A', 'S', 'T'] {
        Some((-4 * 60) as int)
    } else if name == seq!['A', 'D', 'T'] {
        Some((-3 * 60) as int)
    } else if name == seq!['H', 'S', 'T'] {
        Some((-10 * 60) as int)
    } else if name == seq!['A', 'K', 'S', 'T'] {
        Some((-9 * 60) as int)
    } else if name == seq!['A', 'K', 'D', 'T'] {
        Some((-8 * 60) as int)
    } else if name == seq!['S', 'G', 'T'] {
        Some((8 * 60) as int)
    } else if name == seq!['H', 'K', 'T'] {
        Some((8 * 60) as int)
    } else if name == seq!['K', 'S', 'T'] {
        Some((9 * 60) as int)
    } else if name == seq!['A', 'E', 'S', 'T'] {
        Some((10 * 60) as int)
    } else if name == seq!['A', 'E', 'D', 'T'] {
        Some((11 * 60) as int)
    } else if name == seq!['A', 'C', 'S', 'T'] {
        Some((9 * 60 + 30) as int)
    } else if name == seq!['A', 'C', 'D', 'T'] {
        Some((10 * 60 + 30) as int)
    } else if name == seq!['A', 'W', 'S', 'T'] {
        Some((8 * 60) as int)
    } else if name == seq!['N', 'Z', 'S', 'T'] {
        Some((12 * 60) as int)
    } else if name == seq!['N', 'Z', 'D', 'T'] {
        Some((13 * 60) as int)
    } else {
        None
    }
}

/// Looks `name` up in the table of abbreviations (see `named_zone`).
pub fn lookup_zone(name: &[char]) -> (r: Option<i16>)
    ensures
        r matches Some(m) ==> named_zone(name@) == Some(m as int),
        r is None ==> named_zone(name@) is None,
{
    let w = ['U', 'T', 'C'];
    assert(w@ == seq!['U', 'T', 'C']);
    if same_chars(name, w.as_slice()) {
        return Some(0);
    }
    let w = ['G', 'M', 'T'];
    assert(w@ == seq!['G', 'M', 'T']);
    if same_chars(name, w.as_slice()) {
        return Some(0);
    }
    let w = ['Z'];
    assert(w@ == seq!['Z']);
    if same_chars(name, w.as_slice()) {
        return Some(0);
    }
    let w = ['E', 'S', 'T'];
    assert(w@ == seq!['E', 'S', 'T']);
    if same_chars(name, w.as_slice()) {
        return Some(-5 * 60);
    }
    let w = ['E', 'D', 'T'];
    assert(w@ == seq!['E', 'D', 'T']);
    if same_chars(name, w.as_slice()) {
        return Some(-4 * 60);
    }
    let w = ['C', 'S', 'T'];
    assert(w@ == seq!['C', 'S', 'T']);
    if same_chars(name, w.as_slice()) {
        return Some(-6 * 60);
    }
    let w = ['C', 'D', 'T'];
    assert(w@ == seq!['C', 'D', 'T']);
    if same_chars(name, w.as_slice()) {
        return Some(-5 * 60);
    }
    let w = ['M', 'S', 'T'];
    assert(w@ == seq!['M', 'S', 'T']);
    if same_chars(name, w.as_slice()) {
        return Some(-7 * 60);
    }
    let w = ['M', 'D', 'T'];
    assert(w@ == seq!['M', 'D', 'T']);
    if same_chars(name, w.as_slice()) {
        return Some(-6 * 60);
    }
    let w = ['P', 'S', 'T'];
    assert(w@ == seq!['P', 'S', 'T']);
    if same_chars(name, w.as_slice()) {
        return Some(-8 * 60);
    }
    let w = ['P', 'D', 'T'];
    assert(w@ == seq!['P', 'D', 'T']);
    if same_chars(name, w.as_slice()) {
        return Some(-7 * 60);
    }
    let w = ['I', 'S', 'T'];
    assert(w@ == seq!['I', 'S', 'T']);
    if same_chars(name, w.as_slice()) {
        return Some(5 * 60 + 30);
    }
    let w = ['J', 'S', 'T'];
    assert(w@ == seq!['J', 'S', 'T']);
    if same_chars(name, w.as_slice()) {
        return Some(9 * 60);
    }
    let w = ['C', 'E', 'T'];
    assert(w@ == seq!['C', 'E', 'T']);
    if same_chars(name, w.as_slice()) {
        return Some(1 * 60);
    }
    let w = ['C', 'E', 'S', 'T'];
    assert(w@ == seq!['C', 'E', 'S', 'T']);
    if same_chars(name, w.as_slice()) {
        return Some(2 * 60);
    }
    let w = ['W', 'E', 'T'];
    assert(w@ == seq!['W', 'E', 'T']);
    if same_chars(name, w.as_slice()) {
        return Some(0);
    }
    let w = ['W', 'E', 'S', 'T'];
    assert(w@ == seq!['W', 'E', 'S', 'T']);
    if same_chars(name, w.as_slice()) {
        return Some(1 * 60);
    }
    let w = ['E', 'E', 'T'];
    assert(w@ == seq!['E', 'E', 'T']);
    if same_chars(name, w.as_slice()) {
        return Some(2 * 60);
    }
    let w = ['E', 'E', 'S', 'T'];
    assert(w@ == seq!['E', 'E', 'S', 'T']);
    if same_chars(name, w.as_slice()) {
        return Some(3 * 60);
    }
    let w = ['M', 'S', 'K'];
    assert(w@ == seq!['M', 'S', 'K']);
    if same_chars(name, w.as_slice()) {
        return Some(3 * 60);
    }
    let w = ['B', 'S', 'T'];
    assert(w@ == seq!['B', 'S', 'T']);
    if same_chars(name, w.as_slice()) {
        return Some(1 * 60);
    }
    let w = ['A', 'S', 'T'];
    assert(w@ == seq!['A', 'S', 'T']);
    if same_chars(name, w.as_slice()) {
        return Some(-4 * 60);
    }
    let w = ['A', 'D', 'T'];
    assert(w@ == seq!['A', 'D', 'T']);
    if same_chars(name, w.as_slice()) {
        return Some(-3 * 60);
    }
    let w = ['H', 'S', 'T'];
    assert(w@ == seq!['H', 'S', 'T']);
    if same_chars(name, w.as_slice()) {
        return Some(-10 * 60);
    }
    let w = ['A', 'K', 'S', 'T'];
    assert(w@ == seq!['A', 'K', 'S', 'T']);
    if same_chars(name, w.as_slice()) {
        return Some(-9 * 60);
    }
    let w = ['A', 'K', 'D', 'T'];
    assert(w@ == seq!['A', 'K', 'D', 'T']);
    if same_chars(name, w.as_slice()) {
        return Some(-8 * 60);
    }
    let w = ['S', 'G', 'T'];
    assert(w@ == seq!['S', 'G', 'T']);
    if same_chars(name, w.as_slice()) {
        return Some(8 * 60);
    }
    let w = ['H', 'K', 'T'];
    assert(w@ == seq!['H', 'K', 'T']);
    if same_chars(name, w.as_slice()) {
        return Some(8 * 60);
    }
    let w = ['K', 'S', 'T'];
    assert(w@ == seq!['K', 'S', 'T']);
    if same_chars(name, w.as_slice()) {
        return Some(9 * 60);
    }
    let w = ['A', 'E', 'S', 'T'];
    assert(w@ == seq!['A', 'E', 'S', 'T']);
    if same_chars(name, w.as_slice()) {
        return Some(10 * 60);
    }
    let w = ['A', 'E', 'D', 'T'];
    assert(w@ == seq!['A', 'E', 'D', 'T']);
    if same_chars(name, w.as_slice()) {
        return Some(11 * 60);
    }
    let w = ['A', 'C', 'S', 'T'];
    assert(w@ == seq!['A', 'C', 'S', 'T']);
    if same_chars(name, w.as_slice()) {
        return Some(9 * 60 + 30);
    }
    let w = ['A', 'C', 'D', 'T'];
    assert(w@ == seq!['A', 'C', 'D', 'T']);
    if same_chars(name, w.as_slice()) {
        return Some(10 * 60 + 30);
    }
    let w = ['A', 'W', 'S', 'T'];
    assert(w@ == seq!['A', 'W', 'S', 'T']);
    if same_chars(name, w.as_slice()) {
        return Some(8 * 60);
    }
    let w = ['N', 'Z', 'S', 'T'];
    assert(w@ == seq!['N', 'Z', 'S', 'T']);
    if same_chars(name, w.as_slice()) {
        return Some(12 * 60);
    }
    let w = ['N', 'Z', 'D', 'T'];
    assert(w@ == seq!['N', 'Z', 'D', 'T']);
    if same_chars(name, w.as_slice()) {
        return Some(13 * 60);
    }
    None
}

} // verus!
