//! Naming of save slot files.

use vstd::prelude::*;

use crate::strings::{chars_of, contains_chars, contains_seq, push_str};

verus! {

/// Current save format version.
pub const SAVE_FORMAT_VERSION: u32 = 1;

/// The file holding a slot: `SLOT.velsave.json`.
pub open spec fn slot_file(slot: Seq<char>) -> Seq<char> {
    slot + ".velsave.json"@
}

/// File name of a save slot.
pub fn slot_file_name(slot: &str) -> (s: String)
    ensures
        s@ == slot_file(slot@),
{
    let mut s = String::new();
    push_str(&mut s, slot);
    push_str(&mut s, ".velsave.json");
    s
}

/// `s` ends with `t`.
pub open spec fn ends_with(s: Seq<char>, t: Seq<char>) -> bool {
    t.len() <= s.len() && s.skip(s.len() - t.len()) == t
}

/// A directory entry listed as a save: its name holds `.velsave` and it is
/// not a `.tmp` file being written.
pub open spec fn is_save_listing(name: Seq<char>) -> bool {
    contains_seq(name, ".velsave"@) && !ends_with(name, ".tmp"@)
}

/// Whether a directory entry name is listed as a save.
pub fn is_save_file_name(name: &str) -> (b: bool)
    ensures
        b == is_save_listing(name@),
{
    let n = chars_of(name);
    let pat = chars_of(".velsave");
    let tmp = chars_of(".tmp");
    if !contains_chars(n.as_slice(), pat.as_slice()) {
        return false;
    }
    if tmp.len() > n.len() {
        return true;
    }
    let start = n.len() - tmp.len();
    assert(contains_seq(name@, ".velsave"@));
    let mut k: usize = 0;
    while k < tmp.len()
        invariant
            start + tmp@.len() == n@.len(),
            n@.len() <= usize::MAX,
            n@ == name@,
            tmp@ == ".tmp"@,
            contains_seq(name@, ".velsave"@),
            0 <= k <= tmp@.len(),
            forall|j: int| 0 <= j < k ==> n@[start + j] == tmp@[j],
        decreases tmp@.len() - k,
    {
        if n[start + k] != tmp[k] {
            assert(n@.skip(start as int)[k as int] != tmp@[k as int]);
            return true;
        }
        k += 1;
    }
    assert(n@.skip(start as int) =~= tmp@);
    false
}

} // verus!
