//! Questions about paths that the file operations ask.

use vstd::prelude::*;
use vstd::string::*;
use crate::path_utils::{components, path_components, DOT};

verus! {

/// The bytes of the name `.git`.
pub open spec fn git_dir_name() -> Seq<u8> {
    seq![DOT, 103u8, 105u8, 116u8]
}

/// Whether one of the components of the path is `.git`.
pub open spec fn in_git_dir(path: Seq<u8>) -> bool {
    path_components(path).contains(git_dir_name())
}

/// Checks if a given path is inside a `.git` directory: one of its
/// components is `.git` (so `.gitignore` is not).
pub fn is_in_git_dir(path: &str) -> (r: bool)
    ensures
        r == in_git_dir(path.spec_bytes()),
{
    let cs = components(path);
    let ghost p = path_components(path.spec_bytes());
    assert(p.len() == cs@.len());
    let mut k: usize = 0;
    while k < cs.len()
        invariant
            p == path_components(path.spec_bytes()),
            cs@.map_values(|c: &str| c.spec_bytes()) == p,
            k <= cs@.len(),
            forall|t: int| 0 <= t < k ==> p[t] != git_dir_name(),
        decreases cs@.len() - k,
    {
        let b = cs[k].as_bytes();
        assert(b@ == p[k as int]);
        if b.len() == 4 && b[0] == DOT && b[1] == 103u8 && b[2] == 105u8 && b[3] == 116u8 {
            assert(b@ =~= git_dir_name());
            return true;
        }
        assert(b@ != git_dir_name()) by {
            if b@ == git_dir_name() {
                assert(b@.len() == 4);
                assert(b@[0] == git_dir_name()[0]);
                assert(b@[1] == git_dir_name()[1]);
                assert(b@[2] == git_dir_name()[2]);
                assert(b@[3] == git_dir_name()[3]);
            }
        }
        k = k + 1;
    }
    false
}

} // verus!
