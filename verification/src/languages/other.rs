//! The catch-all bucket for files no registered language owns. Beside
//! matching everything, it records the distinct extensions of the files
//! that fall into it.

use vstd::prelude::*;
use crate::language_utils::{spec_extension, extension_of};

verus! {

/// The catch-all language bucket.
pub struct Other {
    pub file_endings: Vec<String>,
}

/// Is the extension `e` already recorded in `s`?
pub open spec fn contains_ending(s: Seq<String>, e: Seq<char>) -> bool {
    exists|i: int| 0 <= i < s.len() && (#[trigger] s[i])@ == e
}

impl Other {
    /// A fresh bucket with no extensions recorded yet.
    pub fn new() -> (r: Box<Self>)
        ensures
            r.file_endings@.len() == 0,
    {
        Box::new(Self { file_endings: Vec::new() })
    }

    /// The aggregation key of this bucket.
    pub fn name(&self) -> (r: &'static str)
        ensures
            r@ == "Other"@,
    {
        "Other"
    }

    /// The catch-all owns every filename.
    pub fn matches_filename(&self, _filename: &str) -> (r: bool)
        ensures
            r,
    {
        true
    }

    /// Record the filename's extension, once: a file with no extension
    /// records nothing, and one whose extension is already listed
    /// changes nothing.
    pub fn filename_callback(&mut self, filename: &str)
        ensures
            spec_extension(filename@) is None ==> final(self).file_endings@ == old(
                self,
            ).file_endings@,
            spec_extension(filename@) matches Some(e) ==> {
                if contains_ending(old(self).file_endings@, e) {
                    final(self).file_endings@ == old(self).file_endings@
                } else {
                    &&& final(self).file_endings@.len() == old(self).file_endings@.len() + 1
                    &&& final(self).file_endings@.drop_last() =~= old(self).file_endings@
                    &&& final(self).file_endings@.last()@ == e
                }
            },
    {
        if let Some(ext) = extension_of(filename) {
            let mut i: usize = 0;
            while i < self.file_endings.len()
                invariant
                    *self == *old(self),
                    spec_extension(filename@) == Some(ext@),
                    i <= self.file_endings@.len(),
                    forall|j: int| 0 <= j < i ==> (#[trigger] self.file_endings@[j])@ != ext@,
                decreases self.file_endings@.len() - i,
            {
                if self.file_endings[i] == ext {
                    proof {
                        assert(contains_ending(self.file_endings@, ext@));
                    }
                    return ;
                }
                i += 1;
            }
            proof {
                assert(!contains_ending(self.file_endings@, ext@));
            }
            self.file_endings.push(ext);
            proof {
                assert(self.file_endings@.drop_last() =~= old(self).file_endings@);
            }
        }
    }
}

} // verus!
