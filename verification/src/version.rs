//! The protocol versions that a decoder accepts.

use vstd::prelude::*;
use crate::error::Error;

verus! {

/// The protocol versions that a table may have been generated for.
pub const DEFMT_VERSIONS: [&'static str; 2] = ["3", "4"];

/// Whether `version` is one of the supported protocol versions.
pub open spec fn supported_version(version: Seq<char>) -> bool {
    exists|i: int| 0 <= i < DEFMT_VERSIONS@.len() && DEFMT_VERSIONS@[i]@ == version
}

/// The supported versions are `3` and `4`, and no other.
pub proof fn lemma_supported_versions(version: Seq<char>)
    ensures
        supported_version(version) <==> (version == "3"@ || version == "4"@),
{
    assert(DEFMT_VERSIONS@.len() == 2);
    assert(DEFMT_VERSIONS@[0]@ == "3"@);
    assert(DEFMT_VERSIONS@[1]@ == "4"@);
}

/// Accepts a supported protocol version and refuses any other as `UnsupportedVersion`.
pub fn check_version(version: &str) -> (checked: Result<(), Error>)
    ensures
        checked == if supported_version(version@) {
            Ok::<(), Error>(())
        } else {
            Err::<(), Error>(Error::UnsupportedVersion)
        },
{
    let mut i: usize = 0;
    while i < 2
        invariant
            i <= 2,
            forall|k: int| 0 <= k < i ==> DEFMT_VERSIONS@[k]@ != version@,
        decreases 2 - i,
    {
        if crate::encoding::same_text(DEFMT_VERSIONS[i], version) {
            return Ok(());
        }
        i = i + 1;
    }
    Err(Error::UnsupportedVersion)
}

} // verus!
