//! The wire transform chosen for a table, and what it promises the decoder.

use vstd::prelude::*;
use crate::error::Error;

verus! {

/// How frames are put on the wire.
#[derive(Copy, Clone, Debug, Eq, PartialEq, Structural)]
#[non_exhaustive]
pub enum Encoding {
    /// No transform. The transport has to keep the frame boundaries.
    Raw,
    /// Zero-free byte stuffing; every frame ends in a zero byte.
    Rzcobs,
}

/// Whether two strings hold the same characters.
pub(crate) fn same_text(a: &str, b: &str) -> (same: bool)
    ensures
        same == (a@ == b@),
{
    let n = a.unicode_len();
    if n != b.unicode_len() {
        return false;
    }
    let mut i: usize = 0;
    while i < n
        invariant
            n == a@.len(),
            n == b@.len(),
            i <= n,
            forall|k: int| 0 <= k < i ==> a@[k] == b@[k],
        decreases n - i,
    {
        if a.get_char(i) != b.get_char(i) {
            return false;
        }
        i = i + 1;
    }
    assert(a@ =~= b@);
    true
}

impl Encoding {
    /// The encoding that a configuration string names, if it names one.
    pub open spec fn named(s: Seq<char>) -> Option<Encoding> {
        if s == "raw"@ {
            Some(Encoding::Raw)
        } else if s == "rzcobs"@ {
            Some(Encoding::Rzcobs)
        } else {
            None
        }
    }

    /// Whether a decoder can find the next frame again after bytes were lost or damaged.
    pub open spec fn recovers(self) -> bool {
        self is Rzcobs
    }

    /// Parses `raw` or `rzcobs`; any other string is refused as `UnknownEncoding`.
    pub fn from_str(s: &str) -> (parsed: Result<Encoding, Error>)
        ensures
            parsed == match Encoding::named(s@) {
                Some(encoding) => Ok::<Encoding, Error>(encoding),
                None => Err(Error::UnknownEncoding),
            },
    {
        if same_text(s, "raw") {
            Ok(Encoding::Raw)
        } else if same_text(s, "rzcobs") {
            Ok(Encoding::Rzcobs)
        } else {
            Err(Error::UnknownEncoding)
        }
    }

    /// Can this encoding recover from missed bytes (and otherwise invalid data) in the stream?
    pub fn can_recover(&self) -> (recovers: bool)
        ensures
            recovers == self.recovers(),
    {
        match self {
            Encoding::Raw => false,
            Encoding::Rzcobs => true,
        }
    }
}

/// `raw` and `rzcobs` name different encodings, and nothing else names one.
pub proof fn lemma_named_encodings()
    ensures
        Encoding::named("raw"@) == Some(Encoding::Raw),
        Encoding::named("rzcobs"@) == Some(Encoding::Rzcobs),
        Encoding::named("zlib"@) is None,
{
    reveal_strlit("raw");
    reveal_strlit("rzcobs");
    reveal_strlit("zlib");
    assert("raw"@.len() == 3);
    assert("rzcobs"@.len() == 6);
    assert("zlib"@.len() == 4);
}

} // verus!
