//! Checks on raw values read back from storage.
use vstd::prelude::*;

verus! {

/// The raw payload of a binary JSON column: a leading version byte, then the
/// JSON text itself.
pub struct JsonChecked(pub Vec<u8>);

impl JsonChecked {
    /// Strips and checks the version byte of a binary JSON column; any other
    /// leading byte is a storage-format error.
    pub fn from_sql(raw: &[u8]) -> (r: Result<JsonChecked, ()>)
        ensures
            r is Ok <==> raw@.len() >= 1 && raw@[0] == 1,
            r matches Ok(j) ==> j.0@ == raw@.skip(1),
    {
        if raw.len() >= 1 && raw[0] == 1 {
            let mut out: Vec<u8> = Vec::new();
            let n: usize = raw.len();
            let mut i: usize = 1;
            while i < n
                invariant
                    1 <= i <= n == raw@.len(),
                    out@ == raw@.subrange(1, i as int),
                decreases n - i,
            {
                out.push(raw[i]);
                assert(out@ =~= raw@.subrange(1, i + 1 as int));
                i = i + 1;
            }
            assert(out@ =~= raw@.skip(1));
            Ok(JsonChecked(out))
        } else {
            Err(())
        }
    }
}

} // verus!
