use crate::text::{spec_starts_with, str_starts_with};
use vstd::prelude::*;

verus! {

pub open spec fn extended_prefix() -> Seq<char> {
    seq!['\\', '\\', '?', '\\']
}

pub open spec fn extended_unc_prefix() -> Seq<char> {
    seq!['\\', '\\', '?', '\\', 'U', 'N', 'C', '\\']
}

/// A path with its extended-length prefix removed: `\\?\UNC\server\share`
/// becomes `\\server\share`, `\\?\C:\x` becomes `C:\x`, anything else is
/// kept as it is.
pub open spec fn spec_strip_extended_prefix(s: Seq<char>) -> Seq<char> {
    if spec_starts_with(s, extended_unc_prefix()) {
        seq!['\\', '\\'] + s.skip(8)
    } else if spec_starts_with(s, extended_prefix()) {
        s.skip(4)
    } else {
        s
    }
}

/// Removes a Windows extended-length prefix, keeping universal naming
/// convention paths addressable.
pub fn strip_extended_prefix(path: &str) -> (r: String)
    ensures
        r@ == spec_strip_extended_prefix(path@),
{
    let n = path.unicode_len();
    if str_starts_with(path, "\\\\?\\UNC\\") {
        proof {
            reveal_strlit("\\\\?\\UNC\\");
            reveal_strlit("\\\\");
            assert("\\\\?\\UNC\\"@ =~= extended_unc_prefix());
        }
        let mut out = String::from_str("\\\\");
        out.append(path.substring_char(8, n));
        proof {
            assert(path@.subrange(8, n as int) =~= path@.skip(8));
            assert(out@ =~= seq!['\\', '\\'] + path@.skip(8));
        }
        out
    } else if str_starts_with(path, "\\\\?\\") {
        proof {
            reveal_strlit("\\\\?\\UNC\\");
            reveal_strlit("\\\\?\\");
            assert("\\\\?\\UNC\\"@ =~= extended_unc_prefix());
            assert("\\\\?\\"@ =~= extended_prefix());
        }
        let out = path.substring_char(4, n).to_owned();
        proof {
            assert(path@.subrange(4, n as int) =~= path@.skip(4));
        }
        out
    } else {
        proof {
            reveal_strlit("\\\\?\\UNC\\");
            reveal_strlit("\\\\?\\");
            assert("\\\\?\\UNC\\"@ =~= extended_unc_prefix());
            assert("\\\\?\\"@ =~= extended_prefix());
        }
        path.to_owned()
    }
}

} // verus!
