//! Containment of requested names inside the root directory.
use vstd::prelude::*;
use vstd::string::*;
use crate::frame::TransferError;

verus! {

/// Whether a character would let a name reach outside its directory.
pub open spec fn is_separator(c: char) -> bool {
    c == '/' || c == '\\' || c == '\0'
}

/// A name that resolves to an entry strictly inside the root: one
/// non-empty segment, neither `.` nor `..`, with no separator in it.
pub open spec fn is_valid_name(s: Seq<char>) -> bool {
    &&& s.len() > 0
    &&& s != seq!['.']
    &&& s != seq!['.', '.']
    &&& forall|i: int| 0 <= i < s.len() ==> !is_separator(#[trigger] s[i])
}

/// Checks a requested name before any file is touched.
pub fn validate_name(name: &str) -> (r: Result<(), TransferError>)
    ensures
        r is Ok <==> is_valid_name(name@),
        r is Err ==> r == Err::<(), TransferError>(TransferError::PathViolation),
{
    let n = name.unicode_len();
    if n == 0 {
        return Err(TransferError::PathViolation);
    }
    if n == 1 && name.get_char(0) == '.' {
        assert(name@ =~= seq!['.']);
        return Err(TransferError::PathViolation);
    }
    if n == 2 && name.get_char(0) == '.' && name.get_char(1) == '.' {
        assert(name@ =~= seq!['.', '.']);
        return Err(TransferError::PathViolation);
    }
    let mut i: usize = 0;
    while i < n
        invariant
            n == name@.len(),
            i <= n,
            forall|j: int| 0 <= j < i ==> !is_separator(#[trigger] name@[j]),
        decreases n - i,
    {
        let c = name.get_char(i);
        if c == '/' || c == '\\' || c == '\0' {
            return Err(TransferError::PathViolation);
        }
        i = i + 1;
    }
    proof {
        if name@ == seq!['.'] {
            assert(name@[0] == '.');
        }
        if name@ == seq!['.', '.'] {
            assert(name@[0] == '.' && name@[1] == '.');
        }
    }
    Ok(())
}

} // verus!
