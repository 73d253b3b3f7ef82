//! The permission formatter: the nine-character `rwx` string read from
//! POSIX mode bits.

use vstd::prelude::*;
use vstd::string::*;

verus! {

/// The bit mask tested at position `i` of the permission string, in the
/// fixed order owner-read down to other-execute.
pub open spec fn perm_mask(i: int) -> u32 {
    if i == 0 {
        0o400
    } else if i == 1 {
        0o200
    } else if i == 2 {
        0o100
    } else if i == 3 {
        0o040
    } else if i == 4 {
        0o020
    } else if i == 5 {
        0o010
    } else if i == 6 {
        0o004
    } else if i == 7 {
        0o002
    } else {
        0o001
    }
}

/// The letter shown at position `i` when its bit is set: `r`, `w` or
/// `x`, repeating per triplet.
pub open spec fn perm_letter(i: int) -> char {
    if i % 3 == 0 {
        'r'
    } else if i % 3 == 1 {
        'w'
    } else {
        'x'
    }
}

/// The character at position `i` of the permission string for the given
/// mode bits.
pub open spec fn perm_char(mode: u32, i: int) -> char {
    if mode & perm_mask(i) == 0 {
        '-'
    } else {
        perm_letter(i)
    }
}

/// The whole nine-character permission string for the given mode bits.
pub open spec fn spec_permissions(mode: u32) -> Seq<char> {
    Seq::new(9, |i: int| perm_char(mode, i))
}

/// Render the permission bits as the fixed nine-character `rwx` string.
/// Bits outside the nine tested positions are ignored.
pub fn format_permissions(mode: u32) -> (s: String)
    ensures
        s@ == spec_permissions(mode),
        s@.len() == 9,
{
    proof {
        reveal_strlit("r");
        reveal_strlit("w");
        reveal_strlit("x");
        reveal_strlit("-");
    }
    let mut s = String::new();
    s.append(if mode & 0o400 != 0 { "r" } else { "-" });
    s.append(if mode & 0o200 != 0 { "w" } else { "-" });
    s.append(if mode & 0o100 != 0 { "x" } else { "-" });
    s.append(if mode & 0o040 != 0 { "r" } else { "-" });
    s.append(if mode & 0o020 != 0 { "w" } else { "-" });
    s.append(if mode & 0o010 != 0 { "x" } else { "-" });
    s.append(if mode & 0o004 != 0 { "r" } else { "-" });
    s.append(if mode & 0o002 != 0 { "w" } else { "-" });
    s.append(if mode & 0o001 != 0 { "x" } else { "-" });
    proof {
        assert(s@ =~= spec_permissions(mode));
    }
    s
}

/// Every permission string has exactly nine characters, each drawn from
/// `r`, `w`, `x` and `-`, and position `i` shows `-` exactly when the
/// bit of mask `perm_mask(i)` is clear in the mode.
pub proof fn lemma_permissions_shape(mode: u32)
    ensures
        spec_permissions(mode).len() == 9,
        forall|i: int|
            0 <= i < 9 ==> (spec_permissions(mode)[i] == 'r' || spec_permissions(mode)[i] == 'w'
                || spec_permissions(mode)[i] == 'x' || spec_permissions(mode)[i] == '-'),
        forall|i: int|
            0 <= i < 9 ==> ((spec_permissions(mode)[i] == '-') <==> mode & perm_mask(i) == 0),
{
    assert forall|i: int| 0 <= i < 9 implies (spec_permissions(mode)[i] == 'r'
        || spec_permissions(mode)[i] == 'w' || spec_permissions(mode)[i] == 'x'
        || spec_permissions(mode)[i] == '-') by {
        assert(spec_permissions(mode)[i] == perm_char(mode, i));
    }
    assert forall|i: int| 0 <= i < 9 implies ((spec_permissions(mode)[i] == '-') <==> mode
        & perm_mask(i) == 0) by {
        assert(spec_permissions(mode)[i] == perm_char(mode, i));
        if mode & perm_mask(i) != 0 {
            assert(perm_char(mode, i) == perm_letter(i));
            assert(perm_letter(i) != '-');
        }
    }
}

} // verus!
