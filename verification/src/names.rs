//! The name grammar for bots and clients.
//!
//! A name is valid iff every byte is an ASCII letter, digit, space, `-`, `_`
//! or `.`, it neither starts nor ends with a space, and its lowercased form
//! does not contain the reserved word `referee`.

use vstd::prelude::*;
use vstd::string::StringSliceAdditionalSpecFns;

verus! {

/// True for the bytes a name may contain.
pub open spec fn is_name_byte(b: u8) -> bool {
    ('a' as u8) <= b <= ('z' as u8) || ('A' as u8) <= b <= ('Z' as u8) || ('0' as u8) <= b <= (
    '9' as u8) || b == ' ' as u8 || b == '-' as u8 || b == '_' as u8 || b == '.' as u8
}

/// ASCII lowercasing of one byte.
pub open spec fn lower(b: u8) -> u8 {
    if ('A' as u8) <= b <= ('Z' as u8) {
        (b + 32) as u8
    } else {
        b
    }
}

/// True when the seven bytes of `s` starting at `i` spell `referee` once
/// lowercased.
pub open spec fn referee_at(s: Seq<u8>, i: int) -> bool {
    &&& lower(s[i]) == 'r' as u8
    &&& lower(s[i + 1]) == 'e' as u8
    &&& lower(s[i + 2]) == 'f' as u8
    &&& lower(s[i + 3]) == 'e' as u8
    &&& lower(s[i + 4]) == 'r' as u8
    &&& lower(s[i + 5]) == 'e' as u8
    &&& lower(s[i + 6]) == 'e' as u8
}

/// True when the lowercased bytes contain the substring `referee`.
pub open spec fn contains_referee(s: Seq<u8>) -> bool {
    exists|i: int| 0 <= i && i + 7 <= s.len() && referee_at(s, i)
}

/// The name grammar over bytes.
pub open spec fn name_ok(s: Seq<u8>) -> bool {
    &&& forall|i: int| 0 <= i < s.len() ==> is_name_byte(#[trigger] s[i])
    &&& s.len() > 0 ==> s[0] != ' ' as u8 && s[s.len() - 1] != ' ' as u8
    &&& !contains_referee(s)
}

fn lower_byte(b: u8) -> (r: u8)
    ensures
        r == lower(b),
{
    if b >= 'A' as u8 && b <= 'Z' as u8 {
        b + 32
    } else {
        b
    }
}

fn referee_at_exec(s: &[u8], i: usize) -> (r: bool)
    requires
        i + 7 <= s@.len(),
    ensures
        r == referee_at(s@, i as int),
{
    lower_byte(s[i]) == 'r' as u8 && lower_byte(s[i + 1]) == 'e' as u8 && lower_byte(s[i + 2])
        == 'f' as u8 && lower_byte(s[i + 3]) == 'e' as u8 && lower_byte(s[i + 4]) == 'r' as u8
        && lower_byte(s[i + 5]) == 'e' as u8 && lower_byte(s[i + 6]) == 'e' as u8
}

/// Whether the byte form of a name meets the grammar.
pub fn valid_name_bytes(s: &[u8]) -> (r: bool)
    ensures
        r == name_ok(s@),
{
    let n: usize = s.len();
    let mut i: usize = 0;
    while i < n
        invariant
            n == s@.len(),
            i <= n,
            forall|j: int| 0 <= j < i ==> is_name_byte(#[trigger] s@[j]),
        decreases n - i,
    {
        let b = s[i];
        let ok = (b >= 'a' as u8 && b <= 'z' as u8) || (b >= 'A' as u8 && b <= 'Z' as u8) || (b
            >= '0' as u8 && b <= '9' as u8) || b == ' ' as u8 || b == '-' as u8 || b == '_' as u8
            || b == '.' as u8;
        if !ok {
            return false;
        }
        i += 1;
    }
    if n > 0 && (s[0] == ' ' as u8 || s[n - 1] == ' ' as u8) {
        return false;
    }
    if n >= 7 {
        let mut j: usize = 0;
        while j <= n - 7
            invariant
                n == s@.len(),
                7 <= n,
                j <= n - 6,
                forall|k: int| 0 <= k < j ==> !referee_at(s@, k),
            decreases n - j,
        {
            if referee_at_exec(s, j) {
                assert(contains_referee(s@));
                return false;
            }
            j += 1;
        }
        assert(!contains_referee(s@)) by {
            assert(forall|k: int| 0 <= k && k + 7 <= s@.len() ==> !referee_at(s@, k));
        }
    } else {
        assert(!contains_referee(s@));
    }
    true
}

/// Whether a proposed name meets the grammar. A string with any non-ASCII
/// character is invalid, since its encoding holds bytes outside the grammar.
pub fn is_name_valid(name: &str) -> (r: bool)
    ensures
        r == name_ok(name.spec_bytes()),
{
    valid_name_bytes(name.as_bytes())
}

} // verus!
