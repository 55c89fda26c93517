//! Small string helpers shared across the crate.

use vstd::prelude::*;

verus! {

/// Relies on str's PartialEq: two string slices are equal exactly when
/// their character sequences are equal.
#[verifier::external_body]
pub fn str_eq(a: &str, b: &str) -> (r: bool)
    ensures
        r == (a@ == b@),
{
    a == b
}

/// The stem of a file name: everything before the first `.`, or the whole
/// name when it has none.
pub open spec fn spec_stem(s: Seq<char>) -> Seq<char> {
    if exists|i: int| 0 <= i < s.len() && s[i] == '.' {
        s.subrange(0, choose_first_dot(s))
    } else {
        s
    }
}

/// The position of the first `.` of a sequence that has one.
pub open spec fn choose_first_dot(s: Seq<char>) -> int {
    choose|i: int|
        0 <= i < s.len() && s[i] == '.' && forall|j: int| 0 <= j < i ==> s[j] != '.'
}

/// The output file name is derived from the input file name by cutting at
/// the first `.`; a name without one is kept whole.
pub fn get_filename(file: &str) -> (r: &str)
    ensures
        r@ == spec_stem(file@),
{
    let len = file.unicode_len();
    let mut i: usize = 0;
    while i < len
        invariant
            0 <= i <= len,
            len == file@.len(),
            forall|j: int| 0 <= j < i ==> file@[j] != '.',
        decreases len - i,
    {
        if file.get_char(i) == '.' {
            proof {
                assert(file@[i as int] == '.');
                let w = choose_first_dot(file@);
                assert(0 <= w < file@.len() && file@[w] == '.' && forall|j: int|
                    0 <= j < w ==> file@[j] != '.');
                assert(w == i as int) by {
                    if w < i as int {
                        assert(file@[w] != '.');
                    }
                    if w > i as int {
                        assert(file@[i as int] != '.');
                    }
                }
            }
            return file.substring_char(0, i);
        }
        i = i + 1;
    }
    proof {
        assert(forall|j: int| 0 <= j < file@.len() ==> file@[j] != '.');
        assert(file@.subrange(0, file@.len() as int) =~= file@);
    }
    file.substring_char(0, len)
}

} // verus!
