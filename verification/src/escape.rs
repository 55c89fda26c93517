//! Translation of string literals into the assembler's own escape
//! notation.
//!
//! The source language writes a newline as `\n` inside a string literal;
//! the assembler instead takes a closed quote, the byte value 10, and a
//! reopened quote.  Any other escaped character is dropped together with
//! its backslash, and a trailing lone backslash is dropped as well.

use vstd::prelude::*;

verus! {

/// What the assembler data line holds for one source literal: each `\n`
/// pair becomes `", 10, "`, every other backslash pair is dropped, plain
/// characters are kept.
pub open spec fn escape_asm(s: Seq<char>) -> Seq<char>
    decreases s.len(),
{
    if s.len() == 0 {
        Seq::empty()
    } else if s[0] == '\\' {
        if s.len() == 1 {
            Seq::empty()
        } else if s[1] == 'n' {
            "\", 10, \""@ + escape_asm(s.subrange(2, s.len() as int))
        } else {
            escape_asm(s.subrange(2, s.len() as int))
        }
    } else {
        seq![s[0]] + escape_asm(s.subrange(1, s.len() as int))
    }
}

/// Renders one string literal as the assembler's data notation.
pub fn output_string_asm(string: &str) -> (r: String)
    ensures
        r@ == escape_asm(string@),
{
    let len = string.unicode_len();
    let mut result = String::new();
    let mut index: usize = 0;
    proof {
        assert(string@.subrange(0, len as int) =~= string@);
        assert(escape_asm(string@) =~= result@ + escape_asm(string@.subrange(0, len as int)));
    }
    while index < len
        invariant
            0 <= index <= len,
            len == string@.len(),
            escape_asm(string@) == result@ + escape_asm(
                string@.subrange(index as int, len as int),
            ),
        decreases len - index,
    {
        let ghost pre = result@;
        let ghost rest = string@.subrange(index as int, len as int);
        let c = string.get_char(index);
        proof {
            assert(rest[0] == string@[index as int]);
        }
        if c == '\\' {
            index = index + 1;
            if index >= len {
                proof {
                    assert(rest.len() == 1);
                    assert(escape_asm(rest) =~= Seq::<char>::empty());
                    assert(string@.subrange(index as int, len as int).len() == 0);
                    assert(escape_asm(string@.subrange(index as int, len as int))
                        =~= Seq::<char>::empty());
                }
                return result;
            }
            let c2 = string.get_char(index);
            proof {
                assert(rest[1] == string@[index as int]);
                assert(rest.subrange(2, rest.len() as int) =~= string@.subrange(
                    index as int + 1,
                    len as int,
                ));
            }
            if c2 == 'n' {
                result.append("\", 10, \"");
                proof {
                    reveal_strlit("\", 10, \"");
                    assert(escape_asm(rest) =~= "\", 10, \""@ + escape_asm(
                        rest.subrange(2, rest.len() as int),
                    ));
                    assert(result@ =~= pre + "\", 10, \""@);
                }
            } else {
                proof {
                    assert(escape_asm(rest) =~= escape_asm(rest.subrange(2, rest.len() as int)));
                }
            }
            index = index + 1;
        } else {
            result.append(string.substring_char(index, index + 1));
            proof {
                assert(result@ =~= pre + seq![rest[0]]);
                assert(rest.subrange(1, rest.len() as int) =~= string@.subrange(
                    index as int + 1,
                    len as int,
                ));
                assert(escape_asm(rest) =~= seq![rest[0]] + escape_asm(
                    rest.subrange(1, rest.len() as int),
                ));
            }
            index = index + 1;
        }
    }
    proof {
        assert(string@.subrange(index as int, len as int).len() == 0);
        assert(escape_asm(string@.subrange(index as int, len as int)) =~= Seq::<char>::empty());
        assert(result@ =~= escape_asm(string@));
    }
    result
}

} // verus!
