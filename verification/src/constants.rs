//! Immutable constants of the notation: the structural character set, the
//! keyword list, the default indentation width, and the nesting-depth ceiling.

use vstd::prelude::*;

verus! {

/// Number of spaces used per nesting level when no indent string is given.
pub const DEFAULT_INDENT: usize = 2;

/// Ceiling on combined object/array nesting depth; inputs nested deeper are
/// rejected so that the recursive descent terminates on adversarial input.
pub const MAX_DEPTH: usize = 256;

/// Holds exactly of the characters that the notation reserves for structure.
pub open spec fn spec_is_structural_char(ch: char) -> bool {
    ch == '[' || ch == ']' || ch == '{' || ch == '}' || ch == ':' || ch == '-'
}

/// Whether `ch` is one of the structural characters `[ ] { } : -`.
#[verifier::when_used_as_spec(spec_is_structural_char)]
pub fn is_structural_char(ch: char) -> (r: bool)
    ensures
        r == spec_is_structural_char(ch),
{
    ch == '[' || ch == ']' || ch == '{' || ch == '}' || ch == ':' || ch == '-'
}

/// Holds exactly of the three keyword spellings.
pub open spec fn spec_is_keyword(s: Seq<char>) -> bool {
    s == "null"@ || s == "true"@ || s == "false"@
}

/// Whether `s` is one of the literal keywords `null`, `true`, `false`
/// (case-sensitively).
pub fn is_keyword(s: &str) -> (r: bool)
    ensures
        r == spec_is_keyword(s@),
{
    proof {
        reveal_strlit("null");
        reveal_strlit("true");
        reveal_strlit("false");
    }
    let n = s.unicode_len();
    if n == 4 {
        let c0 = s.get_char(0);
        let c1 = s.get_char(1);
        let c2 = s.get_char(2);
        let c3 = s.get_char(3);
        let null_hit = c0 == 'n' && c1 == 'u' && c2 == 'l' && c3 == 'l';
        let true_hit = c0 == 't' && c1 == 'r' && c2 == 'u' && c3 == 'e';
        proof {
            if null_hit {
                assert(s@ =~= "null"@);
            }
            if true_hit {
                assert(s@ =~= "true"@);
            }
            if !null_hit && !true_hit {
                assert(s@ != "null"@);
                assert(s@ != "true"@);
            }
        }
        null_hit || true_hit
    } else if n == 5 {
        let hit = s.get_char(0) == 'f' && s.get_char(1) == 'a' && s.get_char(2) == 'l'
            && s.get_char(3) == 's' && s.get_char(4) == 'e';
        proof {
            if hit {
                assert(s@ =~= "false"@);
            } else {
                assert(s@ != "false"@);
            }
        }
        hit
    } else {
        false
    }
}

} // verus!
