//! The field matcher: evaluates one operator-tagged argument against one
//! stored field value. A leading `>` asks for a case-insensitive suffix
//! match, `<` for a prefix match, `#>=`/`#>`/`#<=`/`#<` with a numeric
//! remainder for a signed comparison, and anything else for
//! case-insensitive equality. Permission lists use substring containment
//! in place of equality.

use vstd::prelude::*;
use vstd::string::StrSliceExecFns;
use crate::text::{
    all_digits, eq_ci, int_body, int_of, is_digit_char, is_int_literal, lower_of, parse_i32,
    parses_as_i32, seq_contains, seq_ends_with, seq_starts_with, spec_eq_ci, str_contains,
    str_ends_with, str_starts_with, to_lower,
};

verus! {

// ---------------------------------------------------------------------------
// First-match search, shared by every "first entry wins" lookup.
// ---------------------------------------------------------------------------

/// Index of the first element satisfying `p`, or -1.
pub open spec fn first_idx<T>(s: Seq<T>, p: spec_fn(T) -> bool) -> int
    decreases s.len(),
{
    if s.len() == 0 {
        -1
    } else if p(s[0]) {
        0
    } else {
        let r = first_idx(s.skip(1), p);
        if r == -1 {
            -1
        } else {
            1 + r
        }
    }
}

pub proof fn lemma_first_idx<T>(s: Seq<T>, p: spec_fn(T) -> bool)
    ensures
        ({
            let r = first_idx(s, p);
            &&& r == -1 ==> forall|i: int| 0 <= i < s.len() ==> !p(s[i])
            &&& r != -1 ==> 0 <= r < s.len() && p(s[r]) && forall|i: int| 0 <= i < r ==> !p(s[i])
        }),
    decreases s.len(),
{
    if s.len() > 0 && !p(s[0]) {
        lemma_first_idx(s.skip(1), p);
        let r = first_idx(s.skip(1), p);
        assert(forall|i: int| 0 <= i < s.len() - 1 ==> s.skip(1)[i] == s[i + 1]);
        if r == -1 {
            assert forall|i: int| 0 <= i < s.len() implies !p(s[i]) by {
                if i > 0 {
                    assert(!p(s.skip(1)[i - 1]));
                }
            }
        } else {
            assert forall|i: int| 0 <= i < 1 + r implies !p(s[i]) by {
                if i > 0 {
                    assert(!p(s.skip(1)[i - 1]));
                }
            }
        }
    }
}

// ---------------------------------------------------------------------------
// The three operator interpretations.
// ---------------------------------------------------------------------------

/// Matching for single-valued text fields: suffix, prefix, or
/// case-insensitive equality.
pub open spec fn spec_field_match(arg: Seq<char>, cand: Seq<char>) -> bool {
    if arg.len() > 0 && arg[0] == '>' {
        seq_ends_with(lower_of(cand), lower_of(arg.skip(1)))
    } else if arg.len() > 0 && arg[0] == '<' {
        seq_starts_with(lower_of(cand), lower_of(arg.skip(1)))
    } else {
        spec_eq_ci(cand, arg)
    }
}

/// Matching for permission-list entries: as `spec_field_match`, but the
/// plain form asks for substring containment rather than equality.
pub open spec fn spec_perm_match(arg: Seq<char>, cand: Seq<char>) -> bool {
    if arg.len() > 0 && arg[0] == '>' {
        seq_ends_with(lower_of(cand), lower_of(arg.skip(1)))
    } else if arg.len() > 0 && arg[0] == '<' {
        seq_starts_with(lower_of(cand), lower_of(arg.skip(1)))
    } else {
        seq_contains(lower_of(cand), lower_of(arg))
    }
}

/// Matching for setting-list entries: as `spec_field_match`, with the four
/// numeric forms checked before the equality fallthrough. An argument
/// whose numeric remainder does not parse falls through to equality. The
/// `#>` form is deliberately the same strict comparison as `#>=`: rule
/// files were authored against that asymmetry, so it is kept.
pub open spec fn spec_setting_match(arg: Seq<char>, cand: Seq<char>) -> bool {
    if arg.len() > 0 && arg[0] == '>' {
        seq_ends_with(lower_of(cand), lower_of(arg.skip(1)))
    } else if arg.len() > 0 && arg[0] == '<' {
        seq_starts_with(lower_of(cand), lower_of(arg.skip(1)))
    } else if arg.len() >= 3 && arg[0] == '#' && arg[1] == '>' && arg[2] == '=' && parses_as_i32(
        arg.skip(3),
    ) {
        parses_as_i32(cand) && int_of(arg.skip(3)) < int_of(cand)
    } else if arg.len() >= 2 && arg[0] == '#' && arg[1] == '>' && parses_as_i32(arg.skip(2)) {
        parses_as_i32(cand) && int_of(arg.skip(2)) < int_of(cand)
    } else if arg.len() >= 3 && arg[0] == '#' && arg[1] == '<' && arg[2] == '=' && parses_as_i32(
        arg.skip(3),
    ) {
        parses_as_i32(cand) && int_of(arg.skip(3)) >= int_of(cand)
    } else if arg.len() >= 2 && arg[0] == '#' && arg[1] == '<' && parses_as_i32(arg.skip(2)) {
        parses_as_i32(cand) && int_of(arg.skip(2)) > int_of(cand)
    } else {
        spec_eq_ci(cand, arg)
    }
}

// ---------------------------------------------------------------------------
// Exec counterparts.
// ---------------------------------------------------------------------------

pub fn field_match(arg: &str, cand: &str) -> (r: bool)
    ensures
        r == spec_field_match(arg@, cand@),
{
    let n = arg.unicode_len();
    if n > 0 && arg.get_char(0) == '>' {
        let rest = arg.substring_char(1, n);
        proof {
            assert(rest@ =~= arg@.skip(1));
        }
        let lc = to_lower(cand);
        let lr = to_lower(rest);
        str_ends_with(lc.as_str(), lr.as_str())
    } else if n > 0 && arg.get_char(0) == '<' {
        let rest = arg.substring_char(1, n);
        proof {
            assert(rest@ =~= arg@.skip(1));
        }
        let lc = to_lower(cand);
        let lr = to_lower(rest);
        str_starts_with(lc.as_str(), lr.as_str())
    } else {
        eq_ci(cand, arg)
    }
}

pub fn perm_match(arg: &str, cand: &str) -> (r: bool)
    ensures
        r == spec_perm_match(arg@, cand@),
{
    let n = arg.unicode_len();
    if n > 0 && arg.get_char(0) == '>' {
        let rest = arg.substring_char(1, n);
        proof {
            assert(rest@ =~= arg@.skip(1));
        }
        let lc = to_lower(cand);
        let lr = to_lower(rest);
        str_ends_with(lc.as_str(), lr.as_str())
    } else if n > 0 && arg.get_char(0) == '<' {
        let rest = arg.substring_char(1, n);
        proof {
            assert(rest@ =~= arg@.skip(1));
        }
        let lc = to_lower(cand);
        let lr = to_lower(rest);
        str_starts_with(lc.as_str(), lr.as_str())
    } else {
        let lc = to_lower(cand);
        let la = to_lower(arg);
        str_contains(lc.as_str(), la.as_str())
    }
}

pub fn setting_match(arg: &str, cand: &str) -> (r: bool)
    ensures
        r == spec_setting_match(arg@, cand@),
{
    let n = arg.unicode_len();
    if n > 0 && arg.get_char(0) == '>' {
        let rest = arg.substring_char(1, n);
        proof {
            assert(rest@ =~= arg@.skip(1));
        }
        let lc = to_lower(cand);
        let lr = to_lower(rest);
        return str_ends_with(lc.as_str(), lr.as_str());
    }
    if n > 0 && arg.get_char(0) == '<' {
        let rest = arg.substring_char(1, n);
        proof {
            assert(rest@ =~= arg@.skip(1));
        }
        let lc = to_lower(cand);
        let lr = to_lower(rest);
        return str_starts_with(lc.as_str(), lr.as_str());
    }
    if n >= 2 && arg.get_char(0) == '#' && arg.get_char(1) == '>' {
        if n >= 3 && arg.get_char(2) == '=' {
            let rest = arg.substring_char(3, n);
            proof {
                assert(rest@ =~= arg@.skip(3));
            }
            if let Some(a) = parse_i32(rest) {
                return match parse_i32(cand) {
                    Some(c) => a < c,
                    None => false,
                };
            }
        } else {
            let rest = arg.substring_char(2, n);
            proof {
                assert(rest@ =~= arg@.skip(2));
            }
            if let Some(a) = parse_i32(rest) {
                return match parse_i32(cand) {
                    Some(c) => a < c,
                    None => false,
                };
            }
        }
        // A `#>` argument whose remainder is not a number: with `=` the
        // remainder starts with '=', so the `#>`-without-`=` form cannot
        // parse either, and both fall through to equality.
        proof {
            if n >= 3 && arg@[2] == '=' {
                assert(!parses_as_i32(arg@.skip(2))) by {
                    if is_int_literal(arg@.skip(2)) {
                        let b = int_body(arg@.skip(2));
                        assert(arg@.skip(2)[0] == '=');
                        assert(is_digit_char(b[0]));
                    }
                };
            }
        }
        return eq_ci(cand, arg);
    }
    if n >= 2 && arg.get_char(0) == '#' && arg.get_char(1) == '<' {
        if n >= 3 && arg.get_char(2) == '=' {
            let rest = arg.substring_char(3, n);
            proof {
                assert(rest@ =~= arg@.skip(3));
            }
            if let Some(a) = parse_i32(rest) {
                return match parse_i32(cand) {
                    Some(c) => a >= c,
                    None => false,
                };
            }
        } else {
            let rest = arg.substring_char(2, n);
            proof {
                assert(rest@ =~= arg@.skip(2));
            }
            if let Some(a) = parse_i32(rest) {
                return match parse_i32(cand) {
                    Some(c) => a > c,
                    None => false,
                };
            }
        }
        proof {
            if n >= 3 && arg@[2] == '=' {
                assert(!parses_as_i32(arg@.skip(2))) by {
                    if is_int_literal(arg@.skip(2)) {
                        let b = int_body(arg@.skip(2));
                        assert(arg@.skip(2)[0] == '=');
                        assert(is_digit_char(b[0]));
                    }
                };
            }
        }
        return eq_ci(cand, arg);
    }
    eq_ci(cand, arg)
}

} // verus!
