//! Character-level string utilities: equality, prefix/suffix/substring
//! tests, whitespace trimming, splitting, replacement and decimal-integer
//! parsing, each verified against a spec-level model over `Seq<char>`.

use vstd::prelude::*;
use vstd::string::StrSliceExecFns;
use vstd::string::StringExecFns;

verus! {

// ---------------------------------------------------------------------------
// Prefix / suffix / substring predicates over character sequences.
// ---------------------------------------------------------------------------

pub open spec fn seq_starts_with(s: Seq<char>, p: Seq<char>) -> bool {
    p.len() <= s.len() && forall|j: int| 0 <= j < p.len() ==> s[j] == p[j]
}

pub open spec fn seq_ends_with(s: Seq<char>, p: Seq<char>) -> bool {
    p.len() <= s.len() && forall|j: int| 0 <= j < p.len() ==> s[s.len() - p.len() + j] == p[j]
}

/// `p` occurs in `s` at position `i`.
pub open spec fn seq_match_at(s: Seq<char>, p: Seq<char>, i: int) -> bool {
    0 <= i && i + p.len() <= s.len() && forall|j: int| 0 <= j < p.len() ==> s[i + j] == p[j]
}

pub open spec fn seq_contains(s: Seq<char>, p: Seq<char>) -> bool {
    exists|i: int| seq_match_at(s, p, i)
}

// ---------------------------------------------------------------------------
// Exec counterparts.
// ---------------------------------------------------------------------------

pub fn str_eq(a: &str, b: &str) -> (r: bool)
    ensures
        r == (a@ == b@),
{
    let na = a.unicode_len();
    let nb = b.unicode_len();
    if na != nb {
        return false;
    }
    let mut i: usize = 0;
    while i < na
        invariant
            na == a@.len(),
            na == b@.len(),
            i <= na,
            forall|j: int| 0 <= j < i ==> a@[j] == b@[j],
        decreases na - i,
    {
        if a.get_char(i) != b.get_char(i) {
            return false;
        }
        i += 1;
    }
    proof {
        assert(a@ =~= b@);
    }
    true
}

pub fn str_starts_with(s: &str, p: &str) -> (r: bool)
    ensures
        r == seq_starts_with(s@, p@),
{
    let n = s.unicode_len();
    let m = p.unicode_len();
    if m > n {
        return false;
    }
    let mut i: usize = 0;
    while i < m
        invariant
            n == s@.len(),
            m == p@.len(),
            m <= n,
            i <= m,
            forall|j: int| 0 <= j < i ==> s@[j] == p@[j],
        decreases m - i,
    {
        if s.get_char(i) != p.get_char(i) {
            return false;
        }
        i += 1;
    }
    true
}

pub fn str_ends_with(s: &str, p: &str) -> (r: bool)
    ensures
        r == seq_ends_with(s@, p@),
{
    let n = s.unicode_len();
    let m = p.unicode_len();
    if m > n {
        return false;
    }
    let mut i: usize = 0;
    while i < m
        invariant
            n == s@.len(),
            m == p@.len(),
            m <= n,
            i <= m,
            forall|j: int| 0 <= j < i ==> s@[n - m + j] == p@[j],
        decreases m - i,
    {
        if s.get_char(n - m + i) != p.get_char(i) {
            return false;
        }
        i += 1;
    }
    true
}

/// Whether `p` occurs in `s` at position `i`.
fn match_at(s: &str, p: &str, i: usize) -> (r: bool)
    requires
        i + p@.len() <= s@.len(),
    ensures
        r == seq_match_at(s@, p@, i as int),
{
    let n = s.unicode_len();
    let m = p.unicode_len();
    let mut j: usize = 0;
    while j < m
        invariant
            n == s@.len(),
            m == p@.len(),
            i + m <= s@.len(),
            j <= m,
            forall|k: int| 0 <= k < j ==> s@[i + k] == p@[k],
        decreases m - j,
    {
        if s.get_char(i + j) != p.get_char(j) {
            return false;
        }
        j += 1;
    }
    true
}

pub fn str_contains(s: &str, p: &str) -> (r: bool)
    ensures
        r == seq_contains(s@, p@),
{
    let n = s.unicode_len();
    let m = p.unicode_len();
    if m > n {
        proof {
            assert(forall|i: int| !seq_match_at(s@, p@, i));
        }
        return false;
    }
    let mut i: usize = 0;
    while i <= n - m
        invariant
            n == s@.len(),
            m == p@.len(),
            m <= n,
            i <= n - m + 1,
            forall|k: int| 0 <= k < i ==> !seq_match_at(s@, p@, k),
        decreases n - m + 1 - i,
    {
        if match_at(s, p, i) {
            return true;
        }
        i += 1;
    }
    proof {
        assert(forall|k: int| seq_match_at(s@, p@, k) ==> 0 <= k <= n - m);
    }
    false
}

// ---------------------------------------------------------------------------
// Whitespace and trimming.
// ---------------------------------------------------------------------------

/// The Unicode `White_Space` characters, as `char::is_whitespace` and the
/// `str` trimming functions recognise them.
pub open spec fn is_ws_char(c: char) -> bool {
    c == ' ' || c == '\t' || c == '\n' || c == '\r' || c == '\u{000B}' || c == '\u{000C}' || c
        == '\u{0085}' || c == '\u{00A0}' || c == '\u{1680}' || ((c as u32) >= 0x2000 && (c as u32)
        <= 0x200A) || c == '\u{2028}' || c == '\u{2029}' || c == '\u{202F}' || c == '\u{205F}' || c
        == '\u{3000}'
}

pub fn is_ws(c: char) -> (r: bool)
    ensures
        r == is_ws_char(c),
{
    let u = c as u32;
    u == 0x20 || u == 0x09 || u == 0x0A || u == 0x0D || u == 0x0B || u == 0x0C || u == 0x85 || u
        == 0xA0 || u == 0x1680 || (u >= 0x2000 && u <= 0x200A) || u == 0x2028 || u == 0x2029 || u
        == 0x202F || u == 0x205F || u == 0x3000
}

pub open spec fn ws_prefix_len(s: Seq<char>) -> nat
    decreases s.len(),
{
    if s.len() > 0 && is_ws_char(s[0]) {
        1 + ws_prefix_len(s.skip(1))
    } else {
        0
    }
}

pub open spec fn ws_suffix_len(s: Seq<char>) -> nat
    decreases s.len(),
{
    if s.len() > 0 && is_ws_char(s.last()) {
        1 + ws_suffix_len(s.drop_last())
    } else {
        0
    }
}

pub open spec fn spec_trim_start(s: Seq<char>) -> Seq<char> {
    s.skip(ws_prefix_len(s) as int)
}

pub open spec fn spec_trim_end(s: Seq<char>) -> Seq<char> {
    s.take(s.len() - ws_suffix_len(s))
}

pub open spec fn spec_trim(s: Seq<char>) -> Seq<char> {
    spec_trim_end(spec_trim_start(s))
}

pub proof fn lemma_ws_prefix(s: Seq<char>)
    ensures
        ws_prefix_len(s) <= s.len(),
        forall|j: int| 0 <= j < ws_prefix_len(s) ==> is_ws_char(s[j]),
        ws_prefix_len(s) < s.len() ==> !is_ws_char(s[ws_prefix_len(s) as int]),
    decreases s.len(),
{
    if s.len() > 0 && is_ws_char(s[0]) {
        lemma_ws_prefix(s.skip(1));
        assert forall|j: int| 0 <= j < ws_prefix_len(s) implies is_ws_char(s[j]) by {
            if j > 0 {
                assert(is_ws_char(s.skip(1)[j - 1]));
            }
        }
    }
}

pub proof fn lemma_ws_suffix(s: Seq<char>)
    ensures
        ws_suffix_len(s) <= s.len(),
        forall|j: int| s.len() - ws_suffix_len(s) <= j < s.len() ==> is_ws_char(s[j]),
        ws_suffix_len(s) < s.len() ==> !is_ws_char(s[s.len() - ws_suffix_len(s) - 1]),
    decreases s.len(),
{
    if s.len() > 0 && is_ws_char(s.last()) {
        lemma_ws_suffix(s.drop_last());
        assert(forall|j: int|
            0 <= j < s.len() - 1 ==> s.drop_last()[j] == s[j]);
    }
}

pub fn trim_start<'a>(s: &'a str) -> (r: &'a str)
    ensures
        r@ == spec_trim_start(s@),
{
    let n = s.unicode_len();
    let mut i: usize = 0;
    while i < n && is_ws(s.get_char(i))
        invariant
            n == s@.len(),
            i <= n,
            forall|j: int| 0 <= j < i ==> is_ws_char(s@[j]),
        decreases n - i,
    {
        i += 1;
    }
    proof {
        lemma_ws_prefix(s@);
        assert(i == ws_prefix_len(s@)) by {
            if i < ws_prefix_len(s@) {
                assert(is_ws_char(s@[i as int]));
            }
            if ws_prefix_len(s@) < i {
                assert(!is_ws_char(s@[ws_prefix_len(s@) as int]));
            }
        }
        assert(s@.subrange(i as int, n as int) =~= spec_trim_start(s@));
    }
    s.substring_char(i, n)
}

pub fn trim_end<'a>(s: &'a str) -> (r: &'a str)
    ensures
        r@ == spec_trim_end(s@),
{
    let n = s.unicode_len();
    let mut i: usize = n;
    while i > 0 && is_ws(s.get_char(i - 1))
        invariant
            n == s@.len(),
            i <= n,
            forall|j: int| i <= j < n ==> is_ws_char(s@[j]),
        decreases i,
    {
        i -= 1;
    }
    proof {
        lemma_ws_suffix(s@);
        assert(n - i == ws_suffix_len(s@)) by {
            if n - i < ws_suffix_len(s@) {
                assert(!is_ws_char(s@[i - 1]));
                assert(is_ws_char(s@[i - 1]));
            }
            if ws_suffix_len(s@) < n - i {
                assert(!is_ws_char(s@[n - ws_suffix_len(s@) - 1]));
                assert(is_ws_char(s@[n - ws_suffix_len(s@) - 1]));
            }
        }
        assert(s@.subrange(0, i as int) =~= spec_trim_end(s@));
    }
    s.substring_char(0, i)
}

pub fn trim<'a>(s: &'a str) -> (r: &'a str)
    ensures
        r@ == spec_trim(s@),
{
    trim_end(trim_start(s))
}

/// A trimmed sequence is non-empty exactly when the untrimmed one
/// holds some non-whitespace character.
pub proof fn lemma_trim_nonempty(s: Seq<char>)
    ensures
        spec_trim(s).len() > 0 <==> exists|i: int| 0 <= i < s.len() && !is_ws_char(s[i]),
{
    lemma_ws_prefix(s);
    let t = spec_trim_start(s);
    lemma_ws_suffix(t);
    if spec_trim(s).len() > 0 {
        let p = ws_prefix_len(s) as int;
        assert(!is_ws_char(s[p]));
    }
    if exists|i: int| 0 <= i < s.len() && !is_ws_char(s[i]) {
        let i = choose|i: int| 0 <= i < s.len() && !is_ws_char(s[i]);
        assert(ws_prefix_len(s) <= i);
        assert(t[i - ws_prefix_len(s)] == s[i]);
        assert(ws_suffix_len(t) < t.len()) by {
            if ws_suffix_len(t) == t.len() {
                assert(is_ws_char(t[i - ws_prefix_len(s)]));
            }
        }
    }
}

// ---------------------------------------------------------------------------
// Splitting on a separator string, as `str::split` does for literal
// patterns: leftmost, non-overlapping occurrences.
// ---------------------------------------------------------------------------

pub open spec fn spec_split(s: Seq<char>, sep: Seq<char>) -> Seq<Seq<char>>
    decreases s.len(),
        when sep.len() > 0
{
    if s.len() >= sep.len() && seq_match_at(s, sep, 0) {
        seq![Seq::<char>::empty()] + spec_split(s.skip(sep.len() as int), sep)
    } else if s.len() == 0 {
        seq![Seq::<char>::empty()]
    } else {
        let rest = spec_split(s.skip(1), sep);
        seq![seq![s[0]] + rest[0]] + rest.skip(1)
    }
}

pub proof fn lemma_split_len(s: Seq<char>, sep: Seq<char>)
    requires
        sep.len() > 0,
    ensures
        spec_split(s, sep).len() >= 1,
    decreases s.len(),
{
    if s.len() >= sep.len() && seq_match_at(s, sep, 0) {
        lemma_split_len(s.skip(sep.len() as int), sep);
    } else if s.len() == 0 {
    } else {
        lemma_split_len(s.skip(1), sep);
    }
}

pub fn split_str(s: &str, sep: &str) -> (r: Vec<String>)
    requires
        sep@.len() > 0,
    ensures
        r.deep_view() == spec_split(s@, sep@),
        r.len() >= 1,
{
    let n = s.unicode_len();
    let m = sep.unicode_len();
    let mut parts: Vec<String> = Vec::new();
    let mut cur: String = String::new();
    let mut i: usize = 0;
    proof {
        lemma_split_len(s@, sep@);
        let r = spec_split(s@.skip(0), sep@);
        assert(s@.skip(0) =~= s@);
        assert(cur@ + r[0] =~= r[0]);
        assert(parts.deep_view() + seq![cur@ + r[0]] + r.skip(1) =~= r);
    }
    while i < n
        invariant
            n == s@.len(),
            m == sep@.len(),
            m > 0,
            i <= n,
            ({
                let r = spec_split(s@.skip(i as int), sep@);
                spec_split(s@, sep@) == parts.deep_view() + seq![cur@ + r[0]] + r.skip(1)
            }),
        decreases n - i,
    {
        proof {
            lemma_split_len(s@.skip(i as int), sep@);
        }
        if m <= n - i && match_at(s, sep, i) {
            let ghost r = spec_split(s@.skip(i as int), sep@);
            let ghost r2 = spec_split(s@.skip(i + m), sep@);
            proof {
                assert(s@.skip(i as int).skip(m as int) =~= s@.skip(i + m));
                assert(seq_match_at(s@.skip(i as int), sep@, 0)) by {
                    assert(forall|j: int|
                        0 <= j < m ==> s@.skip(i as int)[j] == s@[i + j]);
                }
                assert(r == seq![Seq::<char>::empty()] + r2);
                assert(r[0] =~= Seq::<char>::empty());
                assert(cur@ + r[0] =~= cur@);
                assert(r.skip(1) =~= r2);
            }
            parts.push(cur);
            cur = String::new();
            i += m;
            proof {
                lemma_split_len(s@.skip(i as int), sep@);
                let rn = spec_split(s@.skip(i as int), sep@);
                assert(rn == r2);
                assert(parts.deep_view() + seq![cur@ + rn[0]] + rn.skip(1) =~= spec_split(
                    s@,
                    sep@,
                ));
            }
        } else {
            let ghost r = spec_split(s@.skip(i as int), sep@);
            let ghost r2 = spec_split(s@.skip(i + 1), sep@);
            let ghost oldcur = cur@;
            proof {
                assert(s@.skip(i as int).skip(1) =~= s@.skip(i + 1));
                assert(s@.skip(i as int).len() == n - i >= 1);
                assert(!(s@.skip(i as int).len() >= m && seq_match_at(
                    s@.skip(i as int),
                    sep@,
                    0,
                ))) by {
                    if s@.skip(i as int).len() >= m && seq_match_at(s@.skip(i as int), sep@, 0) {
                        assert(forall|j: int|
                            0 <= j < m ==> s@[i + j] == s@.skip(i as int)[j]);
                        assert(seq_match_at(s@, sep@, i as int));
                    }
                }
                lemma_split_len(s@.skip(i + 1), sep@);
                assert(s@.skip(i as int)[0] == s@[i as int]);
                assert(r == seq![seq![s@[i as int]] + r2[0]] + r2.skip(1));
            }
            let piece = s.substring_char(i, i + 1);
            proof {
                assert(piece@ =~= seq![s@[i as int]]);
            }
            cur.append(piece);
            i += 1;
            proof {
                let rn = spec_split(s@.skip(i as int), sep@);
                assert(rn == r2);
                assert(r[0] == seq![s@[i - 1]] + r2[0]);
                assert(cur@ + rn[0] =~= oldcur + r[0]);
                assert(r.skip(1) =~= r2.skip(1));
                assert(parts.deep_view() + seq![cur@ + rn[0]] + rn.skip(1) =~= spec_split(
                    s@,
                    sep@,
                ));
            }
        }
    }
    proof {
        let r = spec_split(s@.skip(i as int), sep@);
        assert(s@.skip(i as int) =~= Seq::<char>::empty());
        assert(r == seq![Seq::<char>::empty()]);
        assert(cur@ + r[0] =~= cur@);
        assert(r.skip(1) =~= Seq::<Seq<char>>::empty());
    }
    let ghost before = parts.deep_view();
    parts.push(cur);
    proof {
        assert(parts.deep_view() =~= spec_split(s@, sep@));
    }
    parts
}

// ---------------------------------------------------------------------------
// Replacement of every leftmost, non-overlapping occurrence of a pattern,
// as `str::replace` does.
// ---------------------------------------------------------------------------

pub open spec fn spec_replace(s: Seq<char>, pat: Seq<char>, rep: Seq<char>) -> Seq<char>
    decreases s.len(),
        when pat.len() > 0
{
    if s.len() >= pat.len() && seq_match_at(s, pat, 0) {
        rep + spec_replace(s.skip(pat.len() as int), pat, rep)
    } else if s.len() == 0 {
        Seq::<char>::empty()
    } else {
        seq![s[0]] + spec_replace(s.skip(1), pat, rep)
    }
}

pub fn replace_str(s: &str, pat: &str, rep: &str) -> (r: String)
    requires
        pat@.len() > 0,
    ensures
        r@ == spec_replace(s@, pat@, rep@),
{
    let n = s.unicode_len();
    let m = pat.unicode_len();
    let mut out: String = String::new();
    let mut i: usize = 0;
    proof {
        assert(s@.skip(0) =~= s@);
        assert(out@ + spec_replace(s@.skip(0), pat@, rep@) =~= spec_replace(s@, pat@, rep@));
    }
    while i < n
        invariant
            n == s@.len(),
            m == pat@.len(),
            m > 0,
            i <= n,
            spec_replace(s@, pat@, rep@) == out@ + spec_replace(s@.skip(i as int), pat@, rep@),
        decreases n - i,
    {
        if m <= n - i && match_at(s, pat, i) {
            proof {
                assert(s@.skip(i as int).skip(m as int) =~= s@.skip(i + m));
                assert(seq_match_at(s@.skip(i as int), pat@, 0)) by {
                    assert(forall|j: int|
                        0 <= j < m ==> s@.skip(i as int)[j] == s@[i + j]);
                }
            }
            out.append(rep);
            i += m;
            proof {
                assert(out@ + spec_replace(s@.skip(i as int), pat@, rep@) =~= spec_replace(
                    s@,
                    pat@,
                    rep@,
                ));
            }
        } else {
            proof {
                assert(s@.skip(i as int).skip(1) =~= s@.skip(i + 1));
                assert(s@.skip(i as int).len() == n - i >= 1);
                assert(!(s@.skip(i as int).len() >= m && seq_match_at(
                    s@.skip(i as int),
                    pat@,
                    0,
                ))) by {
                    if s@.skip(i as int).len() >= m && seq_match_at(s@.skip(i as int), pat@, 0) {
                        assert(forall|j: int|
                            0 <= j < m ==> s@[i + j] == s@.skip(i as int)[j]);
                        assert(seq_match_at(s@, pat@, i as int));
                    }
                }
                assert(s@.skip(i as int)[0] == s@[i as int]);
            }
            let piece = s.substring_char(i, i + 1);
            proof {
                assert(piece@ =~= seq![s@[i as int]]);
            }
            out.append(piece);
            i += 1;
            proof {
                assert(out@ + spec_replace(s@.skip(i as int), pat@, rep@) =~= spec_replace(
                    s@,
                    pat@,
                    rep@,
                ));
            }
        }
    }
    proof {
        assert(s@.skip(i as int) =~= Seq::<char>::empty());
        assert(out@ + spec_replace(s@.skip(i as int), pat@, rep@) =~= out@);
    }
    out
}

// ---------------------------------------------------------------------------
// Line splitting, as `str::lines` does: parts between '\n' separators, a
// '\r' before the separator stripped, and no final empty line when the
// text ends with a separator.
// ---------------------------------------------------------------------------

pub open spec fn strip_cr(p: Seq<char>) -> Seq<char> {
    if p.len() > 0 && p.last() == '\r' {
        p.drop_last()
    } else {
        p
    }
}

pub open spec fn spec_lines(s: Seq<char>) -> Seq<Seq<char>> {
    let parts = spec_split(s, seq!['\n']);
    let ended = parts.len() > 0 && parts.last().len() == 0;
    let kept = if ended {
        parts.drop_last()
    } else {
        parts
    };
    Seq::new(
        kept.len(),
        |i: int|
            if ended || i < kept.len() - 1 {
                strip_cr(kept[i])
            } else {
                kept[i]
            },
    )
}

pub fn lines_of(s: &str) -> (r: Vec<String>)
    ensures
        r.deep_view() == spec_lines(s@),
{
    let sep = "\n";
    proof {
        reveal_strlit("\n");
        assert(sep@ =~= seq!['\n']);
    }
    let mut parts = split_str(s, sep);
    let ended = parts[parts.len() - 1].as_str().is_empty();
    if ended {
        let _ = parts.pop();
    }
    let n = parts.len();
    let mut out: Vec<String> = Vec::new();
    let mut i: usize = 0;
    while i < n
        invariant
            n == parts.len(),
            i <= n,
            out.len() == i,
            spec_lines(s@).len() == n,
            forall|j: int| 0 <= j < i ==> out@[j]@ == spec_lines(s@)[j],
            ({
                let all = spec_split(s@, seq!['\n']);
                let e2 = all.len() > 0 && all.last().len() == 0;
                ended == e2 && parts.deep_view() == (if e2 {
                    all.drop_last()
                } else {
                    all
                })
            }),
        decreases n - i,
    {
        let p = &parts[i];
        let plen = p.as_str().unicode_len();
        let strip = (ended || i < n - 1) && plen > 0 && {
            let c = p.as_str().get_char(plen - 1);
            c == '\r'
        };
        proof {
            assert(parts.deep_view()[i as int] == parts@[i as int]@);
        }
        if strip {
            let q = p.as_str().substring_char(0, plen - 1);
            proof {
                assert(q@ =~= parts.deep_view()[i as int].drop_last());
            }
            out.push(q.to_owned());
        } else {
            out.push(p.clone());
        }
        proof {
            let lv = spec_lines(s@);
            assert(out@[i as int]@ == lv[i as int]) by {
                if ended || i < n - 1 {
                    assert(lv[i as int] == strip_cr(parts.deep_view()[i as int]));
                } else {
                    assert(lv[i as int] == parts.deep_view()[i as int]);
                }
            }
        }
        i += 1;
    }
    proof {
        assert forall|j: int| 0 <= j < n implies out.deep_view()[j] == spec_lines(s@)[j] by {
            assert(out.deep_view()[j] == out@[j]@);
        }
        assert(out.deep_view() =~= spec_lines(s@));
    }
    out
}

// ---------------------------------------------------------------------------
// Signed decimal integers, as `str::parse::<i32>` accepts them: an
// optional sign, then one or more ASCII digits, and a value within range.
// ---------------------------------------------------------------------------

pub open spec fn is_digit_char(c: char) -> bool {
    48 <= (c as u32) && (c as u32) <= 57
}

pub open spec fn dec_val(s: Seq<char>) -> int
    decreases s.len(),
{
    if s.len() == 0 {
        0
    } else {
        dec_val(s.drop_last()) * 10 + ((s.last() as u32) - 48)
    }
}

pub open spec fn all_digits(s: Seq<char>) -> bool {
    forall|i: int| 0 <= i < s.len() ==> is_digit_char(s[i])
}

/// The argument without its sign character, if one is present.
pub open spec fn int_body(s: Seq<char>) -> Seq<char> {
    if s.len() > 0 && (s[0] == '+' || s[0] == '-') {
        s.skip(1)
    } else {
        s
    }
}

pub open spec fn is_int_literal(s: Seq<char>) -> bool {
    int_body(s).len() > 0 && all_digits(int_body(s))
}

pub open spec fn int_of(s: Seq<char>) -> int {
    if s.len() > 0 && s[0] == '-' {
        -dec_val(int_body(s))
    } else {
        dec_val(int_body(s))
    }
}

pub open spec fn parses_as_i32(s: Seq<char>) -> bool {
    is_int_literal(s) && -2147483648 <= int_of(s) <= 2147483647
}

pub proof fn lemma_dec_val_nonneg(s: Seq<char>)
    requires
        all_digits(s),
    ensures
        dec_val(s) >= 0,
    decreases s.len(),
{
    if s.len() > 0 {
        assert(all_digits(s.drop_last())) by {
            assert(forall|i: int| 0 <= i < s.len() - 1 ==> s.drop_last()[i] == s[i]);
        }
        lemma_dec_val_nonneg(s.drop_last());
    }
}

pub fn parse_i32(s: &str) -> (r: Option<i32>)
    ensures
        r is Some <==> parses_as_i32(s@),
        r is Some ==> r->0 as int == int_of(s@),
{
    let n = s.unicode_len();
    if n == 0 {
        return None;
    }
    let c0 = s.get_char(0);
    let neg = c0 == '-';
    let signed = neg || c0 == '+';
    let start: usize = if signed {
        1
    } else {
        0
    };
    let ghost body = int_body(s@);
    proof {
        assert(signed ==> body =~= s@.skip(1));
        assert(!signed ==> body == s@);
        assert(body.len() == n - start);
        assert(forall|j: int| 0 <= j < body.len() ==> body[j] == s@[start + j]);
    }
    if n == start {
        return None;
    }
    let mut acc: u64 = 0;
    let mut over: bool = false;
    let mut i: usize = start;
    while i < n
        invariant
            n == s@.len(),
            start <= i <= n,
            start <= 1,
            body == int_body(s@),
            body.len() == n - start,
            forall|j: int| 0 <= j < body.len() ==> body[j] == s@[start + j],
            all_digits(body.take(i - start)),
            !over ==> acc == dec_val(body.take(i - start)) && acc <= 21474836489,
            over ==> dec_val(body.take(i - start)) >= 2147483649,
        decreases n - i,
    {
        let c = s.get_char(i);
        let u = c as u32;
        if u < 48 || u > 57 {
            proof {
                assert(body[i - start] == s@[i as int]);
                assert(!is_digit_char(body[i - start]));
                assert(!all_digits(body));
            }
            return None;
        }
        let d: u64 = (u - 48) as u64;
        let ghost pre = body.take(i - start);
        let ghost post = body.take(i + 1 - start);
        proof {
            assert(post.drop_last() =~= pre);
            assert(post.last() == body[i - start] && body[i - start] == s@[i as int]);
            assert(dec_val(post) == dec_val(pre) * 10 + d);
            assert(all_digits(post)) by {
                assert(forall|j: int| 0 <= j < post.len() - 1 ==> post[j] == pre[j]);
            }
        }
        if over {
            proof {
                lemma_dec_val_nonneg(pre);
                assert(dec_val(post) >= dec_val(pre));
            }
        } else if acc > 2147483648 {
            over = true;
            proof {
                lemma_dec_val_nonneg(pre);
                assert(dec_val(post) >= dec_val(pre));
            }
        } else {
            acc = acc * 10 + d;
        }
        i += 1;
    }
    proof {
        assert(body.take(i - start) =~= body);
        assert(is_int_literal(s@));
        if s@[0] == '-' {
            assert(neg);
        }
        assert(int_of(s@) == if neg {
            -dec_val(body)
        } else {
            dec_val(body)
        });
    }
    if over {
        return None;
    }
    if neg {
        if acc > 2147483648 {
            return None;
        }
        if acc == 2147483648 {
            return Some(i32::MIN);
        }
        return Some(-(acc as i32));
    }
    if acc > 2147483647 {
        return None;
    }
    Some(acc as i32)
}

// ---------------------------------------------------------------------------
// Lowercasing. What `str::to_lowercase` returns depends on the characters
// alone, but stating it takes the Unicode tables; the result is therefore
// only named here, and every contract that involves case-insensitivity
// speaks through that name.
// ---------------------------------------------------------------------------

pub uninterp spec fn lower_of(s: Seq<char>) -> Seq<char>;

/// Relies on `str::to_lowercase`: the lowercase equivalent of the string,
/// per the Unicode `Lowercase` property; the empty string stays empty.
#[verifier::external_body]
pub fn to_lower(s: &str) -> (r: String)
    ensures
        r@ == lower_of(s@),
        s@.len() == 0 ==> r@.len() == 0,
{
    s.to_lowercase()
}

/// Case-insensitive equality, the way the matchers use it: both sides
/// lowercased, then compared.
pub open spec fn spec_eq_ci(a: Seq<char>, b: Seq<char>) -> bool {
    lower_of(a) == lower_of(b)
}

pub fn eq_ci(a: &str, b: &str) -> (r: bool)
    ensures
        r == spec_eq_ci(a@, b@),
{
    let la = to_lower(a);
    let lb = to_lower(b);
    str_eq(la.as_str(), lb.as_str())
}

} // verus!
