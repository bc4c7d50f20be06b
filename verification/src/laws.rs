//! The library's stated laws: case-insensitivity of matching, the
//! prefix/suffix operator readings, the deliberate `#>` / `#>=`
//! equivalence, the Missing-rule bucket count, and the round trip
//! between boolean evaluation and matched-conditions rendering.

use vstd::prelude::*;
use crate::analysis::{
    spec_apply_rule, spec_missing_entry, spec_parse_rule, spec_rule_satisfied, BucketsV, RuleTag,
};
use crate::gpo::{
    link_pred, pol_pred, spec_filters_contain, spec_link_idx, spec_pol_idx, GroupPolicyV,
};
use crate::matcher::{lemma_first_idx, spec_field_match, spec_perm_match, spec_setting_match};
use crate::query::{
    join_del_matches, join_filter_matches, join_pol_matches, pol_render_pred, spec_cond,
    spec_del_entry_match, spec_policy_query, spec_query, spec_render,
};
use crate::render::{render_delegation, render_link, render_policy};
use crate::text::{
    is_ws_char, lemma_trim_nonempty, lemma_ws_suffix, lower_of, parses_as_i32, seq_starts_with,
    seq_ends_with, spec_split, spec_trim, ws_suffix_len,
};

verus! {

// ---------------------------------------------------------------------------
// Case-insensitivity.
// ---------------------------------------------------------------------------

/// Field matching reads the candidate only through its lowercase form:
/// two candidates with the same lowercase form match the same arguments.
pub proof fn law_field_match_case_insensitive(a: Seq<char>, c1: Seq<char>, c2: Seq<char>)
    requires
        lower_of(c1) == lower_of(c2),
    ensures
        spec_field_match(a, c1) == spec_field_match(a, c2),
{
}

/// The same for permission-list matching.
pub proof fn law_perm_match_case_insensitive(a: Seq<char>, c1: Seq<char>, c2: Seq<char>)
    requires
        lower_of(c1) == lower_of(c2),
    ensures
        spec_perm_match(a, c1) == spec_perm_match(a, c2),
{
}

/// An argument in one of the four numeric forms.
pub open spec fn numeric_form(arg: Seq<char>) -> bool {
    ||| (arg.len() >= 3 && arg[0] == '#' && arg[1] == '>' && arg[2] == '=' && parses_as_i32(
        arg.skip(3),
    ))
    ||| (arg.len() >= 2 && arg[0] == '#' && arg[1] == '>' && parses_as_i32(arg.skip(2)))
    ||| (arg.len() >= 3 && arg[0] == '#' && arg[1] == '<' && arg[2] == '=' && parses_as_i32(
        arg.skip(3),
    ))
    ||| (arg.len() >= 2 && arg[0] == '#' && arg[1] == '<' && parses_as_i32(arg.skip(2)))
}

/// Setting matching is case-insensitive in the candidate for every
/// argument outside the numeric forms, which compare digits instead.
pub proof fn law_setting_match_case_insensitive(a: Seq<char>, c1: Seq<char>, c2: Seq<char>)
    requires
        !numeric_form(a),
        lower_of(c1) == lower_of(c2),
    ensures
        spec_setting_match(a, c1) == spec_setting_match(a, c2),
{
}

/// The matcher also reads a plain (operator-free) argument only through
/// its lowercase form.
pub proof fn law_arg_case_insensitive(a1: Seq<char>, a2: Seq<char>, c: Seq<char>)
    requires
        a1.len() > 0 ==> a1[0] != '>' && a1[0] != '<',
        a2.len() > 0 ==> a2[0] != '>' && a2[0] != '<',
        lower_of(a1) == lower_of(a2),
    ensures
        spec_field_match(a1, c) == spec_field_match(a2, c),
{
}

// ---------------------------------------------------------------------------
// The operator readings.
// ---------------------------------------------------------------------------

/// A `<`-tagged argument matches exactly when the lowercased candidate
/// starts with the lowercased remainder.
pub proof fn law_prefix_operator(x: Seq<char>, c: Seq<char>)
    ensures
        spec_field_match(seq!['<'] + x, c) == seq_starts_with(lower_of(c), lower_of(x)),
{
    let a = seq!['<'] + x;
    assert(a[0] == '<');
    assert(a.skip(1) =~= x);
}

/// A `>`-tagged argument matches exactly when the lowercased candidate
/// ends with the lowercased remainder.
pub proof fn law_suffix_operator(x: Seq<char>, c: Seq<char>)
    ensures
        spec_field_match(seq!['>'] + x, c) == seq_ends_with(lower_of(c), lower_of(x)),
{
    let a = seq!['>'] + x;
    assert(a[0] == '>');
    assert(a.skip(1) =~= x);
}

/// The deliberate asymmetry: `#>` compares strictly, exactly as `#>=`
/// does, for every numeric argument. Rule files were authored against
/// this behaviour, so it is stated rather than corrected.
pub proof fn law_gt_ge_equivalent(nrep: Seq<char>, c: Seq<char>)
    requires
        parses_as_i32(nrep),
    ensures
        spec_setting_match(seq!['#', '>', '='] + nrep, c) == spec_setting_match(
            seq!['#', '>'] + nrep,
            c,
        ),
{
    let age = seq!['#', '>', '='] + nrep;
    let agt = seq!['#', '>'] + nrep;
    assert(age.skip(3) =~= nrep);
    assert(agt.skip(2) =~= nrep);
    assert(age[0] == '#' && age[1] == '>' && age[2] == '=');
    assert(agt[0] == '#' && agt[1] == '>');
    if agt.len() >= 3 && agt[2] == '=' {
        assert(nrep[0] == '=');
        assert(crate::text::int_body(nrep) == nrep);
        assert(crate::text::is_digit_char(nrep[0]));
    }
}

// ---------------------------------------------------------------------------
// The Missing bucket.
// ---------------------------------------------------------------------------

/// A rule tagged Missing adds nothing when some record satisfies it,
/// and exactly one entry — with the other buckets untouched — when no
/// record does.
pub proof fn law_missing_rule(
    b: BucketsV,
    source: Seq<char>,
    line: Seq<char>,
    records: Seq<GroupPolicyV>,
)
    requires
        spec_parse_rule(line) is Some,
        spec_parse_rule(line)->0.tag == RuleTag::Missing,
    ensures
        ({
            let rule = spec_parse_rule(line)->0;
            let after = spec_apply_rule(b, source, line, records);
            let satisfied = exists|i: int|
                0 <= i < records.len() && spec_rule_satisfied(records[i], rule.conditions);
            &&& satisfied ==> after == b
            &&& !satisfied ==> after.missing == b.missing.push(
                spec_missing_entry(source, rule.conditions),
            ) && after.desirable == b.desirable && after.undesirable == b.undesirable
                && after.warning == b.warning
        }),
{
}

// ---------------------------------------------------------------------------
// The round trip between evaluation and rendering.
// ---------------------------------------------------------------------------

proof fn lemma_render_link_has_ink(l: crate::gpo::LinkV)
    ensures
        exists|j: int|
            0 <= j < render_link(l).len() && !is_ws_char(#[trigger] render_link(l)[j]),
{
    reveal_strlit("L:");
    let y = "L:"@ + l.location + ":"@ + "S:"@ + l.status + " "@;
    assert(y[0] == 'L');
    assert(!is_ws_char('L'));
    lemma_ws_suffix(y);
    assert(ws_suffix_len(y) < y.len()) by {
        if ws_suffix_len(y) == y.len() {
            assert(is_ws_char(y[0]));
        }
    }
    assert(render_link(l)[0] == y[0]);
    assert(!is_ws_char(render_link(l)[0]));
}

proof fn lemma_render_policy_has_ink(p: crate::gpo::PolicyV)
    ensures
        exists|j: int|
            0 <= j < render_policy(p).len() && !is_ws_char(#[trigger] render_policy(p)[j]),
{
    reveal_strlit("Policy: ");
    let y = "Policy: "@ + p.value + " | Settings: "@ + crate::render::join_sp(p.setting);
    assert(y[0] == 'P');
    assert(!is_ws_char('P'));
    lemma_ws_suffix(y);
    assert(ws_suffix_len(y) < y.len()) by {
        if ws_suffix_len(y) == y.len() {
            assert(is_ws_char(y[0]));
        }
    }
    assert(render_policy(p)[0] == y[0]);
    assert(!is_ws_char(render_policy(p)[0]));
}

proof fn lemma_render_delegation_has_ink(d: crate::gpo::DelegationV)
    ensures
        exists|j: int|
            0 <= j < render_delegation(d).len() && !is_ws_char(
                #[trigger] render_delegation(d)[j],
            ),
{
    reveal_strlit("\tName: ");
    assert(render_delegation(d)[1] == 'N');
    assert(!is_ws_char('N'));
}

proof fn lemma_join_filter_empty(fs: Seq<Seq<char>>, arg: Seq<char>)
    requires
        forall|i: int| 0 <= i < fs.len() ==> !spec_field_match(arg, fs[i]),
    ensures
        join_filter_matches(fs, arg).len() == 0,
    decreases fs.len(),
{
    if fs.len() > 0 {
        assert(forall|i: int| 0 <= i < fs.len() - 1 ==> fs.skip(1)[i] == fs[i + 1]);
        lemma_join_filter_empty(fs.skip(1), arg);
    }
}

proof fn lemma_join_filter_has_ink(fs: Seq<Seq<char>>, arg: Seq<char>, i: int)
    requires
        0 <= i < fs.len(),
        spec_field_match(arg, fs[i]),
        exists|j: int| 0 <= j < fs[i].len() && !is_ws_char(#[trigger] fs[i][j]),
    ensures
        exists|j: int|
            0 <= j < join_filter_matches(fs, arg).len() && !is_ws_char(
                #[trigger] join_filter_matches(fs, arg)[j],
            ),
    decreases i,
{
    let whole = join_filter_matches(fs, arg);
    if i == 0 {
        let j = choose|j: int| 0 <= j < fs[0].len() && !is_ws_char(#[trigger] fs[0][j]);
        assert(whole[j] == fs[0][j]);
        assert(!is_ws_char(whole[j]));
    } else {
        assert(fs.skip(1)[i - 1] == fs[i]);
        lemma_join_filter_has_ink(fs.skip(1), arg, i - 1);
        let rest = join_filter_matches(fs.skip(1), arg);
        let j = choose|j: int| 0 <= j < rest.len() && !is_ws_char(#[trigger] rest[j]);
        let head: Seq<char> = if spec_field_match(arg, fs[0]) {
            fs[0]
        } else {
            Seq::empty()
        };
        assert(whole == head + rest);
        assert(whole[head.len() + j] == rest[j]);
        assert(!is_ws_char(whole[head.len() + j]));
    }
}

proof fn lemma_join_del_empty(
    ds: Seq<crate::gpo::DelegationV>,
    name: Seq<char>,
    perm: Seq<char>,
    inh: Seq<char>,
)
    requires
        forall|i: int| 0 <= i < ds.len() ==> !spec_del_entry_match(ds[i], name, perm, inh),
    ensures
        join_del_matches(ds, name, perm, inh).len() == 0,
    decreases ds.len(),
{
    if ds.len() > 0 {
        assert(forall|i: int| 0 <= i < ds.len() - 1 ==> ds.skip(1)[i] == ds[i + 1]);
        lemma_join_del_empty(ds.skip(1), name, perm, inh);
    }
}

proof fn lemma_join_del_has_ink(
    ds: Seq<crate::gpo::DelegationV>,
    name: Seq<char>,
    perm: Seq<char>,
    inh: Seq<char>,
    i: int,
)
    requires
        0 <= i < ds.len(),
        spec_del_entry_match(ds[i], name, perm, inh),
    ensures
        exists|j: int|
            0 <= j < join_del_matches(ds, name, perm, inh).len() && !is_ws_char(
                #[trigger] join_del_matches(ds, name, perm, inh)[j],
            ),
    decreases i,
{
    let whole = join_del_matches(ds, name, perm, inh);
    if i == 0 {
        lemma_render_delegation_has_ink(ds[0]);
        let seg = render_delegation(ds[0]) + "\n"@;
        let j = choose|j: int|
            0 <= j < render_delegation(ds[0]).len() && !is_ws_char(
                #[trigger] render_delegation(ds[0])[j],
            );
        assert(seg[j] == render_delegation(ds[0])[j]);
        assert(whole[j] == seg[j]);
        assert(!is_ws_char(whole[j]));
    } else {
        assert(ds.skip(1)[i - 1] == ds[i]);
        lemma_join_del_has_ink(ds.skip(1), name, perm, inh, i - 1);
        let rest = join_del_matches(ds.skip(1), name, perm, inh);
        let j = choose|j: int| 0 <= j < rest.len() && !is_ws_char(#[trigger] rest[j]);
        let head: Seq<char> = if spec_del_entry_match(ds[0], name, perm, inh) {
            render_delegation(ds[0]) + "\n"@
        } else {
            Seq::empty()
        };
        assert(whole == head + rest);
        assert(whole[head.len() + j] == rest[j]);
        assert(!is_ws_char(whole[head.len() + j]));
    }
}

proof fn lemma_join_pol_has_ink(
    ps: Seq<crate::gpo::PolicyV>,
    value: Seq<char>,
    setting: Seq<char>,
    i: int,
)
    requires
        0 <= i < ps.len(),
        spec_field_match(value, ps[i].value),
        pol_render_pred(ps[i], setting),
    ensures
        exists|j: int|
            0 <= j < join_pol_matches(ps, value, setting).len() && !is_ws_char(
                #[trigger] join_pol_matches(ps, value, setting)[j],
            ),
    decreases i,
{
    let whole = join_pol_matches(ps, value, setting);
    if i == 0 {
        lemma_render_policy_has_ink(ps[0]);
        let seg = render_policy(ps[0]) + "\n\t"@;
        let j = choose|j: int|
            0 <= j < render_policy(ps[0]).len() && !is_ws_char(#[trigger] render_policy(ps[0])[j]);
        assert(seg[j] == render_policy(ps[0])[j]);
        assert(whole[j] == seg[j]);
        assert(!is_ws_char(whole[j]));
    } else {
        assert(ps.skip(1)[i - 1] == ps[i]);
        lemma_join_pol_has_ink(ps.skip(1), value, setting, i - 1);
        let rest = join_pol_matches(ps.skip(1), value, setting);
        let j = choose|j: int| 0 <= j < rest.len() && !is_ws_char(#[trigger] rest[j]);
        let head: Seq<char> = if spec_field_match(value, ps[0].value) && pol_render_pred(
            ps[0],
            setting,
        ) {
            render_policy(ps[0]) + "\n\t"@
        } else {
            Seq::empty()
        };
        assert(whole == head + rest);
        assert(whole[head.len() + j] == rest[j]);
        assert(!is_ws_char(whole[head.len() + j]));
    }
}

/// The round trip: rendering a condition's matched values yields
/// non-empty text exactly when the boolean query holds. Stated for
/// records whose name, owner and filtering entries do not consist of
/// whitespace alone — a rendering of such a field trims to nothing,
/// and the correspondence cannot hold there.
pub proof fn law_render_round_trip(g: GroupPolicyV, q: Seq<char>)
    requires
        spec_trim(g.name).len() > 0,
        spec_trim(g.details.owner).len() > 0,
        forall|i: int| 0 <= i < g.filtering.len() ==> spec_trim(#[trigger] g.filtering[i]).len()
            > 0,
    ensures
        spec_query(g, q) <==> spec_render(g, q).len() > 0,
{
    let c = spec_cond(q);
    if c.len() > 0 {
        let parts = spec_split(c, "::"@);
        if parts.len() == 2 && lower_of(parts[0]) == "links"@ {
            let idx = spec_link_idx(g.links, parts[1]);
            if idx != -1 {
                lemma_first_idx(g.links, link_pred(parts[1]));
                lemma_render_link_has_ink(g.links[idx]);
                lemma_trim_nonempty(render_link(g.links[idx]));
            }
        } else if parts.len() == 2 && lower_of(parts[0]) == "filtering"@ {
            let arg = parts[1];
            let joined = join_filter_matches(g.filtering, arg);
            if spec_filters_contain(g.filtering, arg) {
                let i = choose|i: int|
                    0 <= i < g.filtering.len() && spec_field_match(arg, #[trigger] g.filtering[i]);
                lemma_trim_nonempty(g.filtering[i]);
                lemma_join_filter_has_ink(g.filtering, arg, i);
                lemma_trim_nonempty(joined);
            } else {
                lemma_join_filter_empty(g.filtering, arg);
                lemma_trim_nonempty(joined);
            }
        } else if parts.len() == 4 && lower_of(parts[0]) == "delegation"@ {
            let name = parts[1];
            let perm = parts[2];
            let inh = parts[3];
            if name.len() > 0 && perm.len() > 0 {
                let joined = join_del_matches(g.delegation, name, perm, inh);
                if exists|i: int|
                    0 <= i < g.delegation.len() && spec_del_entry_match(
                        #[trigger] g.delegation[i],
                        name,
                        perm,
                        inh,
                    ) {
                    let i = choose|i: int|
                        0 <= i < g.delegation.len() && spec_del_entry_match(
                            #[trigger] g.delegation[i],
                            name,
                            perm,
                            inh,
                        );
                    lemma_join_del_has_ink(g.delegation, name, perm, inh, i);
                    lemma_trim_nonempty(joined);
                } else {
                    lemma_join_del_empty(g.delegation, name, perm, inh);
                    lemma_trim_nonempty(joined);
                }
            }
        } else if parts.len() == 3 && lower_of(parts[0]) == "policy"@ {
            let value = parts[1];
            let setting = parts[2];
            if spec_policy_query(g.policies, value, setting) {
                let idx = spec_pol_idx(g.policies, value);
                lemma_first_idx(g.policies, pol_pred(value));
                assert(spec_field_match(value, g.policies[idx].value));
                assert(pol_render_pred(g.policies[idx], setting));
                lemma_join_pol_has_ink(g.policies, value, setting, idx);
                lemma_trim_nonempty(join_pol_matches(g.policies, value, setting));
            }
        }
    }
}

} // verus!
