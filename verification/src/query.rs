//! The query evaluator: one condition string — an optional `//` comment
//! stripped, the remainder trimmed — interpreted as
//! `Keyword::arg[::arg2[::arg3]]` and dispatched to the field matcher.
//! A malformed condition never matches; it is not an error.

use vstd::prelude::*;
use vstd::string::StrSliceExecFns;
use crate::gpo::{
    spec_filters_contain, spec_is_yes, spec_link_idx, spec_perms_contain, spec_pol_idx,
    spec_settings_contain, Delegation, DelegationV, GroupPolicy, GroupPolicyV,
};
use crate::matcher::spec_field_match;
use crate::text::{
    lower_of, spec_eq_ci, spec_split, spec_trim, split_str, str_eq, to_lower, trim,
};

verus! {

// ---------------------------------------------------------------------------
// Condition decomposition.
// ---------------------------------------------------------------------------

/// Everything after the first `//` is a comment and is discarded.
pub open spec fn before_comment(q: Seq<char>) -> Seq<char> {
    spec_split(q, "//"@)[0]
}

/// The condition proper: the comment stripped, the rest trimmed.
pub open spec fn spec_cond(q: Seq<char>) -> Seq<char> {
    spec_trim(before_comment(q))
}

/// One delegation entry satisfies the three-argument delegation query:
/// its name and permission list both match, and, when the inheritance
/// argument is non-empty, the entry's flag agrees with the argument's
/// yes/no polarity.
pub open spec fn spec_del_entry_match(
    d: DelegationV,
    name: Seq<char>,
    perm: Seq<char>,
    inh: Seq<char>,
) -> bool {
    &&& spec_field_match(name, d.name)
    &&& spec_perms_contain(d.permissions, perm)
    &&& (inh.len() == 0 || (if spec_is_yes(inh) {
        spec_is_yes(d.inherited)
    } else {
        !spec_is_yes(d.inherited)
    }))
}

/// The delegation query: both name and permission arguments must be
/// non-empty, and some entry satisfies all three checks at once.
pub open spec fn spec_delegation_query(
    dels: Seq<DelegationV>,
    name: Seq<char>,
    perm: Seq<char>,
    inh: Seq<char>,
) -> bool {
    name.len() > 0 && perm.len() > 0 && exists|i: int|
        0 <= i < dels.len() && spec_del_entry_match(dels[i], name, perm, inh)
}

/// The policy query, against the first policy whose value matches: a
/// `!`-prefixed setting negates the membership test; an empty setting
/// asks only that the policy exist.
pub open spec fn spec_policy_query(
    pols: Seq<crate::gpo::PolicyV>,
    value: Seq<char>,
    setting: Seq<char>,
) -> bool {
    let idx = spec_pol_idx(pols, value);
    if setting.len() > 0 && setting[0] == '!' {
        idx != -1 && !spec_settings_contain(pols[idx].setting, setting.skip(1))
    } else {
        (idx != -1 && spec_settings_contain(pols[idx].setting, setting)) || (setting.len() == 0
            && idx != -1)
    }
}

/// What one condition string asks of one record.
pub open spec fn spec_query(g: GroupPolicyV, q: Seq<char>) -> bool {
    let c = spec_cond(q);
    if c.len() == 0 {
        false
    } else {
        let parts = spec_split(c, "::"@);
        if parts.len() == 2 && lower_of(parts[0]) == "name"@ {
            spec_eq_ci(g.name, parts[1])
        } else if parts.len() == 2 && lower_of(parts[0]) == "details"@ {
            let arg = parts[1];
            if arg.len() > 0 && arg[0] == '!' {
                !spec_field_match(arg.skip(1), g.details.owner)
            } else {
                spec_field_match(arg, g.details.owner)
            }
        } else if parts.len() == 2 && lower_of(parts[0]) == "links"@ {
            spec_link_idx(g.links, parts[1]) != -1
        } else if parts.len() == 2 && lower_of(parts[0]) == "filtering"@ {
            spec_filters_contain(g.filtering, parts[1])
        } else if parts.len() == 4 && lower_of(parts[0]) == "delegation"@ {
            spec_delegation_query(g.delegation, parts[1], parts[2], parts[3])
        } else if parts.len() == 3 && lower_of(parts[0]) == "policy"@ {
            spec_policy_query(g.policies, parts[1], parts[2])
        } else {
            false
        }
    }
}

// ---------------------------------------------------------------------------
// Matched-conditions rendering: the same dispatch, returning the matched
// textual values instead of a boolean; non-empty exactly when the
// condition matches, up to all-whitespace stored values.
// ---------------------------------------------------------------------------

/// The filtering entries that match, concatenated.
pub open spec fn join_filter_matches(fs: Seq<Seq<char>>, arg: Seq<char>) -> Seq<char>
    decreases fs.len(),
{
    if fs.len() == 0 {
        Seq::empty()
    } else {
        (if spec_field_match(arg, fs[0]) {
            fs[0]
        } else {
            Seq::empty()
        }) + join_filter_matches(fs.skip(1), arg)
    }
}

/// The delegation lines for the entries that satisfy the query.
pub open spec fn join_del_matches(
    ds: Seq<DelegationV>,
    name: Seq<char>,
    perm: Seq<char>,
    inh: Seq<char>,
) -> Seq<char>
    decreases ds.len(),
{
    if ds.len() == 0 {
        Seq::empty()
    } else {
        (if spec_del_entry_match(ds[0], name, perm, inh) {
            crate::render::render_delegation(ds[0]) + "\n"@
        } else {
            Seq::empty()
        }) + join_del_matches(ds.skip(1), name, perm, inh)
    }
}

/// The setting-side condition one rendered policy entry must satisfy.
pub open spec fn pol_render_pred(p: crate::gpo::PolicyV, setting: Seq<char>) -> bool {
    if setting.len() > 0 && setting[0] == '!' {
        !spec_settings_contain(p.setting, setting.skip(1))
    } else {
        setting.len() == 0 || spec_settings_contain(p.setting, setting)
    }
}

/// The policy lines for the entries whose value matches and whose
/// settings satisfy the setting argument.
pub open spec fn join_pol_matches(
    ps: Seq<crate::gpo::PolicyV>,
    value: Seq<char>,
    setting: Seq<char>,
) -> Seq<char>
    decreases ps.len(),
{
    if ps.len() == 0 {
        Seq::empty()
    } else {
        (if spec_field_match(value, ps[0].value) && pol_render_pred(ps[0], setting) {
            crate::render::render_policy(ps[0]) + "\n\t"@
        } else {
            Seq::empty()
        }) + join_pol_matches(ps.skip(1), value, setting)
    }
}

/// The text that rendering the matched values of one condition yields.
pub open spec fn spec_render(g: GroupPolicyV, q: Seq<char>) -> Seq<char> {
    let c = spec_cond(q);
    if c.len() == 0 {
        Seq::empty()
    } else {
        let parts = spec_split(c, "::"@);
        if parts.len() == 2 && lower_of(parts[0]) == "name"@ {
            if spec_eq_ci(g.name, parts[1]) {
                spec_trim(g.name)
            } else {
                Seq::empty()
            }
        } else if parts.len() == 2 && lower_of(parts[0]) == "details"@ {
            let arg = parts[1];
            let m = if arg.len() > 0 && arg[0] == '!' {
                !spec_field_match(arg.skip(1), g.details.owner)
            } else {
                spec_field_match(arg, g.details.owner)
            };
            if m {
                spec_trim(g.details.owner)
            } else {
                Seq::empty()
            }
        } else if parts.len() == 2 && lower_of(parts[0]) == "links"@ {
            let idx = spec_link_idx(g.links, parts[1]);
            if idx != -1 {
                spec_trim(crate::render::render_link(g.links[idx]))
            } else {
                Seq::empty()
            }
        } else if parts.len() == 2 && lower_of(parts[0]) == "filtering"@ {
            spec_trim(join_filter_matches(g.filtering, parts[1]))
        } else if parts.len() == 4 && lower_of(parts[0]) == "delegation"@ {
            if parts[1].len() > 0 && parts[2].len() > 0 {
                spec_trim(join_del_matches(g.delegation, parts[1], parts[2], parts[3]))
            } else {
                Seq::empty()
            }
        } else if parts.len() == 3 && lower_of(parts[0]) == "policy"@ {
            if spec_policy_query(g.policies, parts[1], parts[2]) {
                spec_trim(join_pol_matches(g.policies, parts[1], parts[2]))
            } else {
                Seq::empty()
            }
        } else {
            Seq::empty()
        }
    }
}

// ---------------------------------------------------------------------------
// Exec evaluation.
// ---------------------------------------------------------------------------

/// Whether one delegation entry satisfies the three-argument query.
fn del_entry_match(d: &Delegation, name: &str, perm: &str, inh: &str) -> (r: bool)
    ensures
        r == spec_del_entry_match(d@, name@, perm@, inh@),
{
    if !d.is_name(name) {
        return false;
    }
    if !d.contains_permission(perm) {
        return false;
    }
    if inh.is_empty() {
        return true;
    }
    let li = to_lower(inh);
    if str_eq(li.as_str(), "yes") {
        d.is_inherited()
    } else {
        !d.is_inherited()
    }
}

impl GroupPolicy {
    /// Evaluates one condition string against this record. A condition
    /// that is empty after comment removal, names no known field, or
    /// carries the wrong argument count never matches.
    pub fn query_gpo(&self, gpo_query_string: &str) -> (r: bool)
        ensures
            r == spec_query(self@, gpo_query_string@),
    {
        proof {
            reveal_strlit("//");
            reveal_strlit("::");
        }
        let commentless = split_str(gpo_query_string, "//");
        proof {
            assert(commentless.deep_view()[0] == commentless@[0]@);
        }
        let cond = trim(commentless[0].as_str());
        let ghost c = spec_cond(gpo_query_string@);
        proof {
            assert(cond@ == c);
        }
        if cond.is_empty() {
            return false;
        }
        let parts = split_str(cond, "::");
        proof {
            assert(parts.deep_view() == spec_split(c, "::"@));
            assert(parts.deep_view()[0] == parts@[0]@);
        }
        let np = parts.len();
        let kw = to_lower(parts[0].as_str());
        if np == 2 && str_eq(kw.as_str(), "name") {
            proof {
                assert(parts.deep_view()[1] == parts@[1]@);
            }
            self.is_name(parts[1].as_str())
        } else if np == 2 && str_eq(kw.as_str(), "details") {
            proof {
                assert(parts.deep_view()[1] == parts@[1]@);
            }
            let arg = parts[1].as_str();
            let an = arg.unicode_len();
            if an > 0 && arg.get_char(0) == '!' {
                let rest = arg.substring_char(1, an);
                proof {
                    assert(rest@ =~= arg@.skip(1));
                }
                !self.is_owner(rest)
            } else {
                self.is_owner(arg)
            }
        } else if np == 2 && str_eq(kw.as_str(), "links") {
            proof {
                assert(parts.deep_view()[1] == parts@[1]@);
            }
            self.find_link(parts[1].as_str()).is_some()
        } else if np == 2 && str_eq(kw.as_str(), "filtering") {
            proof {
                assert(parts.deep_view()[1] == parts@[1]@);
            }
            self.contains_filter(parts[1].as_str())
        } else if np == 4 && str_eq(kw.as_str(), "delegation") {
            proof {
                assert(parts.deep_view()[1] == parts@[1]@);
                assert(parts.deep_view()[2] == parts@[2]@);
                assert(parts.deep_view()[3] == parts@[3]@);
            }
            let name = parts[1].as_str();
            let perm = parts[2].as_str();
            let inh = parts[3].as_str();
            if name.is_empty() || perm.is_empty() {
                return false;
            }
            let dn = self.delegation.len();
            let mut i: usize = 0;
            while i < dn
                invariant
                    dn == self.delegation.len(),
                    i <= dn,
                    name@.len() > 0,
                    perm@.len() > 0,
                    spec_query(self@, gpo_query_string@) == spec_delegation_query(
                        self@.delegation,
                        name@,
                        perm@,
                        inh@,
                    ),
                    forall|j: int|
                        0 <= j < i ==> !spec_del_entry_match(
                            self@.delegation[j],
                            name@,
                            perm@,
                            inh@,
                        ),
                decreases dn - i,
            {
                proof {
                    assert(self@.delegation[i as int] == self.delegation@[i as int]@);
                }
                if del_entry_match(&self.delegation[i], name, perm, inh) {
                    return true;
                }
                i += 1;
            }
            false
        } else if np == 3 && str_eq(kw.as_str(), "policy") {
            proof {
                assert(parts.deep_view()[1] == parts@[1]@);
                assert(parts.deep_view()[2] == parts@[2]@);
            }
            let value = parts[1].as_str();
            let setting = parts[2].as_str();
            let sn = setting.unicode_len();
            if sn > 0 && setting.get_char(0) == '!' {
                let rest = setting.substring_char(1, sn);
                proof {
                    assert(rest@ =~= setting@.skip(1));
                }
                match self.find_policy(value) {
                    Some(i) => {
                        proof {
                            assert(self@.policies[i as int] == self.policies@[i as int]@);
                        }
                        !self.policies[i].contains_setting(rest)
                    },
                    None => false,
                }
            } else {
                match self.find_policy(value) {
                    Some(i) => {
                        proof {
                            assert(self@.policies[i as int] == self.policies@[i as int]@);
                        }
                        self.policies[i].contains_setting(setting) || sn == 0
                    },
                    None => false,
                }
            }
        } else {
            false
        }
    }
}

/// The matching filtering entries, concatenated.
fn filter_matches_exec(fs: &Vec<String>, arg: &str) -> (r: String)
    ensures
        r@ == join_filter_matches(fs.deep_view(), arg@),
{
    let n = fs.len();
    let mut out = String::new();
    let mut i: usize = 0;
    proof {
        assert(fs.deep_view().skip(0) =~= fs.deep_view());
        assert(out@ + join_filter_matches(fs.deep_view(), arg@) =~= join_filter_matches(
            fs.deep_view(),
            arg@,
        ));
    }
    while i < n
        invariant
            n == fs.len(),
            i <= n,
            join_filter_matches(fs.deep_view(), arg@) == out@ + join_filter_matches(
                fs.deep_view().skip(i as int),
                arg@,
            ),
        decreases n - i,
    {
        proof {
            assert(fs.deep_view()[i as int] == fs@[i as int]@);
            assert(fs.deep_view().skip(i as int).skip(1) =~= fs.deep_view().skip(i + 1));
            assert(fs.deep_view().skip(i as int)[0] == fs.deep_view()[i as int]);
        }
        if crate::matcher::field_match(arg, fs[i].as_str()) {
            out.append(fs[i].as_str());
        }
        proof {
            assert(out@ + join_filter_matches(fs.deep_view().skip(i + 1), arg@)
                =~= join_filter_matches(fs.deep_view(), arg@));
        }
        i += 1;
    }
    proof {
        assert(fs.deep_view().skip(n as int) =~= Seq::<Seq<char>>::empty());
        assert(out@ + join_filter_matches(fs.deep_view().skip(n as int), arg@) =~= out@);
    }
    out
}

/// The delegation lines for the entries that satisfy the query.
fn del_matches_exec(ds: &Vec<Delegation>, name: &str, perm: &str, inh: &str) -> (r: String)
    ensures
        r@ == join_del_matches(ds.deep_view(), name@, perm@, inh@),
{
    let n = ds.len();
    let mut out = String::new();
    let mut i: usize = 0;
    proof {
        assert(ds.deep_view().skip(0) =~= ds.deep_view());
        assert(out@ + join_del_matches(ds.deep_view(), name@, perm@, inh@) =~= join_del_matches(
            ds.deep_view(),
            name@,
            perm@,
            inh@,
        ));
    }
    while i < n
        invariant
            n == ds.len(),
            i <= n,
            join_del_matches(ds.deep_view(), name@, perm@, inh@) == out@ + join_del_matches(
                ds.deep_view().skip(i as int),
                name@,
                perm@,
                inh@,
            ),
        decreases n - i,
    {
        proof {
            assert(ds.deep_view()[i as int] == ds@[i as int]@);
            assert(ds.deep_view().skip(i as int).skip(1) =~= ds.deep_view().skip(i + 1));
            assert(ds.deep_view().skip(i as int)[0] == ds.deep_view()[i as int]);
        }
        if del_entry_match(&ds[i], name, perm, inh) {
            let line = ds[i].to_display_string();
            out.append(line.as_str());
            out.append("\n");
        }
        proof {
            assert(out@ + join_del_matches(ds.deep_view().skip(i + 1), name@, perm@, inh@)
                =~= join_del_matches(ds.deep_view(), name@, perm@, inh@));
        }
        i += 1;
    }
    proof {
        assert(ds.deep_view().skip(n as int) =~= Seq::<DelegationV>::empty());
        assert(out@ + join_del_matches(ds.deep_view().skip(n as int), name@, perm@, inh@)
            =~= out@);
    }
    out
}

/// Whether one rendered policy entry satisfies the setting argument.
fn pol_setting_cond(p: &crate::gpo::Policy, setting: &str) -> (r: bool)
    ensures
        r == pol_render_pred(p@, setting@),
{
    let sn = setting.unicode_len();
    if sn > 0 && setting.get_char(0) == '!' {
        let rest = setting.substring_char(1, sn);
        proof {
            assert(rest@ =~= setting@.skip(1));
        }
        !p.contains_setting(rest)
    } else if sn == 0 {
        true
    } else {
        p.contains_setting(setting)
    }
}

/// The policy lines for the entries the rendering keeps.
fn pol_matches_exec(ps: &Vec<crate::gpo::Policy>, value: &str, setting: &str) -> (r: String)
    ensures
        r@ == join_pol_matches(ps.deep_view(), value@, setting@),
{
    let n = ps.len();
    let mut out = String::new();
    let mut i: usize = 0;
    proof {
        assert(ps.deep_view().skip(0) =~= ps.deep_view());
        assert(out@ + join_pol_matches(ps.deep_view(), value@, setting@) =~= join_pol_matches(
            ps.deep_view(),
            value@,
            setting@,
        ));
    }
    while i < n
        invariant
            n == ps.len(),
            i <= n,
            join_pol_matches(ps.deep_view(), value@, setting@) == out@ + join_pol_matches(
                ps.deep_view().skip(i as int),
                value@,
                setting@,
            ),
        decreases n - i,
    {
        proof {
            assert(ps.deep_view()[i as int] == ps@[i as int]@);
            assert(ps.deep_view().skip(i as int).skip(1) =~= ps.deep_view().skip(i + 1));
            assert(ps.deep_view().skip(i as int)[0] == ps.deep_view()[i as int]);
        }
        if ps[i].is_value(value) && pol_setting_cond(&ps[i], setting) {
            let line = ps[i].to_display_string();
            out.append(line.as_str());
            out.append("\n\t");
        }
        proof {
            assert(out@ + join_pol_matches(ps.deep_view().skip(i + 1), value@, setting@)
                =~= join_pol_matches(ps.deep_view(), value@, setting@));
        }
        i += 1;
    }
    proof {
        assert(ps.deep_view().skip(n as int) =~= Seq::<crate::gpo::PolicyV>::empty());
        assert(out@ + join_pol_matches(ps.deep_view().skip(n as int), value@, setting@)
            =~= out@);
    }
    out
}

impl GroupPolicy {
    /// Renders the matched textual values for one condition: the record
    /// name, owner, link line, filtering entries, delegation lines or
    /// policy lines, depending on the condition's field. Empty when the
    /// condition does not match.
    pub fn get_matching_conditions(&self, gpo_query_string: &str) -> (r: String)
        ensures
            r@ == spec_render(self@, gpo_query_string@),
    {
        proof {
            reveal_strlit("//");
            reveal_strlit("::");
        }
        let commentless = split_str(gpo_query_string, "//");
        proof {
            assert(commentless.deep_view()[0] == commentless@[0]@);
        }
        let cond = trim(commentless[0].as_str());
        let ghost c = spec_cond(gpo_query_string@);
        proof {
            assert(cond@ == c);
        }
        if cond.is_empty() {
            return String::new();
        }
        let parts = split_str(cond, "::");
        proof {
            assert(parts.deep_view() == spec_split(c, "::"@));
            assert(parts.deep_view()[0] == parts@[0]@);
        }
        let np = parts.len();
        let kw = to_lower(parts[0].as_str());
        if np == 2 && str_eq(kw.as_str(), "name") {
            proof {
                assert(parts.deep_view()[1] == parts@[1]@);
            }
            if self.is_name(parts[1].as_str()) {
                trim(self.name.as_str()).to_owned()
            } else {
                String::new()
            }
        } else if np == 2 && str_eq(kw.as_str(), "details") {
            proof {
                assert(parts.deep_view()[1] == parts@[1]@);
            }
            let arg = parts[1].as_str();
            let an = arg.unicode_len();
            let m = if an > 0 && arg.get_char(0) == '!' {
                let rest = arg.substring_char(1, an);
                proof {
                    assert(rest@ =~= arg@.skip(1));
                }
                !self.is_owner(rest)
            } else {
                self.is_owner(arg)
            };
            if m {
                trim(self.details.owner.as_str()).to_owned()
            } else {
                String::new()
            }
        } else if np == 2 && str_eq(kw.as_str(), "links") {
            proof {
                assert(parts.deep_view()[1] == parts@[1]@);
            }
            match self.find_link(parts[1].as_str()) {
                Some(i) => {
                    proof {
                        assert(self@.links[i as int] == self.links@[i as int]@);
                    }
                    let line = self.links[i].to_display_string();
                    trim(line.as_str()).to_owned()
                },
                None => String::new(),
            }
        } else if np == 2 && str_eq(kw.as_str(), "filtering") {
            proof {
                assert(parts.deep_view()[1] == parts@[1]@);
            }
            let j = filter_matches_exec(&self.filtering, parts[1].as_str());
            trim(j.as_str()).to_owned()
        } else if np == 4 && str_eq(kw.as_str(), "delegation") {
            proof {
                assert(parts.deep_view()[1] == parts@[1]@);
                assert(parts.deep_view()[2] == parts@[2]@);
                assert(parts.deep_view()[3] == parts@[3]@);
            }
            let name = parts[1].as_str();
            let perm = parts[2].as_str();
            let inh = parts[3].as_str();
            if name.is_empty() || perm.is_empty() {
                return String::new();
            }
            let j = del_matches_exec(&self.delegation, name, perm, inh);
            trim(j.as_str()).to_owned()
        } else if np == 3 && str_eq(kw.as_str(), "policy") {
            proof {
                assert(parts.deep_view()[1] == parts@[1]@);
                assert(parts.deep_view()[2] == parts@[2]@);
            }
            let value = parts[1].as_str();
            let setting = parts[2].as_str();
            let sn = setting.unicode_len();
            let sat: bool = if sn > 0 && setting.get_char(0) == '!' {
                let rest = setting.substring_char(1, sn);
                proof {
                    assert(rest@ =~= setting@.skip(1));
                }
                match self.find_policy(value) {
                    Some(i) => {
                        proof {
                            assert(self@.policies[i as int] == self.policies@[i as int]@);
                        }
                        !self.policies[i].contains_setting(rest)
                    },
                    None => false,
                }
            } else {
                match self.find_policy(value) {
                    Some(i) => {
                        proof {
                            assert(self@.policies[i as int] == self.policies@[i as int]@);
                        }
                        self.policies[i].contains_setting(setting) || sn == 0
                    },
                    None => false,
                }
            };
            if sat {
                let j = pol_matches_exec(&self.policies, value, setting);
                trim(j.as_str()).to_owned()
            } else {
                String::new()
            }
        } else {
            String::new()
        }
    }
}

} // verus!
