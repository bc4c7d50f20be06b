//! The structured record for one audited policy object, its section
//! types, and the matcher methods the query evaluator dispatches to.

use vstd::prelude::*;
use vstd::string::StrSliceExecFns;
use crate::matcher::{
    field_match, first_idx, lemma_first_idx, perm_match, setting_match, spec_field_match,
    spec_perm_match, spec_setting_match,
};
use crate::text::{
    lower_of, seq_contains, seq_starts_with, spec_eq_ci, spec_split, spec_trim, spec_trim_end,
    split_str, str_contains, str_eq, str_starts_with, to_lower, trim, trim_end,
};

verus! {

// ---------------------------------------------------------------------------
// Data model and views.
// ---------------------------------------------------------------------------

/// The detail section: all fields optional, absent meaning empty.
#[derive(Debug, Clone)]
pub struct Details {
    pub id: String,
    pub status: String,
    pub domain: String,
    pub owner: String,
    pub created: String,
    pub modified: String,
}

#[verifier::ext_equal]
pub ghost struct DetailsV {
    pub id: Seq<char>,
    pub status: Seq<char>,
    pub domain: Seq<char>,
    pub owner: Seq<char>,
    pub created: Seq<char>,
    pub modified: Seq<char>,
}

impl View for Details {
    type V = DetailsV;

    open spec fn view(&self) -> DetailsV {
        DetailsV {
            id: self.id@,
            status: self.status@,
            domain: self.domain@,
            owner: self.owner@,
            created: self.created@,
            modified: self.modified@,
        }
    }
}

impl DeepView for Details {
    type V = DetailsV;

    open spec fn deep_view(&self) -> DetailsV {
        self.view()
    }
}

impl DetailsV {
    pub open spec fn all_empty(self) -> bool {
        self.id.len() == 0 && self.status.len() == 0 && self.domain.len() == 0 && self.owner.len()
            == 0 && self.created.len() == 0 && self.modified.len() == 0
    }

    pub open spec fn empty() -> DetailsV {
        DetailsV {
            id: Seq::empty(),
            status: Seq::empty(),
            domain: Seq::empty(),
            owner: Seq::empty(),
            created: Seq::empty(),
            modified: Seq::empty(),
        }
    }
}

/// One row of the link table.
#[derive(Debug, Clone)]
pub struct Link {
    pub location: String,
    pub enforced: String,
    pub status: String,
    pub path: String,
}

#[verifier::ext_equal]
pub ghost struct LinkV {
    pub location: Seq<char>,
    pub enforced: Seq<char>,
    pub status: Seq<char>,
    pub path: Seq<char>,
}

impl View for Link {
    type V = LinkV;

    open spec fn view(&self) -> LinkV {
        LinkV {
            location: self.location@,
            enforced: self.enforced@,
            status: self.status@,
            path: self.path@,
        }
    }
}

impl DeepView for Link {
    type V = LinkV;

    open spec fn deep_view(&self) -> LinkV {
        self.view()
    }
}

/// One row of the delegation table: a principal, its permissions, and an
/// inheritance flag compared case-insensitively against "yes".
#[derive(Debug, Clone)]
pub struct Delegation {
    pub name: String,
    pub permissions: Vec<String>,
    pub inherited: String,
}

#[verifier::ext_equal]
pub ghost struct DelegationV {
    pub name: Seq<char>,
    pub permissions: Seq<Seq<char>>,
    pub inherited: Seq<char>,
}

impl View for Delegation {
    type V = DelegationV;

    open spec fn view(&self) -> DelegationV {
        DelegationV {
            name: self.name@,
            permissions: self.permissions.deep_view(),
            inherited: self.inherited@,
        }
    }
}

impl DeepView for Delegation {
    type V = DelegationV;

    open spec fn deep_view(&self) -> DelegationV {
        self.view()
    }
}

/// One row of a policy table: a named policy and its settings.
#[derive(Debug, Clone)]
pub struct Policy {
    pub value: String,
    pub setting: Vec<String>,
}

#[verifier::ext_equal]
pub ghost struct PolicyV {
    pub value: Seq<char>,
    pub setting: Seq<Seq<char>>,
}

impl View for Policy {
    type V = PolicyV;

    open spec fn view(&self) -> PolicyV {
        PolicyV { value: self.value@, setting: self.setting.deep_view() }
    }
}

impl DeepView for Policy {
    type V = PolicyV;

    open spec fn deep_view(&self) -> PolicyV {
        self.view()
    }
}

/// The structured record for one audited policy object.
#[derive(Debug)]
pub struct GroupPolicy {
    pub name: String,
    pub details: Details,
    pub links: Vec<Link>,
    pub filtering: Vec<String>,
    pub delegation: Vec<Delegation>,
    pub policies: Vec<Policy>,
}

#[verifier::ext_equal]
pub ghost struct GroupPolicyV {
    pub name: Seq<char>,
    pub details: DetailsV,
    pub links: Seq<LinkV>,
    pub filtering: Seq<Seq<char>>,
    pub delegation: Seq<DelegationV>,
    pub policies: Seq<PolicyV>,
}

impl View for GroupPolicy {
    type V = GroupPolicyV;

    open spec fn view(&self) -> GroupPolicyV {
        GroupPolicyV {
            name: self.name@,
            details: self.details@,
            links: self.links.deep_view(),
            filtering: self.filtering.deep_view(),
            delegation: self.delegation.deep_view(),
            policies: self.policies.deep_view(),
        }
    }
}

impl DeepView for GroupPolicy {
    type V = GroupPolicyV;

    open spec fn deep_view(&self) -> GroupPolicyV {
        self.view()
    }
}

// ---------------------------------------------------------------------------
// Shared match predicates over the views.
// ---------------------------------------------------------------------------

/// Case-insensitive "yes", as the inheritance flag is tested.
pub open spec fn spec_is_yes(s: Seq<char>) -> bool {
    lower_of(s) == "yes"@
}

/// Some permission entry matches the argument.
pub open spec fn spec_perms_contain(perms: Seq<Seq<char>>, arg: Seq<char>) -> bool {
    exists|i: int| 0 <= i < perms.len() && spec_perm_match(arg, perms[i])
}

/// Some setting entry matches the argument.
pub open spec fn spec_settings_contain(settings: Seq<Seq<char>>, arg: Seq<char>) -> bool {
    exists|i: int| 0 <= i < settings.len() && spec_setting_match(arg, settings[i])
}

/// Some filtering entry matches the argument.
pub open spec fn spec_filters_contain(filters: Seq<Seq<char>>, arg: Seq<char>) -> bool {
    exists|i: int| 0 <= i < filters.len() && spec_field_match(arg, filters[i])
}

pub open spec fn link_pred(value: Seq<char>) -> spec_fn(LinkV) -> bool {
    |l: LinkV| spec_field_match(value, l.location)
}

pub open spec fn del_pred(name: Seq<char>) -> spec_fn(DelegationV) -> bool {
    |d: DelegationV| spec_field_match(name, d.name)
}

pub open spec fn pol_pred(value: Seq<char>) -> spec_fn(PolicyV) -> bool {
    |p: PolicyV| spec_field_match(value, p.value)
}

/// Index of the first link whose location matches, or -1.
pub open spec fn spec_link_idx(links: Seq<LinkV>, value: Seq<char>) -> int {
    first_idx(links, link_pred(value))
}

/// Index of the first delegation whose name matches, or -1.
pub open spec fn spec_del_idx(dels: Seq<DelegationV>, name: Seq<char>) -> int {
    first_idx(dels, del_pred(name))
}

/// Index of the first policy whose value matches, or -1.
pub open spec fn spec_pol_idx(pols: Seq<PolicyV>, value: Seq<char>) -> int {
    first_idx(pols, pol_pred(value))
}

// ---------------------------------------------------------------------------
// Details.
// ---------------------------------------------------------------------------

impl Details {
    pub fn new() -> (r: Self)
        ensures
            r@ =~= DetailsV::empty(),
    {
        Self {
            id: String::new(),
            status: String::new(),
            domain: String::new(),
            owner: String::new(),
            created: String::new(),
            modified: String::new(),
        }
    }

    pub fn set_id(&mut self, value: String)
        ensures
            final(self)@ == (DetailsV { id: value@, ..old(self)@ }),
    {
        self.id = value;
    }

    pub fn set_status(&mut self, value: String)
        ensures
            final(self)@ == (DetailsV { status: value@, ..old(self)@ }),
    {
        self.status = value;
    }

    pub fn set_domain(&mut self, value: String)
        ensures
            final(self)@ == (DetailsV { domain: value@, ..old(self)@ }),
    {
        self.domain = value;
    }

    pub fn set_owner(&mut self, value: String)
        ensures
            final(self)@ == (DetailsV { owner: value@, ..old(self)@ }),
    {
        self.owner = value;
    }

    pub fn set_created(&mut self, value: String)
        ensures
            final(self)@ == (DetailsV { created: value@, ..old(self)@ }),
    {
        self.created = value;
    }

    pub fn set_modified(&mut self, value: String)
        ensures
            final(self)@ == (DetailsV { modified: value@, ..old(self)@ }),
    {
        self.modified = value;
    }

    /// Whether no detail field has been set yet.
    pub fn is_empty(&mut self) -> (r: bool)
        ensures
            *final(self) == *old(self),
            r == old(self)@.all_empty(),
    {
        self.id.as_str().is_empty() && self.status.as_str().is_empty()
            && self.domain.as_str().is_empty() && self.owner.as_str().is_empty()
            && self.created.as_str().is_empty() && self.modified.as_str().is_empty()
    }

    /// Whether the stored owner matches the operator-tagged argument.
    pub fn is_owner(&self, owner: &str) -> (r: bool)
        ensures
            r == spec_field_match(owner@, self@.owner),
    {
        field_match(owner, self.owner.as_str())
    }
}

// ---------------------------------------------------------------------------
// Link.
// ---------------------------------------------------------------------------

impl Link {
    pub fn new() -> (r: Self)
        ensures
            r@.location =~= Seq::<char>::empty(),
            r@.enforced =~= Seq::<char>::empty(),
            r@.status =~= Seq::<char>::empty(),
            r@.path =~= Seq::<char>::empty(),
    {
        Self {
            location: String::new(),
            enforced: String::new(),
            status: String::new(),
            path: String::new(),
        }
    }

    pub fn set_location(&mut self, value: &str)
        ensures
            final(self)@ == (LinkV { location: value@, ..old(self)@ }),
    {
        self.location = value.to_owned();
    }

    pub fn set_enforced(&mut self, value: &str)
        ensures
            final(self)@ == (LinkV { enforced: value@, ..old(self)@ }),
    {
        self.enforced = value.to_owned();
    }

    pub fn set_status(&mut self, value: &str)
        ensures
            final(self)@ == (LinkV { status: value@, ..old(self)@ }),
    {
        self.status = value.to_owned();
    }

    pub fn set_path(&mut self, value: &str)
        ensures
            final(self)@ == (LinkV { path: value@, ..old(self)@ }),
    {
        self.path = value.to_owned();
    }

    /// Whether the stored location matches the operator-tagged argument.
    pub fn is_location(&self, value: &str) -> (r: bool)
        ensures
            r == spec_field_match(value@, self@.location),
    {
        field_match(value, self.location.as_str())
    }
}

// ---------------------------------------------------------------------------
// Delegation.
// ---------------------------------------------------------------------------

impl Delegation {
    pub fn new() -> (r: Self)
        ensures
            r@.name =~= Seq::<char>::empty(),
            r@.permissions =~= Seq::<Seq<char>>::empty(),
            r@.inherited =~= Seq::<char>::empty(),
    {
        Self { name: String::new(), permissions: Vec::new(), inherited: String::new() }
    }

    pub fn set_name(&mut self, new_name: &str)
        ensures
            final(self)@ == (DelegationV { name: new_name@, ..old(self)@ }),
    {
        self.name = new_name.to_owned();
    }

    pub fn add_permission(&mut self, permission: &str)
        ensures
            final(self)@ == (DelegationV {
                permissions: old(self)@.permissions.push(permission@),
                ..old(self)@
            }),
    {
        self.permissions.push(permission.to_owned());
        proof {
            assert(self.permissions.deep_view() =~= old(self).permissions.deep_view().push(
                permission@,
            ));
        }
    }

    pub fn set_inheritence(&mut self, inheritence: &str)
        ensures
            final(self)@ == (DelegationV { inherited: inheritence@, ..old(self)@ }),
    {
        self.inherited = inheritence.to_owned();
    }

    /// Whether the stored principal name matches the operator-tagged
    /// argument.
    pub fn is_name(&self, value: &str) -> (r: bool)
        ensures
            r == spec_field_match(value@, self@.name),
    {
        field_match(value, self.name.as_str())
    }

    /// Whether some stored permission matches the operator-tagged
    /// argument.
    pub fn contains_permission(&self, value: &str) -> (r: bool)
        ensures
            r == spec_perms_contain(self@.permissions, value@),
    {
        let n = self.permissions.len();
        let mut i: usize = 0;
        while i < n
            invariant
                n == self.permissions.len(),
                i <= n,
                forall|j: int| 0 <= j < i ==> !spec_perm_match(value@, self@.permissions[j]),
            decreases n - i,
        {
            proof {
                assert(self@.permissions[i as int] == self.permissions@[i as int]@);
            }
            if perm_match(value, self.permissions[i].as_str()) {
                return true;
            }
            i += 1;
        }
        false
    }

    /// Whether the inheritance flag reads "yes", in any casing.
    pub fn is_inherited(&self) -> (r: bool)
        ensures
            r == spec_is_yes(self@.inherited),
    {
        let l = to_lower(self.inherited.as_str());
        str_eq(l.as_str(), "yes")
    }
}

// ---------------------------------------------------------------------------
// Policy.
// ---------------------------------------------------------------------------

impl Policy {
    pub fn new() -> (r: Self)
        ensures
            r@.value =~= Seq::<char>::empty(),
            r@.setting =~= Seq::<Seq<char>>::empty(),
    {
        Self { value: String::new(), setting: Vec::new() }
    }

    pub fn set_value(&mut self, value: &str)
        ensures
            final(self)@ == (PolicyV { value: value@, ..old(self)@ }),
    {
        self.value = value.to_owned();
    }

    pub fn add_setting(&mut self, value: &str)
        ensures
            final(self)@ == (PolicyV { setting: old(self)@.setting.push(value@), ..old(self)@ }),
    {
        self.setting.push(value.to_owned());
        proof {
            assert(self.setting.deep_view() =~= old(self).setting.deep_view().push(value@));
        }
    }

    /// Whether the stored policy name matches the operator-tagged
    /// argument.
    pub fn is_value(&self, value: &str) -> (r: bool)
        ensures
            r == spec_field_match(value@, self@.value),
    {
        field_match(value, self.value.as_str())
    }

    /// Whether some stored setting matches the argument, numeric operator
    /// forms included.
    pub fn contains_setting(&self, value: &str) -> (r: bool)
        ensures
            r == spec_settings_contain(self@.setting, value@),
    {
        let n = self.setting.len();
        let mut i: usize = 0;
        while i < n
            invariant
                n == self.setting.len(),
                i <= n,
                forall|j: int| 0 <= j < i ==> !spec_setting_match(value@, self@.setting[j]),
            decreases n - i,
        {
            proof {
                assert(self@.setting[i as int] == self.setting@[i as int]@);
            }
            if setting_match(value, self.setting[i].as_str()) {
                return true;
            }
            i += 1;
        }
        false
    }
}

// ---------------------------------------------------------------------------
// Record-level lookups.
// ---------------------------------------------------------------------------

impl GroupPolicy {
    /// Whether the record name equals the argument, case-insensitively;
    /// no operator prefixes are honoured here.
    pub fn is_name(&self, name: &str) -> (r: bool)
        ensures
            r == spec_eq_ci(self@.name, name@),
    {
        let a = to_lower(self.name.as_str());
        let b = to_lower(name);
        str_eq(a.as_str(), b.as_str())
    }

    /// Whether the owner detail matches the operator-tagged argument.
    pub fn is_owner(&self, owner: &str) -> (r: bool)
        ensures
            r == spec_field_match(owner@, self@.details.owner),
    {
        self.details.is_owner(owner)
    }

    /// Index of the first link whose location matches, or None.
    pub fn find_link(&self, value: &str) -> (r: Option<usize>)
        ensures
            match r {
                Some(i) => i < self.links.len() && i as int == spec_link_idx(
                    self@.links,
                    value@,
                ),
                None => spec_link_idx(self@.links, value@) == -1,
            },
    {
        let n = self.links.len();
        let mut i: usize = 0;
        proof {
            lemma_first_idx(self@.links, link_pred(value@));
        }
        while i < n
            invariant
                n == self.links.len(),
                i <= n,
                forall|j: int| 0 <= j < i ==> !spec_field_match(value@, self@.links[j].location),
            decreases n - i,
        {
            proof {
                assert(self@.links[i as int] == self.links@[i as int]@);
            }
            if self.links[i].is_location(value) {
                proof {
                    lemma_first_idx(self@.links, link_pred(value@));
                    let r = spec_link_idx(self@.links, value@);
                    assert(link_pred(value@)(self@.links[i as int]));
                    assert(r != -1);
                    assert(link_pred(value@)(self@.links[r]) == spec_field_match(
                        value@,
                        self@.links[r].location,
                    ));
                    assert(r == i);
                }
                return Some(i);
            }
            i += 1;
        }
        proof {
            lemma_first_idx(self@.links, link_pred(value@));
            let r = spec_link_idx(self@.links, value@);
            if r != -1 {
                assert(link_pred(value@)(self@.links[r]));
            }
        }
        None
    }

    /// Index of the first link whose location matches, as a signed
    /// position: -1 when none does.
    pub fn contains_link_location(&self, value: &str) -> (r: i32)
        requires
            self.links@.len() <= 0x7fff_ffff,
        ensures
            r as int == spec_link_idx(self@.links, value@),
    {
        proof {
            lemma_first_idx(self@.links, link_pred(value@));
        }
        match self.find_link(value) {
            Some(i) => i as i32,
            None => -1,
        }
    }

    /// Whether some filtering entry matches the operator-tagged argument.
    pub fn contains_filter(&self, value: &str) -> (r: bool)
        ensures
            r == spec_filters_contain(self@.filtering, value@),
    {
        let n = self.filtering.len();
        let mut i: usize = 0;
        while i < n
            invariant
                n == self.filtering.len(),
                i <= n,
                forall|j: int| 0 <= j < i ==> !spec_field_match(value@, self@.filtering[j]),
            decreases n - i,
        {
            proof {
                assert(self@.filtering[i as int] == self.filtering@[i as int]@);
            }
            if field_match(value, self.filtering[i].as_str()) {
                return true;
            }
            i += 1;
        }
        false
    }

    /// Index of the first delegation whose name matches, or None.
    pub fn find_delegation(&self, name: &str) -> (r: Option<usize>)
        ensures
            match r {
                Some(i) => i < self.delegation.len() && i as int == spec_del_idx(
                    self@.delegation,
                    name@,
                ),
                None => spec_del_idx(self@.delegation, name@) == -1,
            },
    {
        let n = self.delegation.len();
        let mut i: usize = 0;
        while i < n
            invariant
                n == self.delegation.len(),
                i <= n,
                forall|j: int| 0 <= j < i ==> !spec_field_match(name@, self@.delegation[j].name),
            decreases n - i,
        {
            proof {
                assert(self@.delegation[i as int] == self.delegation@[i as int]@);
            }
            if self.delegation[i].is_name(name) {
                proof {
                    lemma_first_idx(self@.delegation, del_pred(name@));
                    let r = spec_del_idx(self@.delegation, name@);
                    assert(del_pred(name@)(self@.delegation[i as int]));
                    assert(r != -1);
                    assert(del_pred(name@)(self@.delegation[r]));
                    assert(r == i);
                }
                return Some(i);
            }
            i += 1;
        }
        proof {
            lemma_first_idx(self@.delegation, del_pred(name@));
            let r = spec_del_idx(self@.delegation, name@);
            if r != -1 {
                assert(del_pred(name@)(self@.delegation[r]));
            }
        }
        None
    }

    /// Index of the first delegation whose name matches, as a signed
    /// position: -1 when none does.
    pub fn contains_delegation_name(&self, value: &str) -> (r: i32)
        requires
            self.delegation@.len() <= 0x7fff_ffff,
        ensures
            r as int == spec_del_idx(self@.delegation, value@),
    {
        proof {
            lemma_first_idx(self@.delegation, del_pred(value@));
        }
        match self.find_delegation(value) {
            Some(i) => i as i32,
            None => -1,
        }
    }

    /// Whether the first delegation whose name matches also holds a
    /// matching permission.
    pub fn contains_delegation_permission(&self, delegation_name: &str, delegation_permission: &str) -> (r: bool)
        ensures
            r == ({
                let idx = spec_del_idx(self@.delegation, delegation_name@);
                idx != -1 && spec_perms_contain(
                    self@.delegation[idx].permissions,
                    delegation_permission@,
                )
            }),
    {
        proof {
            lemma_first_idx(self@.delegation, del_pred(delegation_name@));
        }
        match self.find_delegation(delegation_name) {
            Some(i) => {
                proof {
                    assert(self@.delegation[i as int] == self.delegation@[i as int]@);
                }
                self.delegation[i].contains_permission(delegation_permission)
            },
            None => false,
        }
    }

    /// Whether the first delegation whose name matches is inherited.
    pub fn is_delegation_inherited(&self, delegation_name: &str) -> (r: bool)
        ensures
            r == ({
                let idx = spec_del_idx(self@.delegation, delegation_name@);
                idx != -1 && spec_is_yes(self@.delegation[idx].inherited)
            }),
    {
        proof {
            lemma_first_idx(self@.delegation, del_pred(delegation_name@));
        }
        match self.find_delegation(delegation_name) {
            Some(i) => {
                proof {
                    assert(self@.delegation[i as int] == self.delegation@[i as int]@);
                }
                self.delegation[i].is_inherited()
            },
            None => false,
        }
    }

    /// Index of the first policy whose value matches, or None.
    pub fn find_policy(&self, value: &str) -> (r: Option<usize>)
        ensures
            match r {
                Some(i) => i < self.policies.len() && i as int == spec_pol_idx(
                    self@.policies,
                    value@,
                ),
                None => spec_pol_idx(self@.policies, value@) == -1,
            },
    {
        let n = self.policies.len();
        let mut i: usize = 0;
        while i < n
            invariant
                n == self.policies.len(),
                i <= n,
                forall|j: int| 0 <= j < i ==> !spec_field_match(value@, self@.policies[j].value),
            decreases n - i,
        {
            proof {
                assert(self@.policies[i as int] == self.policies@[i as int]@);
            }
            if self.policies[i].is_value(value) {
                proof {
                    lemma_first_idx(self@.policies, pol_pred(value@));
                    let r = spec_pol_idx(self@.policies, value@);
                    assert(pol_pred(value@)(self@.policies[i as int]));
                    assert(r != -1);
                    assert(pol_pred(value@)(self@.policies[r]));
                    assert(r == i);
                }
                return Some(i);
            }
            i += 1;
        }
        proof {
            lemma_first_idx(self@.policies, pol_pred(value@));
            let r = spec_pol_idx(self@.policies, value@);
            if r != -1 {
                assert(pol_pred(value@)(self@.policies[r]));
            }
        }
        None
    }

    /// Index of the first policy whose value matches, as a signed
    /// position: -1 when none does.
    pub fn contains_policy(&self, policy_value: &str) -> (r: i32)
        requires
            self.policies@.len() <= 0x7fff_ffff,
        ensures
            r as int == spec_pol_idx(self@.policies, policy_value@),
    {
        proof {
            lemma_first_idx(self@.policies, pol_pred(policy_value@));
        }
        match self.find_policy(policy_value) {
            Some(i) => i as i32,
            None => -1,
        }
    }

    /// Whether the first policy whose value matches also holds a matching
    /// setting.
    pub fn contains_policy_setting(&self, policy_value: &str, policy_setting: &str) -> (r: bool)
        ensures
            r == ({
                let idx = spec_pol_idx(self@.policies, policy_value@);
                idx != -1 && spec_settings_contain(self@.policies[idx].setting, policy_setting@)
            }),
    {
        proof {
            lemma_first_idx(self@.policies, pol_pred(policy_value@));
        }
        match self.find_policy(policy_value) {
            Some(i) => {
                proof {
                    assert(self@.policies[i as int] == self.policies@[i as int]@);
                }
                self.policies[i].contains_setting(policy_setting)
            },
            None => false,
        }
    }
}

// ---------------------------------------------------------------------------
// The record parser: a single pass over the line sequence, five section
// trackers running concurrently, each with its own phase.
// ---------------------------------------------------------------------------

/// A run of four horizontal box-drawing characters, the section border.
pub open spec fn spec_is_border(l: Seq<char>) -> bool {
    seq_contains(l, "\u{2500}\u{2500}\u{2500}\u{2500}"@)
}

/// The vertical box-drawing bar that separates table columns.
pub open spec fn col_sep() -> Seq<char> {
    "\u{2502}"@
}

/// Each part trimmed of leading and trailing whitespace.
pub open spec fn trim_all(parts: Seq<Seq<char>>) -> Seq<Seq<char>> {
    parts.map_values(|p: Seq<char>| spec_trim(p))
}

/// The parser's state between lines.
#[verifier::ext_equal]
pub ghost struct ParseState {
    pub name_pending: bool,
    pub name: Seq<char>,
    pub details: DetailsV,
    pub details_active: bool,
    pub links: Seq<LinkV>,
    pub links_active: bool,
    pub filtering: Seq<Seq<char>>,
    pub filt_phase: int,
    pub delegation: Seq<DelegationV>,
    pub del_phase: int,
    pub policies: Seq<PolicyV>,
    pub pol_active: bool,
}

pub open spec fn init_state() -> ParseState {
    ParseState {
        name_pending: true,
        name: Seq::empty(),
        details: DetailsV::empty(),
        details_active: false,
        links: Seq::empty(),
        links_active: false,
        filtering: Seq::empty(),
        filt_phase: 0,
        delegation: Seq::empty(),
        del_phase: 0,
        policies: Seq::empty(),
        pol_active: false,
    }
}

/// One recognised detail row: the trimmed second column stored under the
/// row's label. A row without a column separator is dropped.
pub open spec fn spec_details_row(d: DetailsV, l: Seq<char>) -> DetailsV {
    let cols = spec_split(l, col_sep());
    if seq_starts_with(l, "Domain"@) {
        if cols.len() >= 2 {
            DetailsV { domain: spec_trim_end(cols[1]), ..d }
        } else {
            d
        }
    } else if seq_starts_with(l, "Owner"@) {
        if cols.len() >= 2 {
            DetailsV { owner: spec_trim_end(cols[1]), ..d }
        } else {
            d
        }
    } else if seq_starts_with(l, "Created"@) {
        if cols.len() >= 2 {
            DetailsV { created: spec_trim_end(cols[1]), ..d }
        } else {
            d
        }
    } else if seq_starts_with(l, "Modified"@) {
        if cols.len() >= 2 {
            DetailsV { modified: spec_trim_end(cols[1]), ..d }
        } else {
            d
        }
    } else if seq_starts_with(l, "Unique ID"@) {
        if cols.len() >= 2 {
            DetailsV { id: spec_trim_end(cols[1]), ..d }
        } else {
            d
        }
    } else if seq_starts_with(l, "GPO Status"@) {
        if cols.len() >= 2 {
            DetailsV { status: spec_trim_end(cols[1]), ..d }
        } else {
            d
        }
    } else {
        d
    }
}

/// One link row: exactly four columns, each trimmed at the end, else the
/// row is dropped.
pub open spec fn spec_link_row(links: Seq<LinkV>, l: Seq<char>) -> Seq<LinkV> {
    let cols = spec_split(l, col_sep());
    if cols.len() == 4 {
        links.push(
            LinkV {
                location: spec_trim_end(cols[0]),
                enforced: spec_trim_end(cols[1]),
                status: spec_trim_end(cols[2]),
                path: spec_trim_end(cols[3]),
            },
        )
    } else {
        links
    }
}

/// One delegation row: exactly three columns — name, comma-separated
/// permissions, inheritance flag — else the row is dropped.
pub open spec fn spec_del_row(dels: Seq<DelegationV>, l: Seq<char>) -> Seq<DelegationV> {
    let cols = spec_split(l, col_sep());
    if cols.len() == 3 {
        dels.push(
            DelegationV {
                name: spec_trim_end(cols[0]),
                permissions: trim_all(spec_split(cols[1], ","@)),
                inherited: spec_trim_end(cols[2]),
            },
        )
    } else {
        dels
    }
}

/// One policy row: a value column and a comma-separated setting column;
/// a line without a separator is dropped.
pub open spec fn spec_pol_row(pols: Seq<PolicyV>, l: Seq<char>) -> Seq<PolicyV> {
    let cols = spec_split(l, col_sep());
    if cols.len() > 1 {
        pols.push(
            PolicyV { value: spec_trim(cols[0]), setting: trim_all(spec_split(cols[1], ","@)) },
        )
    } else {
        pols
    }
}

/// Name tracker: the first non-empty, non-border line, trimmed, becomes
/// the record name; recognised once.
pub open spec fn name_step(name: Seq<char>, pending: bool, l: Seq<char>) -> (Seq<char>, bool) {
    if pending && name.len() == 0 && l.len() > 0 && !spec_is_border(l) {
        (spec_trim(l), false)
    } else {
        (name, pending)
    }
}

/// Details tracker: entered on the section header, left on the first
/// empty line once a field is set; recognised label rows are stored.
pub open spec fn details_step(d: DetailsV, active: bool, l: Seq<char>) -> (DetailsV, bool) {
    if seq_starts_with(l, "Details"@) && !active && d.all_empty() {
        (d, true)
    } else if active && l.len() == 0 && !d.all_empty() {
        (d, false)
    } else if active && l.len() > 0 {
        (spec_details_row(d, l), active)
    } else {
        (d, active)
    }
}

/// Links tracker: entered on the header, skips borders and the column
/// header, left on an empty line once a link is recorded.
pub open spec fn links_step(links: Seq<LinkV>, active: bool, l: Seq<char>) -> (Seq<LinkV>, bool) {
    if seq_starts_with(l, "Links"@) && !active && links.len() == 0 {
        (links, true)
    } else if active && l.len() == 0 && links.len() > 0 {
        (links, false)
    } else if active && l.len() > 0 && !spec_is_border(l) && !seq_starts_with(l, "Location"@) {
        (spec_link_row(links, l), active)
    } else {
        (links, active)
    }
}

/// Filtering tracker: a two-phase gate — header, then column header —
/// then verbatim storage until an empty line or the delegation header.
pub open spec fn filt_step(f: Seq<Seq<char>>, phase: int, l: Seq<char>) -> (Seq<Seq<char>>, int) {
    if seq_starts_with(l, "Security Filtering"@) && phase == 0 && f.len() == 0 {
        (f, 1)
    } else if phase == 1 && seq_starts_with(l, "Name"@) {
        (f, 2)
    } else if phase == 2 && (l.len() == 0 || seq_starts_with(l, "Delegation"@)) && f.len() > 0 {
        (f, 0)
    } else if phase == 2 && l.len() > 0 && !spec_is_border(l) {
        (f.push(l), phase)
    } else {
        (f, phase)
    }
}

/// Delegation tracker: the same two-phase gate, left on an empty line or
/// either configuration-section header.
pub open spec fn del_step(dels: Seq<DelegationV>, phase: int, l: Seq<char>) -> (
    Seq<DelegationV>,
    int,
) {
    if seq_starts_with(l, "Delegation"@) && phase == 0 && dels.len() == 0 {
        (dels, 1)
    } else if phase == 1 && seq_starts_with(l, "Name"@) {
        (dels, 2)
    } else if phase == 2 && (l.len() == 0 || seq_starts_with(l, "User Configuration"@)
        || seq_starts_with(l, "Computer Configuration"@)) && dels.len() > 0 {
        (dels, 0)
    } else if phase == 2 && l.len() > 0 && !spec_is_border(l) {
        (spec_del_row(dels, l), phase)
    } else {
        (dels, phase)
    }
}

/// Policy tracker: entered on the header whenever inactive, left on any
/// empty line; border detection here looks at the line start only.
pub open spec fn pol_step(pols: Seq<PolicyV>, active: bool, l: Seq<char>) -> (Seq<PolicyV>, bool) {
    if seq_starts_with(l, "Policy"@) && !active {
        (pols, true)
    } else if active && l.len() == 0 {
        (pols, false)
    } else if active && l.len() > 0 && !seq_starts_with(l, "\u{2500}\u{2500}\u{2500}\u{2500}"@) {
        (spec_pol_row(pols, l), active)
    } else {
        (pols, active)
    }
}

/// All five trackers see the same line in the same iteration, each
/// reading and writing only its own part of the state.
pub open spec fn spec_step(st: ParseState, l: Seq<char>) -> ParseState {
    let na = name_step(st.name, st.name_pending, l);
    let de = details_step(st.details, st.details_active, l);
    let li = links_step(st.links, st.links_active, l);
    let fi = filt_step(st.filtering, st.filt_phase, l);
    let dl = del_step(st.delegation, st.del_phase, l);
    let po = pol_step(st.policies, st.pol_active, l);
    ParseState {
        name: na.0,
        name_pending: na.1,
        details: de.0,
        details_active: de.1,
        links: li.0,
        links_active: li.1,
        filtering: fi.0,
        filt_phase: fi.1,
        delegation: dl.0,
        del_phase: dl.1,
        policies: po.0,
        pol_active: po.1,
    }
}

pub open spec fn parse_fold(lines: Seq<Seq<char>>) -> ParseState
    decreases lines.len(),
{
    if lines.len() == 0 {
        init_state()
    } else {
        spec_step(parse_fold(lines.drop_last()), lines.last())
    }
}

/// The record that parsing a line sequence produces.
pub open spec fn spec_parse(lines: Seq<Seq<char>>) -> GroupPolicyV {
    let st = parse_fold(lines);
    GroupPolicyV {
        name: st.name,
        details: st.details,
        links: st.links,
        filtering: st.filtering,
        delegation: st.delegation,
        policies: st.policies,
    }
}

// ---------------------------------------------------------------------------
// The exec trackers, one per section.
// ---------------------------------------------------------------------------

fn track_name(name: &mut String, pending: &mut bool, line: &str)
    ensures
        ({
            let r = name_step(old(name)@, *old(pending), line@);
            final(name)@ == r.0 && *final(pending) == r.1
        }),
{
    if *pending && name.as_str().is_empty() && !line.is_empty() && !str_contains(
        line,
        "\u{2500}\u{2500}\u{2500}\u{2500}",
    ) {
        *name = trim(line).to_owned();
        *pending = false;
    }
}

fn track_details(details: &mut Details, active: &mut bool, line: &str)
    ensures
        ({
            let r = details_step(old(details)@, *old(active), line@);
            final(details)@ == r.0 && *final(active) == r.1
        }),
{
    proof {
        reveal_strlit("\u{2502}");
    }
    let empty_line = line.is_empty();
    if str_starts_with(line, "Details") && !*active && details.is_empty() {
        *active = true;
    } else if *active && empty_line && !details.is_empty() {
        *active = false;
    } else if *active && !empty_line {
        let cols = split_str(line, "\u{2502}");
        if str_starts_with(line, "Domain") {
            if cols.len() >= 2 {
                proof {
                    assert(cols.deep_view()[1] == cols@[1]@);
                }
                details.set_domain(trim_end(cols[1].as_str()).to_owned());
            }
        } else if str_starts_with(line, "Owner") {
            if cols.len() >= 2 {
                proof {
                    assert(cols.deep_view()[1] == cols@[1]@);
                }
                details.set_owner(trim_end(cols[1].as_str()).to_owned());
            }
        } else if str_starts_with(line, "Created") {
            if cols.len() >= 2 {
                proof {
                    assert(cols.deep_view()[1] == cols@[1]@);
                }
                details.set_created(trim_end(cols[1].as_str()).to_owned());
            }
        } else if str_starts_with(line, "Modified") {
            if cols.len() >= 2 {
                proof {
                    assert(cols.deep_view()[1] == cols@[1]@);
                }
                details.set_modified(trim_end(cols[1].as_str()).to_owned());
            }
        } else if str_starts_with(line, "Unique ID") {
            if cols.len() >= 2 {
                proof {
                    assert(cols.deep_view()[1] == cols@[1]@);
                }
                details.set_id(trim_end(cols[1].as_str()).to_owned());
            }
        } else if str_starts_with(line, "GPO Status") {
            if cols.len() >= 2 {
                proof {
                    assert(cols.deep_view()[1] == cols@[1]@);
                }
                details.set_status(trim_end(cols[1].as_str()).to_owned());
            }
        }
        proof {
            assert(details@ == spec_details_row(old(details)@, line@));
        }
    }
}

fn track_links(links: &mut Vec<Link>, active: &mut bool, line: &str)
    ensures
        ({
            let r = links_step(old(links).deep_view(), *old(active), line@);
            final(links).deep_view() == r.0 && *final(active) == r.1
        }),
{
    proof {
        reveal_strlit("\u{2502}");
    }
    let empty_line = line.is_empty();
    if str_starts_with(line, "Links") && !*active && links.len() == 0 {
        *active = true;
    } else if *active && empty_line && links.len() > 0 {
        *active = false;
    } else if *active && !empty_line && !str_contains(
        line,
        "\u{2500}\u{2500}\u{2500}\u{2500}",
    ) && !str_starts_with(line, "Location") {
        let cols = split_str(line, "\u{2502}");
        if cols.len() == 4 {
            let mut curr_link = Link::new();
            proof {
                assert(cols.deep_view()[0] == cols@[0]@);
                assert(cols.deep_view()[1] == cols@[1]@);
                assert(cols.deep_view()[2] == cols@[2]@);
                assert(cols.deep_view()[3] == cols@[3]@);
            }
            curr_link.set_location(trim_end(cols[0].as_str()));
            curr_link.set_enforced(trim_end(cols[1].as_str()));
            curr_link.set_status(trim_end(cols[2].as_str()));
            curr_link.set_path(trim_end(cols[3].as_str()));
            links.push(curr_link);
            proof {
                assert(links.deep_view() =~= spec_link_row(old(links).deep_view(), line@));
            }
        } else {
            proof {
                assert(links.deep_view() =~= spec_link_row(old(links).deep_view(), line@));
            }
        }
    }
}

fn track_filtering(filtering: &mut Vec<String>, phase: &mut u8, line: &str)
    requires
        *old(phase) <= 2,
    ensures
        ({
            let r = filt_step(old(filtering).deep_view(), *old(phase) as int, line@);
            final(filtering).deep_view() == r.0 && *final(phase) as int == r.1
        }),
{
    let empty_line = line.is_empty();
    if str_starts_with(line, "Security Filtering") && *phase == 0 && filtering.len() == 0 {
        *phase = 1;
    } else if *phase == 1 && str_starts_with(line, "Name") {
        *phase = 2;
    } else if *phase == 2 && (empty_line || str_starts_with(line, "Delegation"))
        && filtering.len() > 0 {
        *phase = 0;
    } else if *phase == 2 && !empty_line && !str_contains(
        line,
        "\u{2500}\u{2500}\u{2500}\u{2500}",
    ) {
        filtering.push(line.to_owned());
        proof {
            assert(filtering.deep_view() =~= old(filtering).deep_view().push(line@));
        }
    }
}

fn track_delegation(delegation: &mut Vec<Delegation>, phase: &mut u8, line: &str)
    requires
        *old(phase) <= 2,
    ensures
        ({
            let r = del_step(old(delegation).deep_view(), *old(phase) as int, line@);
            final(delegation).deep_view() == r.0 && *final(phase) as int == r.1
        }),
{
    proof {
        reveal_strlit("\u{2502}");
        reveal_strlit(",");
    }
    let empty_line = line.is_empty();
    if str_starts_with(line, "Delegation") && *phase == 0 && delegation.len() == 0 {
        *phase = 1;
    } else if *phase == 1 && str_starts_with(line, "Name") {
        *phase = 2;
    } else if *phase == 2 && (empty_line || str_starts_with(line, "User Configuration")
        || str_starts_with(line, "Computer Configuration")) && delegation.len() > 0 {
        *phase = 0;
    } else if *phase == 2 && !empty_line && !str_contains(
        line,
        "\u{2500}\u{2500}\u{2500}\u{2500}",
    ) {
        let cols = split_str(line, "\u{2502}");
        if cols.len() == 3 {
            let mut new_delegation = Delegation::new();
            proof {
                assert(cols.deep_view()[0] == cols@[0]@);
                assert(cols.deep_view()[1] == cols@[1]@);
                assert(cols.deep_view()[2] == cols@[2]@);
            }
            new_delegation.set_name(trim_end(cols[0].as_str()));
            let parts = split_str(cols[1].as_str(), ",");
            let m = parts.len();
            let mut k: usize = 0;
            proof {
                assert(new_delegation@.permissions =~= trim_all(
                    spec_split(cols.deep_view()[1], ","@),
                ).take(0));
            }
            while k < m
                invariant
                    m == parts.len(),
                    k <= m,
                    parts.deep_view() == spec_split(cols.deep_view()[1], ","@),
                    new_delegation@.permissions == trim_all(
                        spec_split(cols.deep_view()[1], ","@),
                    ).take(k as int),
                    new_delegation@.name == spec_trim_end(cols.deep_view()[0]),
                    new_delegation@.inherited =~= Seq::<char>::empty(),
                decreases m - k,
            {
                proof {
                    assert(parts.deep_view()[k as int] == parts@[k as int]@);
                }
                new_delegation.add_permission(trim(parts[k].as_str()));
                proof {
                    let all = trim_all(spec_split(cols.deep_view()[1], ","@));
                    assert(all[k as int] == spec_trim(parts.deep_view()[k as int]));
                    assert(all.take(k + 1) =~= all.take(k as int).push(all[k as int]));
                }
                k += 1;
            }
            new_delegation.set_inheritence(trim_end(cols[2].as_str()));
            proof {
                let all = trim_all(spec_split(cols.deep_view()[1], ","@));
                assert(all.take(m as int) =~= all);
            }
            delegation.push(new_delegation);
            proof {
                assert(delegation.deep_view() =~= spec_del_row(
                    old(delegation).deep_view(),
                    line@,
                ));
            }
        } else {
            proof {
                assert(delegation.deep_view() =~= spec_del_row(
                    old(delegation).deep_view(),
                    line@,
                ));
            }
        }
    }
}

fn track_policy(policies: &mut Vec<Policy>, active: &mut bool, line: &str)
    ensures
        ({
            let r = pol_step(old(policies).deep_view(), *old(active), line@);
            final(policies).deep_view() == r.0 && *final(active) == r.1
        }),
{
    proof {
        reveal_strlit("\u{2502}");
        reveal_strlit(",");
    }
    let empty_line = line.is_empty();
    if str_starts_with(line, "Policy") && !*active {
        *active = true;
    } else if *active && empty_line {
        *active = false;
    } else if *active && !empty_line && !str_starts_with(
        line,
        "\u{2500}\u{2500}\u{2500}\u{2500}",
    ) {
        let cols = split_str(line, "\u{2502}");
        if cols.len() > 1 {
            let mut new_policy = Policy::new();
            proof {
                assert(cols.deep_view()[0] == cols@[0]@);
                assert(cols.deep_view()[1] == cols@[1]@);
            }
            new_policy.set_value(trim(cols[0].as_str()));
            let parts = split_str(cols[1].as_str(), ",");
            let m = parts.len();
            let mut k: usize = 0;
            proof {
                assert(new_policy@.setting =~= trim_all(
                    spec_split(cols.deep_view()[1], ","@),
                ).take(0));
            }
            while k < m
                invariant
                    m == parts.len(),
                    k <= m,
                    parts.deep_view() == spec_split(cols.deep_view()[1], ","@),
                    new_policy@.setting == trim_all(
                        spec_split(cols.deep_view()[1], ","@),
                    ).take(k as int),
                    new_policy@.value == spec_trim(cols.deep_view()[0]),
                decreases m - k,
            {
                proof {
                    assert(parts.deep_view()[k as int] == parts@[k as int]@);
                }
                new_policy.add_setting(trim(parts[k].as_str()));
                proof {
                    let all = trim_all(spec_split(cols.deep_view()[1], ","@));
                    assert(all[k as int] == spec_trim(parts.deep_view()[k as int]));
                    assert(all.take(k + 1) =~= all.take(k as int).push(all[k as int]));
                }
                k += 1;
            }
            proof {
                let all = trim_all(spec_split(cols.deep_view()[1], ","@));
                assert(all.take(m as int) =~= all);
            }
            policies.push(new_policy);
            proof {
                assert(policies.deep_view() =~= spec_pol_row(old(policies).deep_view(), line@));
            }
        } else {
            proof {
                assert(policies.deep_view() =~= spec_pol_row(old(policies).deep_view(), line@));
            }
        }
    }
}

impl GroupPolicy {
    /// Parses the plain-text rendering of one audited object. Malformed
    /// rows are dropped, never an error; absent sections leave their
    /// collections empty.
    pub fn from_lines(lines: &Vec<String>) -> (r: GroupPolicy)
        ensures
            r@ == spec_parse(lines.deep_view()),
    {
        let mut name = String::new();
        let mut name_block = true;
        let mut details = Details::new();
        let mut details_block = false;
        let mut links: Vec<Link> = Vec::new();
        let mut links_block = false;
        let mut filtering: Vec<String> = Vec::new();
        let mut filtering_block: u8 = 0;
        let mut delegation: Vec<Delegation> = Vec::new();
        let mut delegation_block: u8 = 0;
        let mut policies: Vec<Policy> = Vec::new();
        let mut policy_block = false;

        let n = lines.len();
        let mut i: usize = 0;
        proof {
            assert(lines.deep_view().take(0) =~= Seq::<Seq<char>>::empty());
            assert(parse_fold(lines.deep_view().take(0)) == init_state());
            assert(links.deep_view() =~= Seq::<LinkV>::empty());
            assert(filtering.deep_view() =~= Seq::<Seq<char>>::empty());
            assert(delegation.deep_view() =~= Seq::<DelegationV>::empty());
            assert(policies.deep_view() =~= Seq::<PolicyV>::empty());
        }
        while i < n
            invariant
                n == lines.len(),
                i <= n,
                filtering_block <= 2,
                delegation_block <= 2,
                ({
                    let st = parse_fold(lines.deep_view().take(i as int));
                    &&& st.name == name@
                    &&& st.name_pending == name_block
                    &&& st.details == details@
                    &&& st.details_active == details_block
                    &&& st.links == links.deep_view()
                    &&& st.links_active == links_block
                    &&& st.filtering == filtering.deep_view()
                    &&& st.filt_phase == filtering_block as int
                    &&& st.delegation == delegation.deep_view()
                    &&& st.del_phase == delegation_block as int
                    &&& st.policies == policies.deep_view()
                    &&& st.pol_active == policy_block
                }),
            decreases n - i,
        {
            let ghost st0 = parse_fold(lines.deep_view().take(i as int));
            let line = lines[i].as_str();
            let ghost l = line@;
            proof {
                assert(l == lines.deep_view()[i as int]);
            }

            track_name(&mut name, &mut name_block, line);
            track_details(&mut details, &mut details_block, line);
            track_links(&mut links, &mut links_block, line);
            track_filtering(&mut filtering, &mut filtering_block, line);
            track_delegation(&mut delegation, &mut delegation_block, line);
            track_policy(&mut policies, &mut policy_block, line);

            proof {
                let pre = lines.deep_view().take(i as int);
                let post = lines.deep_view().take(i + 1);
                assert(post.drop_last() =~= pre);
                assert(post.last() == l);
                assert(parse_fold(post) == spec_step(st0, l));
            }
            i += 1;
        }
        proof {
            assert(lines.deep_view().take(n as int) =~= lines.deep_view());
        }
        GroupPolicy { name, details, links, filtering, delegation, policies }
    }
}

} // verus!
