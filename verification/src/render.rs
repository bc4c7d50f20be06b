//! Human-readable renderings of records and their sections, used by the
//! matched-conditions output and the classifier's report entries.

use vstd::prelude::*;
use vstd::string::StringExecFns;
use crate::gpo::{
    Delegation, DelegationV, GroupPolicy, GroupPolicyV, Link, LinkV, Policy, PolicyV,
};
use crate::text::{spec_trim_end, trim_end};

verus! {

// ---------------------------------------------------------------------------
// Spec-level renderings.
// ---------------------------------------------------------------------------

/// A link line: location and status, trailing whitespace trimmed.
pub open spec fn render_link(l: LinkV) -> Seq<char> {
    spec_trim_end("L:"@ + l.location + ":"@ + "S:"@ + l.status + " "@)
}

/// The elements, each followed by one space.
pub open spec fn join_sp(ps: Seq<Seq<char>>) -> Seq<char>
    decreases ps.len(),
{
    if ps.len() == 0 {
        Seq::empty()
    } else {
        ps[0] + " "@ + join_sp(ps.skip(1))
    }
}

/// A delegation line: principal, permissions, inheritance flag.
pub open spec fn render_delegation(d: DelegationV) -> Seq<char> {
    "\tName: "@ + d.name + " | Permissions: "@ + join_sp(d.permissions) + "| Inherited "@
        + d.inherited + "\n"@
}

/// A policy line: value and settings, trailing whitespace trimmed.
pub open spec fn render_policy(p: PolicyV) -> Seq<char> {
    spec_trim_end("Policy: "@ + p.value + " | Settings: "@ + join_sp(p.setting))
}

/// The link renderings, each followed by one space.
pub open spec fn join_links(ls: Seq<LinkV>) -> Seq<char>
    decreases ls.len(),
{
    if ls.len() == 0 {
        Seq::empty()
    } else {
        render_link(ls[0]) + " "@ + join_links(ls.skip(1))
    }
}

/// The record summary line: name, status, and the link list.
pub open spec fn render_gpo(g: GroupPolicyV) -> Seq<char> {
    "\tName: "@ + g.name + " | GPO Status: "@ + g.details.status + "\n"@ + "\tLinks: [ "@
        + spec_trim_end(join_links(g.links)) + " ]"@
}

// ---------------------------------------------------------------------------
// Exec renderings.
// ---------------------------------------------------------------------------

/// The elements of `ps`, each followed by one space.
fn join_sp_exec(ps: &Vec<String>) -> (r: String)
    ensures
        r@ == join_sp(ps.deep_view()),
{
    let n = ps.len();
    let mut out = String::new();
    let mut i: usize = 0;
    proof {
        assert(ps.deep_view().skip(0) =~= ps.deep_view());
        assert(out@ + join_sp(ps.deep_view()) =~= join_sp(ps.deep_view()));
    }
    while i < n
        invariant
            n == ps.len(),
            i <= n,
            join_sp(ps.deep_view()) == out@ + join_sp(ps.deep_view().skip(i as int)),
        decreases n - i,
    {
        proof {
            assert(ps.deep_view()[i as int] == ps@[i as int]@);
            assert(ps.deep_view().skip(i as int).skip(1) =~= ps.deep_view().skip(i + 1));
            assert(ps.deep_view().skip(i as int)[0] == ps.deep_view()[i as int]);
        }
        out.append(ps[i].as_str());
        out.append(" ");
        proof {
            assert(out@ + join_sp(ps.deep_view().skip(i + 1)) =~= join_sp(ps.deep_view()));
        }
        i += 1;
    }
    proof {
        assert(ps.deep_view().skip(n as int) =~= Seq::<Seq<char>>::empty());
        assert(out@ + join_sp(ps.deep_view().skip(n as int)) =~= out@);
    }
    out
}

impl Link {
    /// The link line as the reports print it.
    pub fn to_display_string(&self) -> (r: String)
        ensures
            r@ == render_link(self@),
    {
        let mut s = String::new();
        s.append("L:");
        s.append(self.location.as_str());
        s.append(":");
        s.append("S:");
        s.append(self.status.as_str());
        s.append(" ");
        proof {
            assert(s@ =~= "L:"@ + self@.location + ":"@ + "S:"@ + self@.status + " "@);
        }
        trim_end(s.as_str()).to_owned()
    }
}

impl Delegation {
    /// The delegation line as the reports print it.
    pub fn to_display_string(&self) -> (r: String)
        ensures
            r@ == render_delegation(self@),
    {
        let mut s = String::new();
        s.append("\tName: ");
        s.append(self.name.as_str());
        s.append(" | Permissions: ");
        let perms = join_sp_exec(&self.permissions);
        s.append(perms.as_str());
        s.append("| Inherited ");
        s.append(self.inherited.as_str());
        s.append("\n");
        proof {
            assert(s@ =~= render_delegation(self@));
        }
        s
    }
}

impl Policy {
    /// The policy line as the reports print it.
    pub fn to_display_string(&self) -> (r: String)
        ensures
            r@ == render_policy(self@),
    {
        let mut s = String::new();
        s.append("Policy: ");
        s.append(self.value.as_str());
        s.append(" | Settings: ");
        let settings = join_sp_exec(&self.setting);
        s.append(settings.as_str());
        proof {
            assert(s@ =~= "Policy: "@ + self@.value + " | Settings: "@ + join_sp(self@.setting));
        }
        trim_end(s.as_str()).to_owned()
    }
}

impl GroupPolicy {
    /// The one-line record summary as the reports print it.
    pub fn to_display_string(&self) -> (r: String)
        ensures
            r@ == render_gpo(self@),
    {
        let n = self.links.len();
        let mut ls = String::new();
        let mut i: usize = 0;
        proof {
            assert(self@.links.skip(0) =~= self@.links);
            assert(ls@ + join_links(self@.links) =~= join_links(self@.links));
        }
        while i < n
            invariant
                n == self.links.len(),
                i <= n,
                join_links(self@.links) == ls@ + join_links(self@.links.skip(i as int)),
            decreases n - i,
        {
            proof {
                assert(self@.links[i as int] == self.links@[i as int]@);
                assert(self@.links.skip(i as int).skip(1) =~= self@.links.skip(i + 1));
                assert(self@.links.skip(i as int)[0] == self@.links[i as int]);
            }
            let piece = self.links[i].to_display_string();
            ls.append(piece.as_str());
            ls.append(" ");
            proof {
                assert(ls@ + join_links(self@.links.skip(i + 1)) =~= join_links(self@.links));
            }
            i += 1;
        }
        proof {
            assert(self@.links.skip(n as int) =~= Seq::<LinkV>::empty());
            assert(ls@ + join_links(self@.links.skip(n as int)) =~= ls@);
        }
        let mut s = String::new();
        s.append("\tName: ");
        s.append(self.name.as_str());
        s.append(" | GPO Status: ");
        s.append(self.details.status.as_str());
        s.append("\n");
        s.append("\tLinks: [ ");
        s.append(trim_end(ls.as_str()));
        s.append(" ]");
        proof {
            assert(s@ =~= render_gpo(self@));
        }
        s
    }
}

} // verus!
