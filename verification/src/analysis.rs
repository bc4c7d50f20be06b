//! The classifier: rule-definition lines — `<tag>--<cond>[|<cond>...]` —
//! partitioned by tag, each rule evaluated against every record, and the
//! results accumulated into four ordered report buckets.

use vstd::prelude::*;
use vstd::string::StrSliceExecFns;
use vstd::string::StringExecFns;
use crate::gpo::{trim_all, GroupPolicy, GroupPolicyV};
use crate::query::{spec_query, spec_render};
use crate::render::render_gpo;
use crate::text::{
    lower_of, spec_split, spec_trim, spec_trim_end, split_str, str_eq, to_lower, trim, trim_end,
};

verus! {

// ---------------------------------------------------------------------------
// Rules.
// ---------------------------------------------------------------------------

/// The four classification outcomes a rule can ask for.
#[derive(Debug, Clone, Copy, PartialEq, Eq, Structural)]
pub enum RuleTag {
    Desirable,
    Undesirable,
    Warning,
    Missing,
}

/// One parsed rule: a tag and the AND-ed condition strings, trimmed.
#[derive(Debug, Clone)]
pub struct Rule {
    pub tag: RuleTag,
    pub conditions: Vec<String>,
}

#[verifier::ext_equal]
pub ghost struct RuleV {
    pub tag: RuleTag,
    pub conditions: Seq<Seq<char>>,
}

impl View for Rule {
    type V = RuleV;

    open spec fn view(&self) -> RuleV {
        RuleV { tag: self.tag, conditions: self.conditions.deep_view() }
    }
}

/// One rule-definition file: where it came from, and its lines.
#[derive(Debug, Clone)]
pub struct RuleFile {
    pub source: String,
    pub lines: Vec<String>,
}

#[verifier::ext_equal]
pub ghost struct RuleFileV {
    pub source: Seq<char>,
    pub lines: Seq<Seq<char>>,
}

impl View for RuleFile {
    type V = RuleFileV;

    open spec fn view(&self) -> RuleFileV {
        RuleFileV { source: self.source@, lines: self.lines.deep_view() }
    }
}

impl DeepView for RuleFile {
    type V = RuleFileV;

    open spec fn deep_view(&self) -> RuleFileV {
        self.view()
    }
}

/// What one rule-definition line parses to: `None` for an empty line, a
/// line without exactly one `--`, or an unknown tag — such a line is
/// ignored, never an error.
pub open spec fn spec_parse_rule(line: Seq<char>) -> Option<RuleV> {
    if line.len() == 0 {
        None
    } else {
        let parts = spec_split(line, "--"@);
        if parts.len() != 2 {
            None
        } else {
            let tag = spec_trim(lower_of(parts[0]));
            let conds = trim_all(spec_split(parts[1], "|"@));
            if tag.len() > 0 && tag[0] == 'u' {
                Some(RuleV { tag: RuleTag::Undesirable, conditions: conds })
            } else if tag.len() > 0 && tag[0] == 'd' {
                Some(RuleV { tag: RuleTag::Desirable, conditions: conds })
            } else if tag.len() > 0 && tag[0] == 'w' {
                Some(RuleV { tag: RuleTag::Warning, conditions: conds })
            } else if tag.len() > 0 && tag[0] == 'm' {
                Some(RuleV { tag: RuleTag::Missing, conditions: conds })
            } else {
                None
            }
        }
    }
}

/// Parses one rule-definition line.
pub fn parse_rule(line: &str) -> (r: Option<Rule>)
    ensures
        match r {
            Some(rule) => spec_parse_rule(line@) == Some(rule@),
            None => spec_parse_rule(line@) is None,
        },
{
    proof {
        reveal_strlit("--");
        reveal_strlit("|");
    }
    if line.is_empty() {
        return None;
    }
    let parts = split_str(line, "--");
    if parts.len() != 2 {
        return None;
    }
    proof {
        assert(parts.deep_view()[0] == parts@[0]@);
        assert(parts.deep_view()[1] == parts@[1]@);
    }
    let lowered = to_lower(parts[0].as_str());
    let tag = trim(lowered.as_str());
    if tag.is_empty() {
        return None;
    }
    let t0 = tag.get_char(0);
    let tag_val: RuleTag = if t0 == 'u' {
        RuleTag::Undesirable
    } else if t0 == 'd' {
        RuleTag::Desirable
    } else if t0 == 'w' {
        RuleTag::Warning
    } else if t0 == 'm' {
        RuleTag::Missing
    } else {
        return None;
    };
    let raw = split_str(parts[1].as_str(), "|");
    let m = raw.len();
    let mut conds: Vec<String> = Vec::new();
    let mut k: usize = 0;
    proof {
        assert(conds.deep_view() =~= trim_all(raw.deep_view()).take(0));
    }
    while k < m
        invariant
            m == raw.len(),
            k <= m,
            conds.deep_view() == trim_all(raw.deep_view()).take(k as int),
        decreases m - k,
    {
        proof {
            assert(raw.deep_view()[k as int] == raw@[k as int]@);
        }
        conds.push(trim(raw[k].as_str()).to_owned());
        proof {
            let all = trim_all(raw.deep_view());
            assert(all[k as int] == spec_trim(raw.deep_view()[k as int]));
            assert(all.take(k + 1) =~= all.take(k as int).push(all[k as int]));
        }
        k += 1;
    }
    proof {
        assert(trim_all(raw.deep_view()).take(m as int) =~= trim_all(raw.deep_view()));
    }
    let rule = Rule { tag: tag_val, conditions: conds };
    proof {
        assert(spec_parse_rule(line@) == Some(rule@));
    }
    Some(rule)
}

// ---------------------------------------------------------------------------
// Rule evaluation and report entries.
// ---------------------------------------------------------------------------

/// A record satisfies a rule when every condition matches it.
pub open spec fn spec_rule_satisfied(g: GroupPolicyV, conds: Seq<Seq<char>>) -> bool {
    forall|i: int| 0 <= i < conds.len() ==> spec_query(g, conds[i])
}

pub fn rule_satisfied(g: &GroupPolicy, conds: &Vec<String>) -> (r: bool)
    ensures
        r == spec_rule_satisfied(g@, conds.deep_view()),
{
    let n = conds.len();
    let mut i: usize = 0;
    while i < n
        invariant
            n == conds.len(),
            i <= n,
            forall|j: int| 0 <= j < i ==> spec_query(g@, conds.deep_view()[j]),
        decreases n - i,
    {
        proof {
            assert(conds.deep_view()[i as int] == conds@[i as int]@);
        }
        if !g.query_gpo(conds[i].as_str()) {
            return false;
        }
        i += 1;
    }
    true
}

/// The condition block of a report entry.
pub open spec fn join_conds(conds: Seq<Seq<char>>) -> Seq<char>
    decreases conds.len(),
{
    if conds.len() == 0 {
        Seq::empty()
    } else {
        conds[0] + "\n\t"@ + join_conds(conds.skip(1))
    }
}

pub open spec fn conds_text(conds: Seq<Seq<char>>) -> Seq<char> {
    spec_trim_end("Query Condition(s):\n\t"@ + join_conds(conds))
}

fn conds_text_exec(conds: &Vec<String>) -> (r: String)
    ensures
        r@ == conds_text(conds.deep_view()),
{
    let n = conds.len();
    let mut out = String::new();
    out.append("Query Condition(s):\n\t");
    let mut i: usize = 0;
    proof {
        assert(conds.deep_view().skip(0) =~= conds.deep_view());
        assert(out@ + join_conds(conds.deep_view()) =~= "Query Condition(s):\n\t"@ + join_conds(
            conds.deep_view(),
        ));
    }
    while i < n
        invariant
            n == conds.len(),
            i <= n,
            "Query Condition(s):\n\t"@ + join_conds(conds.deep_view()) == out@ + join_conds(
                conds.deep_view().skip(i as int),
            ),
        decreases n - i,
    {
        proof {
            assert(conds.deep_view()[i as int] == conds@[i as int]@);
            assert(conds.deep_view().skip(i as int).skip(1) =~= conds.deep_view().skip(i + 1));
            assert(conds.deep_view().skip(i as int)[0] == conds.deep_view()[i as int]);
        }
        out.append(conds[i].as_str());
        out.append("\n\t");
        proof {
            assert(out@ + join_conds(conds.deep_view().skip(i + 1)) =~= "Query Condition(s):\n\t"@
                + join_conds(conds.deep_view()));
        }
        i += 1;
    }
    proof {
        assert(conds.deep_view().skip(n as int) =~= Seq::<Seq<char>>::empty());
        assert(out@ + join_conds(conds.deep_view().skip(n as int)) =~= out@);
    }
    trim_end(out.as_str()).to_owned()
}

/// The matched renderings a satisfied rule reports: one per condition,
/// empty ones left out, duplicates kept once, insertion order preserved.
pub open spec fn spec_gather_from(
    g: GroupPolicyV,
    conds: Seq<Seq<char>>,
    kept: Seq<Seq<char>>,
) -> Seq<Seq<char>>
    decreases conds.len(),
{
    if conds.len() == 0 {
        kept
    } else {
        let m = spec_render(g, conds[0]);
        let kept2 = if m.len() > 0 && !kept.contains(m) {
            kept.push(m)
        } else {
            kept
        };
        spec_gather_from(g, conds.skip(1), kept2)
    }
}

/// The kept renderings, each followed by a newline and a tab.
pub open spec fn join_matches(ks: Seq<Seq<char>>) -> Seq<char>
    decreases ks.len(),
{
    if ks.len() == 0 {
        Seq::empty()
    } else {
        ks[0] + "\n\t"@ + join_matches(ks.skip(1))
    }
}

pub open spec fn matches_text(g: GroupPolicyV, conds: Seq<Seq<char>>) -> Seq<char> {
    spec_trim_end(join_matches(spec_gather_from(g, conds, Seq::empty())))
}

fn contains_string(v: &Vec<String>, x: &str) -> (r: bool)
    ensures
        r == v.deep_view().contains(x@),
{
    let n = v.len();
    let mut i: usize = 0;
    while i < n
        invariant
            n == v.len(),
            i <= n,
            forall|j: int| 0 <= j < i ==> v.deep_view()[j] != x@,
        decreases n - i,
    {
        proof {
            assert(v.deep_view()[i as int] == v@[i as int]@);
        }
        if str_eq(v[i].as_str(), x) {
            return true;
        }
        i += 1;
    }
    false
}

fn matches_text_exec(g: &GroupPolicy, conds: &Vec<String>) -> (r: String)
    ensures
        r@ == matches_text(g@, conds.deep_view()),
{
    let n = conds.len();
    let mut kept: Vec<String> = Vec::new();
    let mut i: usize = 0;
    proof {
        assert(conds.deep_view().skip(0) =~= conds.deep_view());
        assert(kept.deep_view() =~= Seq::<Seq<char>>::empty());
    }
    while i < n
        invariant
            n == conds.len(),
            i <= n,
            spec_gather_from(g@, conds.deep_view(), Seq::empty()) == spec_gather_from(
                g@,
                conds.deep_view().skip(i as int),
                kept.deep_view(),
            ),
        decreases n - i,
    {
        proof {
            assert(conds.deep_view()[i as int] == conds@[i as int]@);
            assert(conds.deep_view().skip(i as int).skip(1) =~= conds.deep_view().skip(i + 1));
            assert(conds.deep_view().skip(i as int)[0] == conds.deep_view()[i as int]);
        }
        let m = g.get_matching_conditions(conds[i].as_str());
        if !m.as_str().is_empty() && !contains_string(&kept, m.as_str()) {
            let ghost before = kept.deep_view();
            kept.push(m);
            proof {
                assert(kept.deep_view() =~= before.push(
                    spec_render(g@, conds.deep_view()[i as int]),
                ));
            }
        }
        i += 1;
    }
    proof {
        assert(conds.deep_view().skip(n as int) =~= Seq::<Seq<char>>::empty());
    }
    let kn = kept.len();
    let mut out = String::new();
    let mut k: usize = 0;
    proof {
        assert(kept.deep_view().skip(0) =~= kept.deep_view());
        assert(out@ + join_matches(kept.deep_view()) =~= join_matches(kept.deep_view()));
    }
    while k < kn
        invariant
            kn == kept.len(),
            k <= kn,
            join_matches(kept.deep_view()) == out@ + join_matches(
                kept.deep_view().skip(k as int),
            ),
        decreases kn - k,
    {
        proof {
            assert(kept.deep_view()[k as int] == kept@[k as int]@);
            assert(kept.deep_view().skip(k as int).skip(1) =~= kept.deep_view().skip(k + 1));
            assert(kept.deep_view().skip(k as int)[0] == kept.deep_view()[k as int]);
        }
        out.append(kept[k].as_str());
        out.append("\n\t");
        proof {
            assert(out@ + join_matches(kept.deep_view().skip(k + 1)) =~= join_matches(
                kept.deep_view(),
            ));
        }
        k += 1;
    }
    proof {
        assert(kept.deep_view().skip(kn as int) =~= Seq::<Seq<char>>::empty());
        assert(out@ + join_matches(kept.deep_view().skip(kn as int)) =~= out@);
    }
    trim_end(out.as_str()).to_owned()
}

/// One report entry for a satisfying (rule, record) pair.
pub open spec fn spec_entry(
    source: Seq<char>,
    g: GroupPolicyV,
    conds: Seq<Seq<char>>,
) -> Seq<char> {
    source + "\n"@ + render_gpo(g) + "\n\t"@ + conds_text(conds) + "\n\tMatching Value(s):\n\t"@
        + matches_text(g, conds) + "\n\n"@
}

fn entry_exec(source: &str, g: &GroupPolicy, conds: &Vec<String>) -> (r: String)
    ensures
        r@ == spec_entry(source@, g@, conds.deep_view()),
{
    let mut out = String::new();
    out.append(source);
    out.append("\n");
    let summary = g.to_display_string();
    out.append(summary.as_str());
    out.append("\n\t");
    let ct = conds_text_exec(conds);
    out.append(ct.as_str());
    out.append("\n\tMatching Value(s):\n\t");
    let mt = matches_text_exec(g, conds);
    out.append(mt.as_str());
    out.append("\n\n");
    proof {
        assert(out@ =~= spec_entry(source@, g@, conds.deep_view()));
    }
    out
}

/// The missing-bucket entry for a rule no record satisfies.
pub open spec fn spec_missing_entry(source: Seq<char>, conds: Seq<Seq<char>>) -> Seq<char> {
    source + "\n\t"@ + conds_text(conds) + "\n\n"@
}

fn missing_entry_exec(source: &str, conds: &Vec<String>) -> (r: String)
    ensures
        r@ == spec_missing_entry(source@, conds.deep_view()),
{
    let mut out = String::new();
    out.append(source);
    out.append("\n\t");
    let ct = conds_text_exec(conds);
    out.append(ct.as_str());
    out.append("\n\n");
    proof {
        assert(out@ =~= spec_missing_entry(source@, conds.deep_view()));
    }
    out
}

// ---------------------------------------------------------------------------
// The four report buckets and the classification pass.
// ---------------------------------------------------------------------------

/// The four ordered report collections.
#[derive(Debug)]
pub struct Buckets {
    pub desirable: Vec<String>,
    pub undesirable: Vec<String>,
    pub warning: Vec<String>,
    pub missing: Vec<String>,
}

#[verifier::ext_equal]
pub ghost struct BucketsV {
    pub desirable: Seq<Seq<char>>,
    pub undesirable: Seq<Seq<char>>,
    pub warning: Seq<Seq<char>>,
    pub missing: Seq<Seq<char>>,
}

impl View for Buckets {
    type V = BucketsV;

    open spec fn view(&self) -> BucketsV {
        BucketsV {
            desirable: self.desirable.deep_view(),
            undesirable: self.undesirable.deep_view(),
            warning: self.warning.deep_view(),
            missing: self.missing.deep_view(),
        }
    }
}

pub open spec fn empty_buckets() -> BucketsV {
    BucketsV {
        desirable: Seq::empty(),
        undesirable: Seq::empty(),
        warning: Seq::empty(),
        missing: Seq::empty(),
    }
}

/// One entry per record the rule's conditions all match, in record
/// order.
pub open spec fn entries_for(
    source: Seq<char>,
    records: Seq<GroupPolicyV>,
    conds: Seq<Seq<char>>,
) -> Seq<Seq<char>>
    decreases records.len(),
{
    if records.len() == 0 {
        Seq::empty()
    } else {
        (if spec_rule_satisfied(records[0], conds) {
            seq![spec_entry(source, records[0], conds)]
        } else {
            Seq::empty()
        }) + entries_for(source, records.skip(1), conds)
    }
}

/// What one rule-definition line adds to the buckets: entries for every
/// satisfying record under its tag, or — for a Missing rule — exactly
/// one entry when no record satisfies it.
pub open spec fn spec_apply_rule(
    b: BucketsV,
    source: Seq<char>,
    line: Seq<char>,
    records: Seq<GroupPolicyV>,
) -> BucketsV {
    match spec_parse_rule(line) {
        Option::None => b,
        Option::Some(rule) => match rule.tag {
            RuleTag::Undesirable => BucketsV {
                undesirable: b.undesirable + entries_for(source, records, rule.conditions),
                ..b
            },
            RuleTag::Desirable => BucketsV {
                desirable: b.desirable + entries_for(source, records, rule.conditions),
                ..b
            },
            RuleTag::Warning => BucketsV {
                warning: b.warning + entries_for(source, records, rule.conditions),
                ..b
            },
            RuleTag::Missing => {
                if exists|i: int|
                    0 <= i < records.len() && spec_rule_satisfied(records[i], rule.conditions) {
                    b
                } else {
                    BucketsV {
                        missing: b.missing.push(spec_missing_entry(source, rule.conditions)),
                        ..b
                    }
                }
            },
        },
    }
}

pub open spec fn spec_classify_lines(
    b: BucketsV,
    source: Seq<char>,
    lines: Seq<Seq<char>>,
    records: Seq<GroupPolicyV>,
) -> BucketsV
    decreases lines.len(),
{
    if lines.len() == 0 {
        b
    } else {
        spec_classify_lines(
            spec_apply_rule(b, source, lines[0], records),
            source,
            lines.skip(1),
            records,
        )
    }
}

pub open spec fn spec_classify_files(
    b: BucketsV,
    files: Seq<RuleFileV>,
    records: Seq<GroupPolicyV>,
) -> BucketsV
    decreases files.len(),
{
    if files.len() == 0 {
        b
    } else {
        spec_classify_files(
            spec_classify_lines(b, files[0].source, files[0].lines, records),
            files.skip(1),
            records,
        )
    }
}

/// The buckets a full classification pass produces: files, then lines,
/// then records, in order.
pub open spec fn spec_classify(files: Seq<RuleFileV>, records: Seq<GroupPolicyV>) -> BucketsV {
    spec_classify_files(empty_buckets(), files, records)
}

fn entries_for_exec(source: &str, records: &Vec<GroupPolicy>, conds: &Vec<String>) -> (r: Vec<
    String,
>)
    ensures
        r.deep_view() == entries_for(source@, records.deep_view(), conds.deep_view()),
{
    let n = records.len();
    let mut out: Vec<String> = Vec::new();
    let mut i: usize = 0;
    proof {
        assert(records.deep_view().skip(0) =~= records.deep_view());
        assert(out.deep_view() + entries_for(source@, records.deep_view(), conds.deep_view())
            =~= entries_for(source@, records.deep_view(), conds.deep_view()));
    }
    while i < n
        invariant
            n == records.len(),
            i <= n,
            entries_for(source@, records.deep_view(), conds.deep_view()) == out.deep_view()
                + entries_for(
                source@,
                records.deep_view().skip(i as int),
                conds.deep_view(),
            ),
        decreases n - i,
    {
        proof {
            assert(records.deep_view()[i as int] == records@[i as int]@);
            assert(records.deep_view().skip(i as int).skip(1) =~= records.deep_view().skip(
                i + 1,
            ));
            assert(records.deep_view().skip(i as int)[0] == records.deep_view()[i as int]);
        }
        if rule_satisfied(&records[i], conds) {
            let e = entry_exec(source, &records[i], conds);
            out.push(e);
        }
        proof {
            assert(out.deep_view() + entries_for(
                source@,
                records.deep_view().skip(i + 1),
                conds.deep_view(),
            ) =~= entries_for(source@, records.deep_view(), conds.deep_view()));
        }
        i += 1;
    }
    proof {
        assert(records.deep_view().skip(n as int) =~= Seq::<GroupPolicyV>::empty());
        assert(out.deep_view() + entries_for(
            source@,
            records.deep_view().skip(n as int),
            conds.deep_view(),
        ) =~= out.deep_view());
    }
    out
}

fn any_satisfied(records: &Vec<GroupPolicy>, conds: &Vec<String>) -> (r: bool)
    ensures
        r == exists|i: int|
            0 <= i < records.deep_view().len() && spec_rule_satisfied(
                records.deep_view()[i],
                conds.deep_view(),
            ),
{
    let n = records.len();
    let mut i: usize = 0;
    while i < n
        invariant
            n == records.len(),
            i <= n,
            forall|j: int|
                0 <= j < i ==> !spec_rule_satisfied(records.deep_view()[j], conds.deep_view()),
        decreases n - i,
    {
        proof {
            assert(records.deep_view()[i as int] == records@[i as int]@);
        }
        if rule_satisfied(&records[i], conds) {
            return true;
        }
        i += 1;
    }
    false
}

/// Appends every element of `extra` to `dst`.
fn push_all(dst: &mut Vec<String>, extra: Vec<String>)
    ensures
        final(dst).deep_view() == old(dst).deep_view() + extra.deep_view(),
{
    let n = extra.len();
    let mut i: usize = 0;
    proof {
        assert(old(dst).deep_view() + extra.deep_view().take(0) =~= old(dst).deep_view());
    }
    while i < n
        invariant
            n == extra.len(),
            i <= n,
            dst.deep_view() == old(dst).deep_view() + extra.deep_view().take(i as int),
        decreases n - i,
    {
        proof {
            assert(extra.deep_view()[i as int] == extra@[i as int]@);
        }
        let ghost before = dst.deep_view();
        dst.push(extra[i].clone());
        proof {
            assert(dst.deep_view() =~= before.push(extra.deep_view()[i as int]));
            assert(extra.deep_view().take(i + 1) =~= extra.deep_view().take(i as int).push(
                extra.deep_view()[i as int],
            ));
            assert(dst.deep_view() =~= old(dst).deep_view() + extra.deep_view().take(i + 1));
        }
        i += 1;
    }
    proof {
        assert(extra.deep_view().take(n as int) =~= extra.deep_view());
    }
}

impl Buckets {
    pub fn new() -> (r: Buckets)
        ensures
            r@ =~= empty_buckets(),
    {
        Buckets {
            desirable: Vec::new(),
            undesirable: Vec::new(),
            warning: Vec::new(),
            missing: Vec::new(),
        }
    }
}

/// Runs every rule line of every rule file against every record and
/// accumulates the four report buckets, in file, line, record order.
pub fn classify(records: &Vec<GroupPolicy>, rule_files: &Vec<RuleFile>) -> (r: Buckets)
    ensures
        r@ == spec_classify(rule_files.deep_view(), records.deep_view()),
{
    let mut b = Buckets::new();
    let nf = rule_files.len();
    let mut fi: usize = 0;
    proof {
        assert(rule_files.deep_view().skip(0) =~= rule_files.deep_view());
    }
    while fi < nf
        invariant
            nf == rule_files.len(),
            fi <= nf,
            spec_classify(rule_files.deep_view(), records.deep_view()) == spec_classify_files(
                b@,
                rule_files.deep_view().skip(fi as int),
                records.deep_view(),
            ),
        decreases nf - fi,
    {
        proof {
            assert(rule_files.deep_view()[fi as int] == rule_files@[fi as int]@);
            assert(rule_files.deep_view().skip(fi as int).skip(1) =~= rule_files.deep_view().skip(
                fi + 1,
            ));
            assert(rule_files.deep_view().skip(fi as int)[0] == rule_files.deep_view()[fi as int]);
        }
        let file = &rule_files[fi];
        let src = file.source.as_str();
        let nl = file.lines.len();
        let mut li: usize = 0;
        proof {
            assert(file.lines.deep_view().skip(0) =~= file.lines.deep_view());
        }
        while li < nl
            invariant
                nl == file.lines.len(),
                li <= nl,
                src@ == rule_files.deep_view()[fi as int].source,
                file.lines.deep_view() == rule_files.deep_view()[fi as int].lines,
                0 <= fi < rule_files.deep_view().len(),
                spec_classify(rule_files.deep_view(), records.deep_view())
                    == spec_classify_files(
                    spec_classify_lines(
                        b@,
                        src@,
                        file.lines.deep_view().skip(li as int),
                        records.deep_view(),
                    ),
                    rule_files.deep_view().skip(fi + 1),
                    records.deep_view(),
                ),
            decreases nl - li,
        {
            proof {
                assert(file.lines.deep_view()[li as int] == file.lines@[li as int]@);
                assert(file.lines.deep_view().skip(li as int).skip(1)
                    =~= file.lines.deep_view().skip(li + 1));
                assert(file.lines.deep_view().skip(li as int)[0]
                    == file.lines.deep_view()[li as int]);
            }
            let line = file.lines[li].as_str();
            let ghost b0 = b@;
            match parse_rule(line) {
                Option::None => {},
                Option::Some(rule) => {
                    match rule.tag {
                        RuleTag::Undesirable => {
                            let es = entries_for_exec(src, records, &rule.conditions);
                            push_all(&mut b.undesirable, es);
                        },
                        RuleTag::Desirable => {
                            let es = entries_for_exec(src, records, &rule.conditions);
                            push_all(&mut b.desirable, es);
                        },
                        RuleTag::Warning => {
                            let es = entries_for_exec(src, records, &rule.conditions);
                            push_all(&mut b.warning, es);
                        },
                        RuleTag::Missing => {
                            if !any_satisfied(records, &rule.conditions) {
                                let e = missing_entry_exec(src, &rule.conditions);
                                let ghost before = b@.missing;
                                b.missing.push(e);
                                proof {
                                    assert(b@.missing =~= before.push(
                                        spec_missing_entry(src@, rule@.conditions),
                                    ));
                                }
                            }
                        },
                    }
                },
            }
            proof {
                assert(b@ =~= spec_apply_rule(b0, src@, line@, records.deep_view()));
            }
            li += 1;
        }
        proof {
            assert(file.lines.deep_view().skip(nl as int) =~= Seq::<Seq<char>>::empty());
        }
        fi += 1;
    }
    proof {
        assert(rule_files.deep_view().skip(nf as int) =~= Seq::<RuleFileV>::empty());
    }
    b
}

} // verus!
