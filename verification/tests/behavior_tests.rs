use gpo_insight::analysis::{classify, parse_rule, RuleFile, RuleTag};
use gpo_insight::convert::{split_exported_report, split_html_documents};
use gpo_insight::gpo::{Delegation, Details, GroupPolicy, Link, Policy};

fn gen_empty_gpo() -> GroupPolicy {
    GroupPolicy {
        name: "".to_string(),
        details: Details::new(),
        links: Vec::new(),
        filtering: Vec::new(),
        delegation: Vec::new(),
        policies: Vec::new(),
    }
}

const SEP: char = '\u{2502}';

fn report_lines() -> Vec<String> {
    let border = "\u{2500}\u{2500}\u{2500}\u{2500}\u{2500}\u{2500}";
    vec![
        "TEST GPO".to_string(),
        "".to_string(),
        format!("Details"),
        format!("Domain{}labs.local ", SEP),
        format!("Owner{}LABS\\Domain Admins", SEP),
        format!("Created{}1/2/2024", SEP),
        format!("Modified{}3/4/2024", SEP),
        format!("Unique ID{}{{0000-1111}}", SEP),
        format!("GPO Status{}Enabled", SEP),
        "".to_string(),
        "Links".to_string(),
        format!("Location{0}Enforced{0}Link Status{0}Path", SEP),
        border.to_string(),
        format!(
            "Domain Controllers{0}No{0}Enabled{0}labs.local/Domain Controllers",
            SEP
        ),
        "".to_string(),
        "Security Filtering".to_string(),
        "Name".to_string(),
        "NT AUTHORITY\\Authenticated Users".to_string(),
        "".to_string(),
        "Delegation".to_string(),
        "Name".to_string(),
        format!(
            "NT AUTHORITY\\Authenticated Users{0}Read (from Security Filtering), Edit{0}No",
            SEP
        ),
        "".to_string(),
        "Policy".to_string(),
        format!("Debug programs{}BUILTIN\\Administrators, Everyone", SEP),
        "".to_string(),
    ]
}

#[test]
fn test_parse_record_sections() {
    let gpo = GroupPolicy::from_lines(&report_lines());
    assert_eq!(gpo.name, "TEST GPO");
    assert_eq!(gpo.details.domain, "labs.local");
    assert_eq!(gpo.details.owner, "LABS\\Domain Admins");
    assert_eq!(gpo.details.created, "1/2/2024");
    assert_eq!(gpo.details.modified, "3/4/2024");
    assert_eq!(gpo.details.id, "{0000-1111}");
    assert_eq!(gpo.details.status, "Enabled");
    assert_eq!(gpo.links.len(), 1);
    assert_eq!(gpo.links[0].location, "Domain Controllers");
    assert_eq!(gpo.links[0].enforced, "No");
    assert_eq!(gpo.links[0].status, "Enabled");
    assert_eq!(gpo.links[0].path, "labs.local/Domain Controllers");
    assert_eq!(gpo.filtering, vec!["NT AUTHORITY\\Authenticated Users".to_string()]);
    assert_eq!(gpo.delegation.len(), 1);
    assert_eq!(gpo.delegation[0].name, "NT AUTHORITY\\Authenticated Users");
    assert_eq!(
        gpo.delegation[0].permissions,
        vec![
            "Read (from Security Filtering)".to_string(),
            "Edit".to_string()
        ]
    );
    assert_eq!(gpo.delegation[0].inherited, "No");
    assert_eq!(gpo.policies.len(), 1);
    assert_eq!(gpo.policies[0].value, "Debug programs");
    assert_eq!(
        gpo.policies[0].setting,
        vec!["BUILTIN\\Administrators".to_string(), "Everyone".to_string()]
    );
}

#[test]
fn test_parse_record_drops_malformed_rows() {
    // A link row with three columns and a delegation row with two are
    // dropped; the sections otherwise parse.
    let lines = vec![
        "X".to_string(),
        "Links".to_string(),
        format!("somewhere{0}No{0}Enabled", SEP),
        "".to_string(),
        "Delegation".to_string(),
        "Name".to_string(),
        format!("Someone{}Read", SEP),
        "".to_string(),
    ];
    let gpo = GroupPolicy::from_lines(&lines);
    assert_eq!(gpo.links.len(), 0);
    assert_eq!(gpo.delegation.len(), 0);
}

#[test]
fn test_parse_record_empty_input() {
    let gpo = GroupPolicy::from_lines(&Vec::new());
    assert_eq!(gpo.name, "");
    assert!(gpo.links.is_empty());
    assert!(gpo.filtering.is_empty());
    assert!(gpo.delegation.is_empty());
    assert!(gpo.policies.is_empty());
}

// Matching is case-insensitive in both the argument and the candidate.
#[test]
fn test_match_case_insensitive() {
    let mut test_gpo = gen_empty_gpo();
    test_gpo.details.set_owner("aBc".to_string());
    assert_eq!(test_gpo.is_owner("ABC"), true);
    assert_eq!(test_gpo.is_owner("abc"), true);
    assert_eq!(test_gpo.is_owner(">bC"), true);
    assert_eq!(test_gpo.is_owner("<Ab"), true);
    assert_eq!(test_gpo.is_owner("abd"), false);
}

// The prefix operator holds exactly when the lowercased candidate
// starts with the lowercased remainder; the suffix operator likewise.
#[test]
fn test_prefix_suffix_operators() {
    let mut test_gpo = gen_empty_gpo();
    test_gpo.details.set_owner("XY".to_string());
    assert_eq!(test_gpo.is_owner("<x"), true);
    assert_eq!(test_gpo.is_owner("<y"), false);
    assert_eq!(test_gpo.is_owner(">y"), true);
    assert_eq!(test_gpo.is_owner(">x"), false);
}

// The numeric boundary, including the deliberate #> / #>= asymmetry.
#[test]
fn test_numeric_boundaries() {
    let mut test_gpo = gen_empty_gpo();
    test_gpo.policies.push(Policy {
        value: "Minimum password length".to_string(),
        setting: vec!["7".to_string()],
    });
    assert_eq!(test_gpo.contains_policy_setting("Minimum password length", "#<=14"), true);
    assert_eq!(test_gpo.contains_policy_setting("Minimum password length", "#>=14"), false);
    assert_eq!(test_gpo.contains_policy_setting("Minimum password length", "#<8"), true);
    assert_eq!(test_gpo.contains_policy_setting("Minimum password length", "#>7"), false);
    assert_eq!(test_gpo.contains_policy_setting("Minimum password length", "#>=7"), false);
    assert_eq!(test_gpo.contains_policy_setting("Minimum password length", "#>6"), true);
    assert_eq!(test_gpo.contains_policy_setting("Minimum password length", "#>=6"), true);
    assert_eq!(test_gpo.contains_policy_setting("Minimum password length", "#<7"), false);
    assert_eq!(test_gpo.contains_policy_setting("Minimum password length", "#<=7"), true);
}

// A numeric operator with a non-numeric remainder falls through to the
// equality reading of the whole argument.
#[test]
fn test_numeric_fallthrough_to_equality() {
    let mut test_gpo = gen_empty_gpo();
    test_gpo.policies.push(Policy {
        value: "Some policy".to_string(),
        setting: vec!["#<=x".to_string()],
    });
    assert_eq!(test_gpo.contains_policy_setting("Some policy", "#<=X"), true);
    assert_eq!(test_gpo.contains_policy_setting("Some policy", "#<=y"), false);
    // A numeric operator never matches a non-numeric candidate.
    assert_eq!(test_gpo.contains_policy_setting("Some policy", "#<=14"), false);
}

#[test]
fn test_negative_numbers() {
    let mut test_gpo = gen_empty_gpo();
    test_gpo.policies.push(Policy {
        value: "Offset".to_string(),
        setting: vec!["-5".to_string()],
    });
    assert_eq!(test_gpo.contains_policy_setting("Offset", "#<0"), true);
    assert_eq!(test_gpo.contains_policy_setting("Offset", "#<-5"), false);
    assert_eq!(test_gpo.contains_policy_setting("Offset", "#>=-6"), true);
}

#[test]
fn test_rule_line_parsing() {
    let r = parse_rule("U-- Name::A | Policy::B::C").expect("rule should parse");
    assert_eq!(r.tag, RuleTag::Undesirable);
    assert_eq!(r.conditions, vec!["Name::A".to_string(), "Policy::B::C".to_string()]);

    let r = parse_rule("  d --Details::!>X").expect("rule should parse");
    assert_eq!(r.tag, RuleTag::Desirable);
    let r = parse_rule("w--Links::Y").expect("rule should parse");
    assert_eq!(r.tag, RuleTag::Warning);
    let r = parse_rule("m--Name::Z").expect("rule should parse");
    assert_eq!(r.tag, RuleTag::Missing);

    assert!(parse_rule("").is_none());
    assert!(parse_rule("no separator here").is_none());
    assert!(parse_rule("x--Name::A").is_none());
    assert!(parse_rule("u--a--b").is_none());
}

fn record_with_policy() -> GroupPolicy {
    let mut g = gen_empty_gpo();
    g.name = "TEST GPO".to_string();
    g.policies.push(Policy {
        value: "Debug programs".to_string(),
        setting: vec!["BUILTIN\\Administrators".to_string()],
    });
    g
}

// An undesirable rule places exactly one entry per satisfying record.
#[test]
fn test_classify_undesirable_bucket() {
    let records = vec![record_with_policy()];
    let files = vec![RuleFile {
        source: "queries.txt".to_string(),
        lines: vec!["u--Policy::Debug programs::BUILTIN\\Administrators".to_string()],
    }];
    let b = classify(&records, &files);
    assert_eq!(b.undesirable.len(), 1);
    assert_eq!(b.desirable.len(), 0);
    assert_eq!(b.warning.len(), 0);
    assert_eq!(b.missing.len(), 0);
    assert!(b.undesirable[0].starts_with("queries.txt\n"));
    assert!(b.undesirable[0].contains("Query Condition(s):"));
    assert!(b.undesirable[0].contains("Policy: Debug programs | Settings: BUILTIN\\Administrators"));

    let empty_records = vec![gen_empty_gpo()];
    let b2 = classify(&empty_records, &files);
    assert_eq!(b2.undesirable.len(), 0);
}

// A missing rule places exactly one entry when no record satisfies it,
// and none when one does.
#[test]
fn test_classify_missing_bucket() {
    let files = vec![RuleFile {
        source: "queries.txt".to_string(),
        lines: vec!["m--Name::Baseline GPO".to_string()],
    }];
    let absent = vec![record_with_policy()];
    let b = classify(&absent, &files);
    assert_eq!(b.missing.len(), 1);
    assert_eq!(
        b.missing[0],
        "queries.txt\n\tQuery Condition(s):\n\tName::Baseline GPO\n\n"
    );

    let mut present = gen_empty_gpo();
    present.name = "Baseline GPO".to_string();
    let b2 = classify(&vec![present], &files);
    assert_eq!(b2.missing.len(), 0);
}

// Conditions of one rule are ANDed.
#[test]
fn test_classify_conditions_anded() {
    let records = vec![record_with_policy()];
    let files = vec![RuleFile {
        source: "q".to_string(),
        lines: vec![
            "d--Name::Test GPO|Policy::Debug programs::".to_string(),
            "d--Name::Other|Policy::Debug programs::".to_string(),
        ],
    }];
    let b = classify(&records, &files);
    assert_eq!(b.desirable.len(), 1);
}

// Two conditions with the same matched rendering report it once.
#[test]
fn test_classify_deduplicates_matches() {
    let records = vec![record_with_policy()];
    let files = vec![RuleFile {
        source: "q".to_string(),
        lines: vec![
            "u--Policy::Debug programs::|Policy::Debug programs::>Administrators".to_string(),
        ],
    }];
    let b = classify(&records, &files);
    assert_eq!(b.undesirable.len(), 1);
    let entry = &b.undesirable[0];
    let rendered = "Policy: Debug programs | Settings: BUILTIN\\Administrators";
    assert_eq!(entry.matches(rendered).count(), 1);
}

// A rule whose condition list is empty text never matches any record,
// so it can only ever fill the missing bucket.
#[test]
fn test_classify_empty_condition() {
    let records = vec![record_with_policy()];
    let files = vec![RuleFile {
        source: "q".to_string(),
        lines: vec!["u--".to_string(), "m--".to_string()],
    }];
    let b = classify(&records, &files);
    assert_eq!(b.undesirable.len(), 0);
    assert_eq!(b.missing.len(), 1);
}

// Rendering a condition's matched values is non-empty exactly when the
// boolean query is true.
#[test]
fn test_render_round_trip() {
    let mut g = record_with_policy();
    g.details.set_owner("LABS\\Domain Admins".to_string());
    g.filtering.push("NT AUTHORITY\\Authenticated Users".to_string());
    g.links.push(Link {
        location: "Domain Controllers".to_string(),
        enforced: "No".to_string(),
        status: "Enabled".to_string(),
        path: "labs.local/Domain Controllers".to_string(),
    });
    g.delegation.push(Delegation {
        name: "NT AUTHORITY\\Authenticated Users".to_string(),
        permissions: vec!["Read (from Security Filtering)".to_string()],
        inherited: "Yes".to_string(),
    });
    let conditions = [
        "Name::Test GPO",
        "Name::Nope",
        "Details::>Domain Admins",
        "Details::!>Domain Admins",
        "Details::Everyone",
        "Links::Domain Controllers",
        "Links::Everyone",
        "Filtering::<NT AUTHORITY",
        "Filtering::Everyone",
        "Delegation::NT AUTHORITY\\Authenticated Users::<Read::Yes",
        "Delegation::NT AUTHORITY\\Authenticated Users::<Read::No",
        "Delegation::::<Read::",
        "Policy::Debug programs::>Administrators",
        "Policy::Debug programs::!Everyone",
        "Policy::Debug programs::!>Administrators",
        "Policy::Nope::",
        "not a condition",
        " // only a comment",
    ];
    for q in conditions {
        let matched = g.query_gpo(q);
        let rendered = g.get_matching_conditions(q);
        assert_eq!(
            !rendered.is_empty(),
            matched,
            "round trip failed for {:?}: rendered {:?}",
            q,
            rendered
        );
    }
}

#[test]
fn test_render_values() {
    let link = Link {
        location: "Domain Controllers".to_string(),
        enforced: "No".to_string(),
        status: "Enabled".to_string(),
        path: "p".to_string(),
    };
    assert_eq!(link.to_display_string(), "L:Domain Controllers:S:Enabled");

    let d = Delegation {
        name: "X".to_string(),
        permissions: vec!["P1".to_string(), "P2".to_string()],
        inherited: "No".to_string(),
    };
    assert_eq!(
        d.to_display_string(),
        "\tName: X | Permissions: P1 P2 | Inherited No\n"
    );

    let p = Policy {
        value: "Debug programs".to_string(),
        setting: vec!["BUILTIN\\Administrators".to_string()],
    };
    assert_eq!(
        p.to_display_string(),
        "Policy: Debug programs | Settings: BUILTIN\\Administrators"
    );

    let mut g = gen_empty_gpo();
    g.name = "TEST GPO".to_string();
    g.details.set_status("Enabled".to_string());
    g.links.push(link);
    assert_eq!(
        g.to_display_string(),
        "\tName: TEST GPO | GPO Status: Enabled\n\tLinks: [ L:Domain Controllers:S:Enabled ]"
    );
}

#[test]
fn test_matched_link_value() {
    let mut g = gen_empty_gpo();
    g.links.push(Link {
        location: "Domain Controllers".to_string(),
        enforced: "No".to_string(),
        status: "Enabled".to_string(),
        path: "p".to_string(),
    });
    assert_eq!(
        g.get_matching_conditions("Links::<domain"),
        "L:Domain Controllers:S:Enabled"
    );
}

fn utf16le(s: &str) -> Vec<u8> {
    let mut v = Vec::new();
    for u in s.encode_utf16() {
        v.extend_from_slice(&u.to_le_bytes());
    }
    v
}

#[test]
fn test_split_exported_report() {
    let text = "<html lang=\"en\">\n<title>My/GPO</title>\nbody text\n</html>\n<html lang=\"en\">\n<title>Second</title>\n</html>\n";
    let bytes = utf16le(text);
    let (docs, count) = split_exported_report(&bytes).expect("split should succeed");
    assert_eq!(count, 2);
    assert_eq!(docs.len(), 2);
    assert_eq!(docs[0].title, "My_GPO");
    assert_eq!(
        docs[0].content,
        "<html lang=\"en\">\n<title>My/GPO</title>\nbody text\n</html>\n"
    );
    assert_eq!(docs[1].title, "Second");
}

#[test]
fn test_split_fails_without_title() {
    assert!(split_html_documents("<html lang=\"en\">\n</html>").is_none());
}

#[test]
fn test_extract_report_text() {
    let text = "junk css\nmore junk\nAAA \u{2500}\u{2500}\u{2500}\u{2500} BBB\nTEST GPO\n";
    let out = gpo_insight::convert::extract_report_text(text);
    assert_eq!(
        out,
        "AAA \u{2500}\u{2500}\u{2500}\u{2500} BBB\nAAA \u{2500}\u{2500}\u{2500}\u{2500} BBB\nTEST GPO\n"
    );
}

#[test]
fn test_report_text_from_html() {
    let html = "<html><body><p>\u{2500}\u{2500}\u{2500}\u{2500}</p><p>Details</p></body></html>"
        .as_bytes()
        .to_vec();
    let out = gpo_insight::convert::report_text_from_html(&html).expect("render should succeed");
    assert!(out.contains('\u{2500}'));
    assert!(out.contains("Details"));
    assert!(!out.contains("<p>"));
}

#[test]
fn test_split_empty_input() {
    let (docs, count) = split_html_documents("").expect("empty input splits to nothing");
    assert!(docs.is_empty());
    assert_eq!(count, 0);
}
