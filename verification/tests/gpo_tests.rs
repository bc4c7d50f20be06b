use gpo_insight::gpo::{Delegation, Details, GroupPolicy, Link, Policy};

fn gen_empty_gpo() -> GroupPolicy {
    GroupPolicy {
        name: "".to_string(),
        details: Details::new(),
        links: Vec::new(),
        filtering: Vec::new(),
        delegation: Vec::new(),
        policies: Vec::new(),
    }
}

#[test]
fn test_is_gpo_name() {
    let mut test_gpo = gen_empty_gpo();
    test_gpo.name = "TEST GPO".to_string();

    assert_eq!(test_gpo.is_name("TEST GPO"), true);
    assert_ne!(test_gpo.is_name("GPO TEST"), true);
}

#[test]
fn test_is_owner() {
    let mut test_gpo = gen_empty_gpo();
    test_gpo.details.set_owner("LABS\\Domain Admins".to_string());

    // Test Equals
    assert_eq!(test_gpo.is_owner("LABS\\Domain Admins"), true);
    // Test Ends With
    assert_eq!(test_gpo.is_owner(">Domain Admins"), true);
    // Test Starts With
    assert_eq!(test_gpo.is_owner("<LABS"), true);
}

#[test]
fn test_link_location() {
    let mut test_gpo = gen_empty_gpo();
    test_gpo.links.push(Link {
        location: "Domain Controllers".to_string(),
        enforced: "No".to_string(),
        status: "Enabled".to_string(),
        path: "labs.local/Domain Controllers".to_string(),
    });

    assert_eq!(test_gpo.contains_link_location("Domain Controllers"), 0);
    assert_eq!(test_gpo.contains_link_location("Domain Admins"), -1);
}

#[test]
fn test_filtering() {
    let mut test_gpo = gen_empty_gpo();
    test_gpo
        .filtering
        .push("NT AUTHORITY\\Authenticated Users".to_string());

    // Test Equals
    assert_eq!(
        test_gpo.contains_filter("NT AUTHORITY\\Authenticated Users"),
        true
    );
    // Test Ends With
    assert_eq!(test_gpo.contains_filter(">Authenticated Users"), true);
    // Test Starts With
    assert_eq!(test_gpo.contains_filter("<NT AUTHORITY"), true);
}

#[test]
fn test_delegation() {
    let mut test_gpo = gen_empty_gpo();
    test_gpo.delegation.push(Delegation {
        name: "NT AUTHORITY\\Authenticated Users".to_string(),
        permissions: vec!["Read (from Security Filtering)".to_string()],
        inherited: "No".to_string(),
    });

    // Test Equals
    assert_eq!(
        test_gpo.contains_delegation_permission(
            "NT AUTHORITY\\Authenticated Users",
            "Read (from Security Filtering)"
        ),
        true
    );
    // Test Ends With
    assert_eq!(
        test_gpo.contains_delegation_permission(
            ">Authenticated Users",
            "Read (from Security Filtering)"
        ),
        true
    );
    // Test Starts With
    assert_eq!(
        test_gpo.contains_delegation_permission("<NT AUTHORITY", "Read (from Security Filtering)"),
        true
    );
}

#[test]
fn test_policy() {
    let mut test_gpo = gen_empty_gpo();
    test_gpo.policies.push(Policy {
        value: "Debug programs".to_string(),
        setting: vec!["BUILTIN\\Administrators".to_string()],
    });

    assert_eq!(
        test_gpo.contains_policy_setting("Debug programs", "BUILTIN\\Administrators"),
        true
    );
    assert_ne!(
        test_gpo.contains_policy_setting("Debug programs", "Everyone"),
        true
    );
}

#[test]
fn test_policy_setting_number_operators() {
    let mut test_gpo = gen_empty_gpo();
    test_gpo.policies.push(Policy {
        value: "Minimum password length".to_string(),
        setting: vec!["7".to_string()],
    });

    assert_eq!(
        test_gpo.contains_policy_setting("Minimum password length", "#<=14"),
        true
    );
    assert_ne!(
        test_gpo.contains_policy_setting("Minimum password length", "#>=14"),
        true
    );
    assert_eq!(
        test_gpo.contains_policy_setting("Minimum password length", "#<8"),
        true
    );
    assert_ne!(
        test_gpo.contains_policy_setting("Minimum password length", "#>7"),
        true
    );
}

#[test]
fn test_name_query() {
    let mut test_gpo = gen_empty_gpo();
    test_gpo.name = "TEST GPO".to_string();

    assert_eq!(test_gpo.query_gpo("Name::Test GPO"), true);
    assert_ne!(test_gpo.query_gpo("Name::GPO Test"), true);
}

#[test]
fn test_detail_query() {
    let mut test_gpo = gen_empty_gpo();
    test_gpo.details.set_owner("LABS\\Domain Admins".to_string());

    assert_eq!(test_gpo.query_gpo("Details::LABS\\Domain Admins"), true);
    assert_eq!(test_gpo.query_gpo("Details::>Domain Admins"), true);
    assert_eq!(test_gpo.query_gpo("Details::<LABS"), true);
    assert_ne!(test_gpo.query_gpo("Details::Everyone"), true);
    // Test Is Not
    test_gpo.details.set_owner("Everybody".to_string());
    assert_eq!(test_gpo.query_gpo("Details::!>Domain Admins"), true)
}

#[test]
fn test_links_query() {
    let mut test_gpo = gen_empty_gpo();
    test_gpo.links.push(Link {
        location: "Domain Controllers".to_string(),
        enforced: "No".to_string(),
        status: "Enabled".to_string(),
        path: "labs.local/Domain Controllers".to_string(),
    });

    assert_eq!(test_gpo.query_gpo("Links::Domain Controllers"), true);
    assert_ne!(test_gpo.query_gpo("Links::Everyone"), true);
}

#[test]
fn test_filter_query() {
    let mut test_gpo = gen_empty_gpo();
    test_gpo
        .filtering
        .push("NT AUTHORITY\\Authenticated Users".to_string());

    // Test Equals
    assert_eq!(
        test_gpo.query_gpo("Filtering::NT AUTHORITY\\Authenticated Users"),
        true
    );
    // Test Ends With
    assert_eq!(test_gpo.query_gpo("Filtering::>Authenticated Users"), true);
    // Test Starts With
    assert_eq!(test_gpo.query_gpo("Filtering::<NT AUTHORITY"), true);

    assert_ne!(test_gpo.query_gpo("Filtering::Everyone"), true)
}

#[test]
fn test_delegation_query() {
    let mut test_gpo = gen_empty_gpo();
    test_gpo.delegation.push(Delegation {
        name: "NT AUTHORITY\\Authenticated Users".to_string(),
        permissions: vec!["Read (from Security Filtering)".to_string()],
        inherited: "Yes".to_string(),
    });

    // Test Equals
    assert_eq!(
        test_gpo.query_gpo(
            "Delegation::NT AUTHORITY\\Authenticated Users::Read (from Security Filtering)::"
        ),
        true
    );
    // Test Ends With
    assert_eq!(
        test_gpo.query_gpo(
            "Delegation::NT AUTHORITY\\Authenticated Users::>(from Security Filtering)::"
        ),
        true
    );
    assert_eq!(
        test_gpo.query_gpo("Delegation::>Authenticated Users::Read (from Security Filtering)::"),
        true
    );
    // Test Starts With
    assert_eq!(
        test_gpo.query_gpo("Delegation::<NT AUTHORITY::Read (from Security Filtering)::"),
        true
    );
    assert_eq!(
        test_gpo.query_gpo("Delegation::NT AUTHORITY\\Authenticated Users::<Read::"),
        true
    );
    // Test inherited
    assert_eq!(
        test_gpo.query_gpo(
            "Delegation::NT AUTHORITY\\Authenticated Users::Read (from Security Filtering)::Yes"
        ),
        true
    );
    test_gpo.delegation[0].set_inheritence("No");
    assert_eq!(
        test_gpo.query_gpo(
            "Delegation::NT AUTHORITY\\Authenticated Users::Read (from Security Filtering)::No"
        ),
        true
    );
    // Test missing name
    assert_ne!(
        test_gpo.query_gpo("Delegation::::Read (from Security Filtering)::"),
        true
    );
    // Test missing permission
    assert_ne!(
        test_gpo.query_gpo("Delegation::::NT AUTHORITY\\Authenticated Users::"),
        true
    );

    assert_ne!(
        test_gpo.query_gpo("Delegation::Everybody::Read (from Security Filtering)::"),
        true
    );
    assert_ne!(test_gpo.query_gpo("Delegation::Everybody::::"), true);
}

#[test]
fn test_policy_query() {
    let mut test_gpo = gen_empty_gpo();
    test_gpo.policies.push(Policy {
        value: "Debug programs".to_string(),
        setting: vec!["BUILTIN\\Administrators".to_string()],
    });

    // Test Equals
    assert_eq!(
        test_gpo.query_gpo("Policy::Debug programs::BUILTIN\\Administrators"),
        true
    );
    // Test Ends With
    assert_eq!(
        test_gpo.query_gpo("Policy::Debug programs::>Administrators"),
        true
    );
    assert_eq!(
        test_gpo.query_gpo("Policy::>programs::BUILTIN\\Administrators"),
        true
    );
    // Test Starts With
    assert_eq!(
        test_gpo.query_gpo("Policy::Debug programs::<BUILTIN"),
        true
    );
    assert_eq!(
        test_gpo.query_gpo("Policy::<Debug::BUILTIN\\Administrators"),
        true
    );
    // Validate the setting can be empty -- Searching for policy's existence
    assert_eq!(test_gpo.query_gpo("Policy::Debug programs::"), true);
    // Validate the policy's value can't be empty
    assert_ne!(
        test_gpo.query_gpo("Policy::::BUILTIN\\Administrators"),
        true
    );
    // Test Is Not Query
    assert_eq!(test_gpo.query_gpo("Policy::Debug programs::!Everyone"), true);
    assert_eq!(
        test_gpo.query_gpo("Policy::Debug programs::!>Authenticated Users"),
        true
    );
    assert_eq!(
        test_gpo.query_gpo("Policy::Debug programs::!>Administrators"),
        false
    );
}

#[test]
fn test_policy_number_operator_query() {
    let mut test_gpo = gen_empty_gpo();
    test_gpo.policies.push(Policy {
        value: "Minimum password length".to_string(),
        setting: vec!["7".to_string()],
    });

    assert_eq!(
        test_gpo.query_gpo("Policy::Minimum password length::#>=14"),
        false
    );
    assert_eq!(
        test_gpo.query_gpo("Policy::Minimum password length::#<14"),
        true
    );
}

#[test]
fn test_query_comment() {
    let mut test_gpo = gen_empty_gpo();
    test_gpo.policies.push(Policy {
        value: "Minimum password length".to_string(),
        setting: vec!["7".to_string()],
    });

    assert_eq!(
        test_gpo.query_gpo("Policy::Minimum password length::#>=14 // This is a comment"),
        false
    );
    assert_eq!(test_gpo.query_gpo(" // This is a comment"), false);
    assert_eq!(test_gpo.query_gpo("This is a comment"), false);
    assert_eq!(
        test_gpo.query_gpo("Policy::Minimum password length::#<14  // This is a comment"),
        true
    );
}
