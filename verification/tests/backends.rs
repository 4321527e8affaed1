use wealthfolio::backends::{
    configured_backends, delete_backend, keychain_key_for, keychain_service_for,
    migrate_to_keychain, needs_migration, parse_ini, section_has_plain_text, setup_backend,
    write_ini, Section,
};

const FILE: &str = "ignored = yes\n[boursorama]\n_module = boursorama\nlogin = 12345\n_login = s\npassword = `py helper woob_boursorama_password`\nno field here\n = no key\n\n  [ other ]\r\nurl=https://x/?a=b\r\n";

fn fields(section: &Section) -> Vec<(&str, &str)> {
    section
        .fields
        .iter()
        .map(|field| (field.0.as_str(), field.1.as_str()))
        .collect()
}

#[test]
fn a_file_is_read_section_by_section() {
    let sections = parse_ini(FILE);
    assert_eq!(sections.len(), 2);
    assert_eq!(sections[0].name, "boursorama");
    assert_eq!(
        fields(&sections[0]),
        vec![
            ("_module", "boursorama"),
            ("login", "12345"),
            ("_login", "s"),
            ("password", "`py helper woob_boursorama_password`"),
        ]
    );
    assert_eq!(sections[1].name, " other ");
    assert_eq!(fields(&sections[1]), vec![("url", "https://x/?a=b")]);
    assert!(parse_ini("").is_empty());
}

#[test]
fn what_is_written_is_read_back() {
    let sections = parse_ini(FILE);
    let content = write_ini(&sections);
    assert_eq!(
        content,
        "[boursorama]\n_module = boursorama\nlogin = 12345\n_login = s\npassword = `py helper woob_boursorama_password`\n\n[ other ]\nurl = https://x/?a=b\n\n"
    );
    let again = parse_ini(&content);
    assert_eq!(again.len(), 2);
    for (a, b) in sections.iter().zip(again.iter()) {
        assert_eq!(a.name, b.name);
        assert_eq!(a.fields, b.fields);
    }
}

#[test]
fn a_backend_is_listed_with_its_module_or_its_name() {
    let backends = configured_backends(FILE);
    assert_eq!(backends.len(), 2);
    assert_eq!(backends[0].name, "boursorama");
    assert_eq!(backends[0].module, "boursorama");
    assert_eq!(backends[1].module, " other ");
}

#[test]
fn plain_text_is_told_from_commands() {
    assert!(needs_migration(FILE));
    let sections = parse_ini(FILE);
    assert!(section_has_plain_text(&sections[0].fields));
    assert!(!section_has_plain_text(&vec![
        ("_login".to_string(), "s".to_string()),
        ("password".to_string(), "`x`".to_string()),
    ]));
    assert!(section_has_plain_text(&vec![(
        "password".to_string(),
        "`x".to_string()
    )]));
    assert!(!needs_migration("[a]\nlogin = `x`\n"));
    assert!(!needs_migration(""));
}

#[test]
fn the_keychain_is_asked_in_lower_case() {
    assert_eq!(
        keychain_key_for("BoursoRama", "Login"),
        "woob_boursorama_login"
    );
    assert_eq!(
        keychain_service_for("woob_Boursorama_Login"),
        "wealthfolio_woob_boursorama_login"
    );
}

#[test]
fn setting_up_replaces_a_backend_and_keeps_the_others() {
    let update = setup_backend(
        FILE,
        &"boursorama".to_string(),
        &"bourso".to_string(),
        &vec![
            ("login".to_string(), "777".to_string()),
            ("Password".to_string(), "secret".to_string()),
        ],
        "/usr/bin/python3",
        "/h.py",
    );
    assert_eq!(
        update.secrets,
        vec![
            ("woob_boursorama_login".to_string(), "777".to_string()),
            ("woob_boursorama_password".to_string(), "secret".to_string()),
        ]
    );
    assert_eq!(
        update.content,
        "[ other ]\nurl = https://x/?a=b\n\n[boursorama]\n_module = bourso\nlogin = `/usr/bin/python3 /h.py woob_boursorama_login`\nPassword = `/usr/bin/python3 /h.py woob_boursorama_password`\n\n"
    );
    let sections = parse_ini(&update.content);
    assert_eq!(sections.len(), 2);
    assert!(!section_has_plain_text(&sections[1].fields));
}

#[test]
fn deleting_takes_a_backend_out_and_keeps_the_others() {
    let removal = delete_backend(FILE, &"boursorama".to_string());
    assert_eq!(
        removal.services,
        vec![
            "wealthfolio_woob_boursorama_login".to_string(),
            "wealthfolio_woob_boursorama_password".to_string(),
        ]
    );
    assert_eq!(removal.content, "[ other ]\nurl = https://x/?a=b\n\n");

    let nothing = delete_backend(FILE, &"unknown".to_string());
    assert!(nothing.services.is_empty());
    assert_eq!(parse_ini(&nothing.content).len(), 2);
}

#[test]
fn migrating_leaves_no_plain_text() {
    let update = migrate_to_keychain(FILE, "py", "helper");
    assert_eq!(
        update.secrets,
        vec![
            ("woob_boursorama_login".to_string(), "12345".to_string()),
            (
                "woob_ other _url".to_string(),
                "https://x/?a=b".to_string()
            ),
        ]
    );
    assert_eq!(
        update.content,
        "[boursorama]\n_module = boursorama\nlogin = `py helper woob_boursorama_login`\n_login = c\npassword = `py helper woob_boursorama_password`\n\n[ other ]\nurl = `py helper woob_ other _url`\n_url = c\n\n"
    );
    assert!(!needs_migration(&update.content));
    let backends = configured_backends(&update.content);
    assert_eq!(backends[0].module, "boursorama");
}

fn listing(content: &str) -> Vec<(String, String)> {
    configured_backends(content)
        .into_iter()
        .map(|backend| (backend.name, backend.module))
        .collect()
}

fn pair(name: &str, module: &str) -> (String, String) {
    (name.to_string(), module.to_string())
}

#[test]
fn a_backend_that_was_set_up_is_listed_last_until_it_is_deleted() {
    let before = "[a]\n_module = one\nlogin = x\n\n[b]\n\n[a]\n\n[c]\n_module = three\n";
    let name = "a".to_string();
    let update = setup_backend(
        before,
        &name,
        &"two".to_string(),
        &vec![
            ("log=in".to_string(), "1".to_string()),
            ("[x]".to_string(), "2".to_string()),
            ("_module".to_string(), "3".to_string()),
        ],
        "py",
        "helper",
    );
    assert_eq!(
        listing(&update.content),
        vec![pair("b", "b"), pair("c", "three"), pair("a", "two")]
    );
    let removal = delete_backend(&update.content, &name);
    assert_eq!(
        listing(&removal.content),
        vec![pair("b", "b"), pair("c", "three")]
    );
    assert_eq!(
        listing(&delete_backend(before, &name).content),
        listing(&removal.content)
    );
}

#[test]
fn the_migration_keeps_a_module_that_stands_before_its_namesake() {
    let update = migrate_to_keychain("[a]\n_module = one\nmodule = x\n", "py", "helper");
    assert_eq!(listing(&update.content), vec![pair("a", "one")]);
    assert!(!needs_migration(&update.content));

    let taken = migrate_to_keychain("[a]\nmodule = x\n_module = one\n", "py", "helper");
    assert_eq!(listing(&taken.content), vec![pair("a", "c")]);
}

#[test]
fn a_migrated_file_needs_no_migration() {
    for content in [FILE, "", "[x]\na = `\nB = b\n[x]\nlogin = 1\n", "[ ]\n[=[ = ]x\n"] {
        let update = migrate_to_keychain(content, "/usr/bin/python3", "/a b/helper.py");
        assert!(!needs_migration(&update.content));
        assert!(migrate_to_keychain(&update.content, "py", "helper")
            .secrets
            .is_empty());
    }
}
