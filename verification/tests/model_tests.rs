use portfolio::model::{validate, ConfigError, Portfolio, SkillTable};

fn table_of(pairs: &[(&str, &str)]) -> SkillTable {
    let mut t = SkillTable::new();
    for (k, v) in pairs {
        t.insert(k.to_string(), v.to_string());
    }
    t
}

fn small_portfolio(name: &str, email: &str, about: &str) -> Portfolio {
    Portfolio {
        name: name.to_string(),
        email: email.to_string(),
        about: about.to_string(),
        languages: SkillTable::new(),
        technologies: SkillTable::new(),
        projects: Vec::new(),
    }
}

#[test]
fn insert_and_lookup() {
    let t = table_of(&[("Rust", "https://rust-lang.org"), ("C", "https://c.example")]);
    assert_eq!(t.len(), 2);
    assert_eq!(
        t.lookup(&"Rust".to_string()),
        Some("https://rust-lang.org".to_string())
    );
    assert_eq!(t.lookup(&"C".to_string()), Some("https://c.example".to_string()));
    assert_eq!(t.lookup(&"Go".to_string()), None);
}

#[test]
fn insert_replaces_existing_key() {
    let mut t = SkillTable::new();
    t.insert("Rust".to_string(), "https://old.example".to_string());
    t.insert("Rust".to_string(), "https://new.example".to_string());
    assert_eq!(t.len(), 1);
    assert_eq!(
        t.lookup(&"Rust".to_string()),
        Some("https://new.example".to_string())
    );
}

#[test]
fn insert_keeps_other_keys() {
    let mut t = table_of(&[("Rust", "https://rust-lang.org")]);
    t.insert("C".to_string(), "https://c.example".to_string());
    assert_eq!(
        t.lookup(&"Rust".to_string()),
        Some("https://rust-lang.org".to_string())
    );
}

#[test]
fn empty_table_resolves_nothing() {
    let t = SkillTable::new();
    assert_eq!(t.len(), 0);
    assert_eq!(t.lookup(&"Rust".to_string()), None);
}

#[test]
fn validate_accepts_filled_fields() {
    let p = small_portfolio("Ada", "ada@x.io", "Engineer.");
    assert!(validate(&p).is_ok());
}

#[test]
fn validate_rejects_empty_name() {
    let p = small_portfolio("", "ada@x.io", "Engineer.");
    assert_eq!(validate(&p), Err(ConfigError::MissingField));
}

#[test]
fn validate_rejects_empty_email() {
    let p = small_portfolio("Ada", "", "Engineer.");
    assert_eq!(validate(&p), Err(ConfigError::MissingField));
}

#[test]
fn validate_rejects_empty_about() {
    let p = small_portfolio("Ada", "ada@x.io", "");
    assert_eq!(validate(&p), Err(ConfigError::MissingField));
}
