use portfolio::builder::{build, skill_list};
use portfolio::model::{BuildError, Portfolio, Project, SkillKind, SkillTable};
use portfolio::node::Node;

const SEP: &str = " \u{2662} ";

fn tables(pairs: &[(&str, &str)]) -> SkillTable {
    let mut t = SkillTable::new();
    for (k, v) in pairs {
        t.insert(k.to_string(), v.to_string());
    }
    t
}

fn strings(items: &[&str]) -> Vec<String> {
    items.iter().map(|s| s.to_string()).collect()
}

fn project(
    name: &str,
    role: &str,
    languages: &[&str],
    technologies: &[&str],
    description: &str,
    video: Option<&str>,
    url: &str,
) -> Project {
    Project {
        name: name.to_string(),
        role: role.to_string(),
        languages: strings(languages),
        technologies: strings(technologies),
        description: description.to_string(),
        video: video.map(|v| v.to_string()),
        url: url.to_string(),
    }
}

fn ada_portfolio() -> Portfolio {
    Portfolio {
        name: "Ada".to_string(),
        email: "ada@x.io".to_string(),
        about: "Engineer.".to_string(),
        languages: tables(&[("Rust", "https://rust-lang.org")]),
        technologies: tables(&[]),
        projects: vec![project(
            "P1",
            "Lead",
            &["Rust"],
            &[],
            "Built it.",
            None,
            "https://p1.io",
        )],
    }
}

/// Destructures an element node; panics on a text leaf.
fn el(n: &Node) -> (&str, &Vec<(String, String)>, &Vec<(String, String)>, &Vec<Node>) {
    match n {
        Node::Element { tag, attrs, styles, children } => (tag.as_str(), attrs, styles, children),
        Node::Text(_) => panic!("expected an element node"),
    }
}

/// Destructures a text leaf; panics on an element.
fn txt(n: &Node) -> &str {
    match n {
        Node::Text(s) => s.as_str(),
        Node::Element { .. } => panic!("expected a text node"),
    }
}

fn is_sep(n: &Node) -> bool {
    matches!(n, Node::Text(s) if s == SEP)
}

fn count_separators(children: &[Node]) -> usize {
    children.iter().filter(|c| is_sep(c)).count()
}

/// The chips-and-separators span of the labelled list node.
fn list_children(labeled: &Node) -> &Vec<Node> {
    let (tag, _, _, kids) = el(labeled);
    assert_eq!(tag, "div");
    assert_eq!(kids.len(), 2);
    let (span_tag, _, _, span_kids) = el(&kids[1]);
    assert_eq!(span_tag, "span");
    span_kids
}

fn block_of(tree: &Node, i: usize) -> &Node {
    let (tag, _, _, children) = el(tree);
    assert_eq!(tag, "div");
    &children[3 + i]
}

#[test]
fn example_portfolio_tree() {
    let tree = build(&ada_portfolio()).expect("the example portfolio builds");
    let (tag, attrs, styles, children) = el(&tree);
    assert_eq!(tag, "div");
    assert!(attrs.is_empty());
    assert!(!styles.is_empty());
    assert_eq!(children.len(), 4);

    let (h_tag, _, h_styles, h_kids) = el(&children[0]);
    assert_eq!(h_tag, "h1");
    assert!(h_styles.contains(&("text-align".to_string(), "center".to_string())));
    assert_eq!(txt(&h_kids[0]), "Ada");

    let (e_tag, _, e_styles, e_kids) = el(&children[1]);
    assert_eq!(e_tag, "div");
    assert!(e_styles.contains(&("text-align".to_string(), "center".to_string())));
    let (em_tag, _, _, em_kids) = el(&e_kids[0]);
    assert_eq!(em_tag, "em");
    let (a_tag, a_attrs, _, a_kids) = el(&em_kids[0]);
    assert_eq!(a_tag, "a");
    assert_eq!(a_attrs[0], ("href".to_string(), "mailto:ada@x.io".to_string()));
    assert_eq!(txt(&a_kids[0]), "ada@x.io");

    let (p_tag, _, _, p_kids) = el(&children[2]);
    assert_eq!(p_tag, "p");
    assert_eq!(txt(&p_kids[0]), "Engineer.");

    let (b_tag, _, _, b_kids) = el(&children[3]);
    assert_eq!(b_tag, "div");
    assert_eq!(b_kids.len(), 5);

    let (n_tag, n_attrs, _, n_kids) = el(&b_kids[0]);
    assert_eq!(n_tag, "a");
    assert_eq!(n_attrs[0], ("href".to_string(), "https://p1.io".to_string()));
    assert_eq!(txt(&n_kids[0]), "P1");

    let (r_tag, _, _, r_kids) = el(&b_kids[1]);
    assert_eq!(r_tag, "span");
    let (rb_tag, _, _, rb_kids) = el(&r_kids[0]);
    assert_eq!(rb_tag, "b");
    assert_eq!(txt(&rb_kids[0]), "Role: ");
    assert_eq!(txt(&r_kids[1]), "Lead");

    let (d_tag, _, _, d_kids) = el(&b_kids[2]);
    assert_eq!(d_tag, "p");
    assert_eq!(txt(&d_kids[0]), "Built it.");

    let langs = list_children(&b_kids[3]);
    assert_eq!(langs.len(), 1);
    assert_eq!(count_separators(langs), 0);
    let (c_tag, c_attrs, _, c_kids) = el(&langs[0]);
    assert_eq!(c_tag, "a");
    assert_eq!(c_attrs[0], ("href".to_string(), "https://rust-lang.org".to_string()));
    assert_eq!(txt(&c_kids[0]), "Rust");

    let techs = list_children(&b_kids[4]);
    assert!(techs.is_empty());

    assert!(!b_kids.iter().any(|k| matches!(k, Node::Element { tag, .. } if tag.as_str() == "video")));
}

#[test]
fn one_block_per_project_in_order() {
    let mut p = ada_portfolio();
    p.projects = vec![
        project("First", "Lead", &[], &[], "one", None, "https://1.example"),
        project("Second", "Dev", &[], &[], "two", None, "https://2.example"),
        project("Third", "Ops", &[], &[], "three", None, "https://3.example"),
    ];
    let tree = build(&p).unwrap();
    let (_, _, _, children) = el(&tree);
    assert_eq!(children.len(), 3 + 3);
    for (i, expected) in ["First", "Second", "Third"].iter().enumerate() {
        let (_, _, _, b_kids) = el(block_of(&tree, i));
        let (_, _, _, n_kids) = el(&b_kids[0]);
        assert_eq!(txt(&n_kids[0]), *expected);
    }
}

#[test]
fn no_projects_no_blocks() {
    let mut p = ada_portfolio();
    p.projects = Vec::new();
    let tree = build(&p).unwrap();
    let (_, _, _, children) = el(&tree);
    assert_eq!(children.len(), 3);
}

#[test]
fn separators_are_interior_only() {
    let mut p = ada_portfolio();
    p.languages = tables(&[
        ("Rust", "https://rust-lang.org"),
        ("C", "https://c.example"),
        ("Ada", "https://ada.example"),
    ]);
    p.projects = vec![project(
        "P1",
        "Lead",
        &["Rust", "C", "Ada"],
        &[],
        "d",
        None,
        "https://p1.io",
    )];
    let tree = build(&p).unwrap();
    let (_, _, _, b_kids) = el(block_of(&tree, 0));
    let langs = list_children(&b_kids[3]);
    // three chips, two separators, alternating: chip sep chip sep chip
    assert_eq!(langs.len(), 5);
    assert_eq!(count_separators(langs), 2);
    assert!(!is_sep(&langs[0]));
    assert!(!is_sep(&langs[langs.len() - 1]));
    for (i, n) in langs.iter().enumerate() {
        assert_eq!(is_sep(n), i % 2 == 1);
    }
    // chips keep the reference order
    for (i, expected) in ["Rust", "C", "Ada"].iter().enumerate() {
        let (_, _, _, c_kids) = el(&langs[2 * i]);
        assert_eq!(txt(&c_kids[0]), *expected);
    }
}

#[test]
fn single_chip_has_no_separator() {
    let tree = build(&ada_portfolio()).unwrap();
    let (_, _, _, b_kids) = el(block_of(&tree, 0));
    let langs = list_children(&b_kids[3]);
    assert_eq!(langs.len(), 1);
    assert_eq!(count_separators(langs), 0);
}

#[test]
fn no_media_without_video() {
    let tree = build(&ada_portfolio()).unwrap();
    let (_, _, _, b_kids) = el(block_of(&tree, 0));
    assert_eq!(b_kids.len(), 5);
    assert!(!b_kids.iter().any(|k| matches!(k, Node::Element { tag, .. } if tag.as_str() == "video")));
}

#[test]
fn media_subtree_has_two_sources_and_fallback() {
    let mut p = ada_portfolio();
    p.projects[0].video = Some("clip".to_string());
    let tree = build(&p).unwrap();
    let (_, _, _, b_kids) = el(block_of(&tree, 0));
    assert_eq!(b_kids.len(), 6);
    let media: Vec<&Node> = b_kids
        .iter()
        .filter(|k| matches!(k, Node::Element { tag, .. } if tag.as_str() == "video"))
        .collect();
    assert_eq!(media.len(), 1);
    let (v_tag, _, _, v_kids) = el(&b_kids[3]);
    assert_eq!(v_tag, "video");
    assert_eq!(v_kids.len(), 3);
    let (s0_tag, s0_attrs, _, _) = el(&v_kids[0]);
    assert_eq!(s0_tag, "source");
    assert_eq!(s0_attrs[0], ("src".to_string(), "clip.webm".to_string()));
    let (s1_tag, s1_attrs, _, _) = el(&v_kids[1]);
    assert_eq!(s1_tag, "source");
    assert_eq!(s1_attrs[0], ("src".to_string(), "clip.mp4".to_string()));
    assert_eq!(txt(&v_kids[2]), "Your browser does not support HTML5 videos");
}

#[test]
fn unresolved_language_fails_the_build() {
    let mut p = ada_portfolio();
    p.projects[0].languages = strings(&["Go"]);
    let r = build(&p);
    assert_eq!(
        r,
        Err(BuildError::UnresolvedReference(
            SkillKind::Language,
            "Go".to_string()
        ))
    );
}

#[test]
fn unresolved_technology_fails_the_build() {
    let mut p = ada_portfolio();
    p.projects[0].technologies = strings(&["Docker"]);
    let r = build(&p);
    assert_eq!(
        r,
        Err(BuildError::UnresolvedReference(
            SkillKind::Technology,
            "Docker".to_string()
        ))
    );
}

#[test]
fn first_unresolved_reference_wins() {
    let mut p = ada_portfolio();
    // the language reference fails before the technology reference
    p.projects[0].languages = strings(&["Rust", "Go"]);
    p.projects[0].technologies = strings(&["Docker"]);
    let r = build(&p);
    assert_eq!(
        r,
        Err(BuildError::UnresolvedReference(
            SkillKind::Language,
            "Go".to_string()
        ))
    );
}

#[test]
fn build_twice_gives_equal_trees() {
    let p = ada_portfolio();
    let t1 = build(&p).unwrap();
    let t2 = build(&p).unwrap();
    assert_eq!(t1, t2);
}

#[test]
fn skill_list_resolves_in_order() {
    let t = tables(&[("Rust", "https://rust-lang.org"), ("C", "https://c.example")]);
    let refs = strings(&["C", "Rust"]);
    let list = skill_list(&t, &refs, SkillKind::Language).unwrap();
    let (tag, _, _, kids) = el(&list);
    assert_eq!(tag, "span");
    assert_eq!(kids.len(), 3);
    let (_, a0, _, k0) = el(&kids[0]);
    assert_eq!(a0[0], ("href".to_string(), "https://c.example".to_string()));
    assert_eq!(txt(&k0[0]), "C");
    assert!(is_sep(&kids[1]));
    let (_, a2, _, k2) = el(&kids[2]);
    assert_eq!(a2[0], ("href".to_string(), "https://rust-lang.org".to_string()));
    assert_eq!(txt(&k2[0]), "Rust");
}

#[test]
fn skill_list_reports_the_kind_it_was_given() {
    let t = SkillTable::new();
    let refs = strings(&["Go"]);
    let r = skill_list(&t, &refs, SkillKind::Technology);
    assert_eq!(
        r,
        Err(BuildError::UnresolvedReference(
            SkillKind::Technology,
            "Go".to_string()
        ))
    );
}
