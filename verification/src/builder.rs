//! The view builder: a pure transformation from a portfolio value into a
//! styled node tree, resolving skill references, emitting interior-only
//! separators, and adding the media subtree of projects that carry one.

use vstd::prelude::*;
use vstd::string::StringExecFns;
use crate::model::{
    spec_lookup, strs_model, BuildError, Portfolio, PortfolioModel, Project, ProjectModel,
    SkillKind, SkillTable,
};
use crate::node::{
    lemma_nodes_model, lemma_nodes_model_push, node_model, nodes_model, pair_model, pairs_model,
    Node, NodeModel,
};

verus! {

// ---------------------------------------------------------------------------
// The mathematical model of the tree the builder produces.
// ---------------------------------------------------------------------------
/// An element node model, written short.
pub open spec fn el_model(
    tag: Seq<char>,
    attrs: Seq<(Seq<char>, Seq<char>)>,
    styles: Seq<(Seq<char>, Seq<char>)>,
    children: Seq<NodeModel>,
) -> NodeModel {
    NodeModel::Element { tag, attrs, styles, children }
}

/// The decorative separator between two skill chips: a lozenge surrounded by
/// single spaces.
pub open spec fn sep_model() -> NodeModel {
    NodeModel::Text(" \u{2662} "@)
}

/// A bold label.
pub open spec fn bold_model(label: Seq<char>) -> NodeModel {
    el_model("b"@, Seq::empty(), Seq::empty(), seq![NodeModel::Text(label)])
}

/// A skill chip: a link whose target is the resolved display URL and whose
/// visible text is the skill name.
pub open spec fn chip_model(name: Seq<char>, url: Seq<char>) -> NodeModel {
    el_model("a"@, seq![("href"@, url)], Seq::empty(), seq![NodeModel::Text(name)])
}

/// The display URL a skill name resolves to (meaningful only when the name
/// is present in the table).
pub open spec fn resolved_url(t: Seq<(Seq<char>, Seq<char>)>, name: Seq<char>) -> Seq<char> {
    spec_lookup(t, name)->Some_0
}

/// The chip-and-separator children of a skill list, for the first `i`
/// references: each reference contributes its chip, followed by one
/// separator exactly when the reference is not the last of the sequence.
pub open spec fn skill_children_upto(
    t: Seq<(Seq<char>, Seq<char>)>,
    refs: Seq<Seq<char>>,
    i: int,
) -> Seq<NodeModel>
    decreases i,
{
    if i <= 0 {
        Seq::empty()
    } else {
        let with_chip = skill_children_upto(t, refs, i - 1).push(
            chip_model(refs[i - 1], resolved_url(t, refs[i - 1])),
        );
        if i < refs.len() {
            with_chip.push(sep_model())
        } else {
            with_chip
        }
    }
}

/// The children of a whole skill list.
pub open spec fn skill_children(t: Seq<(Seq<char>, Seq<char>)>, refs: Seq<Seq<char>>) -> Seq<
    NodeModel,
> {
    skill_children_upto(t, refs, refs.len() as int)
}

/// A skill list: chips and interior separators inside one span.
pub open spec fn skill_list_model(t: Seq<(Seq<char>, Seq<char>)>, refs: Seq<Seq<char>>) -> NodeModel {
    el_model("span"@, Seq::empty(), Seq::empty(), skill_children(t, refs))
}

/// A labelled skill list: the bold label, then the list.
pub open spec fn labeled_list_model(label: Seq<char>, list: NodeModel) -> NodeModel {
    el_model("div"@, Seq::empty(), Seq::empty(), seq![bold_model(label), list])
}

/// The project-name link: prominent, pointing at the project's URL.
pub open spec fn name_link_model(name: Seq<char>, url: Seq<char>) -> NodeModel {
    el_model(
        "a"@,
        seq![("href"@, url)],
        seq![("font-size"@, "x-large"@), ("font-weight"@, "bold"@)],
        seq![NodeModel::Text(name)],
    )
}

/// The role line: the fixed label followed by the role text.
pub open spec fn role_model(role: Seq<char>) -> NodeModel {
    el_model("span"@, Seq::empty(), Seq::empty(), seq![bold_model("Role: "@), NodeModel::Text(role)])
}

/// An indented paragraph.
pub open spec fn para_model(text: Seq<char>) -> NodeModel {
    el_model("p"@, Seq::empty(), seq![("text-indent"@, "2em"@)], seq![NodeModel::Text(text)])
}

/// One alternative media source.
pub open spec fn source_model(url: Seq<char>) -> NodeModel {
    el_model("source"@, seq![("src"@, url)], Seq::empty(), Seq::empty())
}

/// The first delivery-format URL derived from a media path-stem.
pub open spec fn webm_url(path: Seq<char>) -> Seq<char> {
    path + ".webm"@
}

/// The second delivery-format URL derived from a media path-stem.
pub open spec fn mp4_url(path: Seq<char>) -> Seq<char> {
    path + ".mp4"@
}

/// The text shown by renderers that cannot present the media element.
pub open spec fn fallback_text() -> Seq<char> {
    "Your browser does not support HTML5 videos"@
}

/// The media subtree: a video element with the two derived sources and the
/// fallback text.
pub open spec fn media_model(path: Seq<char>) -> NodeModel {
    el_model(
        "video"@,
        seq![("loop"@, "true"@), ("controls"@, "true"@)],
        seq![("width"@, "100%"@)],
        seq![
            source_model(webm_url(path)),
            source_model(mp4_url(path)),
            NodeModel::Text(fallback_text()),
        ],
    )
}

/// The media part of a project block: one media subtree when the project
/// carries a video path-stem, nothing at all when it does not.
pub open spec fn media_part(video: Option<Seq<char>>) -> Seq<NodeModel> {
    match video {
        Some(path) => seq![media_model(path)],
        None => Seq::empty(),
    }
}

/// The children of one project block, in fixed order: name link, role line,
/// description, the media subtree when present, then the two labelled skill
/// lists.
pub open spec fn project_block_children(pm: PortfolioModel, p: ProjectModel) -> Seq<NodeModel> {
    seq![name_link_model(p.name, p.url), role_model(p.role), para_model(p.description)]
        + media_part(p.video) + seq![
        labeled_list_model("Languages: "@, skill_list_model(pm.languages, p.languages)),
        labeled_list_model("Technologies: "@, skill_list_model(pm.technologies, p.technologies)),
    ]
}

/// One project block.
pub open spec fn project_block_model(pm: PortfolioModel, p: ProjectModel) -> NodeModel {
    el_model("div"@, Seq::empty(), seq![("margin"@, "5px 0"@)], project_block_children(pm, p))
}

/// The centered heading with the person's name.
pub open spec fn heading_model(name: Seq<char>) -> NodeModel {
    el_model("h1"@, Seq::empty(), seq![("text-align"@, "center"@)], seq![NodeModel::Text(name)])
}

/// The link target of the email line.
pub open spec fn email_href(email: Seq<char>) -> Seq<char> {
    "mailto:"@ + email
}

/// The centered emphasised email link.
pub open spec fn email_model(email: Seq<char>) -> NodeModel {
    el_model(
        "div"@,
        Seq::empty(),
        seq![("text-align"@, "center"@)],
        seq![
            el_model(
                "em"@,
                Seq::empty(),
                Seq::empty(),
                seq![
                    el_model(
                        "a"@,
                        seq![("href"@, email_href(email))],
                        Seq::empty(),
                        seq![NodeModel::Text(email)],
                    ),
                ],
            ),
        ],
    )
}

/// The project blocks of the first `i` projects, in portfolio order.
pub open spec fn blocks_upto(pm: PortfolioModel, i: int) -> Seq<NodeModel>
    decreases i,
{
    if i <= 0 {
        Seq::empty()
    } else {
        blocks_upto(pm, i - 1).push(project_block_model(pm, pm.projects[i - 1]))
    }
}

/// The children of the root: heading, email line, about paragraph, then one
/// block per project in original order.
pub open spec fn root_children_model(pm: PortfolioModel) -> Seq<NodeModel> {
    seq![heading_model(pm.name), email_model(pm.email), para_model(pm.about)] + blocks_upto(
        pm,
        pm.projects.len() as int,
    )
}

/// The whole tree the builder produces from a portfolio whose references all
/// resolve.
pub open spec fn spec_build(pm: PortfolioModel) -> NodeModel {
    el_model(
        "div"@,
        Seq::empty(),
        seq![("margin"@, "0 auto"@), ("max-width"@, "700px"@), ("padding"@, "25px"@)],
        root_children_model(pm),
    )
}

// ---------------------------------------------------------------------------
// Which reference fails first, if any.
// ---------------------------------------------------------------------------
/// The first reference of the sequence that the table does not resolve.
pub open spec fn first_unresolved_ref(
    t: Seq<(Seq<char>, Seq<char>)>,
    refs: Seq<Seq<char>>,
) -> Option<Seq<char>>
    decreases refs.len(),
{
    if refs.len() == 0 {
        None
    } else if spec_lookup(t, refs[0]) is None {
        Some(refs[0])
    } else {
        first_unresolved_ref(t, refs.subrange(1, refs.len() as int))
    }
}

/// Every reference of the sequence resolves.
pub open spec fn refs_resolve(t: Seq<(Seq<char>, Seq<char>)>, refs: Seq<Seq<char>>) -> bool {
    forall|i: int| 0 <= i < refs.len() ==> spec_lookup(t, refs[i]) is Some
}

/// The first unresolved reference of a project, languages before
/// technologies, each sequence in its own order.
pub open spec fn first_unresolved_project(pm: PortfolioModel, p: ProjectModel) -> Option<
    (SkillKind, Seq<char>),
> {
    match first_unresolved_ref(pm.languages, p.languages) {
        Some(name) => Some((SkillKind::Language, name)),
        None => match first_unresolved_ref(pm.technologies, p.technologies) {
            Some(name) => Some((SkillKind::Technology, name)),
            None => None,
        },
    }
}

/// The first unresolved reference of the portfolio from project `i` on.
pub open spec fn first_unresolved_from(pm: PortfolioModel, i: int) -> Option<(SkillKind, Seq<char>)>
    decreases pm.projects.len() - i,
{
    if i < 0 || i >= pm.projects.len() {
        None
    } else {
        match first_unresolved_project(pm, pm.projects[i]) {
            Some(x) => Some(x),
            None => first_unresolved_from(pm, i + 1),
        }
    }
}

/// The first unresolved reference of the whole portfolio, in build order.
pub open spec fn first_unresolved(pm: PortfolioModel) -> Option<(SkillKind, Seq<char>)> {
    first_unresolved_from(pm, 0)
}

/// Every skill reference of the whole portfolio resolves.
pub open spec fn portfolio_resolves(pm: PortfolioModel) -> bool {
    forall|i: int|
        0 <= i < pm.projects.len() ==> refs_resolve(pm.languages, pm.projects[i].languages)
            && refs_resolve(pm.technologies, pm.projects[i].technologies)
}

// ---------------------------------------------------------------------------
// Small executable constructors.
// ---------------------------------------------------------------------------
/// An owned copy of a string slice.
fn sstr(s: &str) -> (r: String)
    ensures
        r@ == s@,
{
    String::from_str(s)
}

/// A key/value pair for an attribute or style declaration.
fn kv(k: &str, v: String) -> (r: (String, String))
    ensures
        pair_model(r) == (k@, v@),
{
    (sstr(k), v)
}

/// A vector of one element.
fn vec1<T>(a: T) -> (r: Vec<T>)
    ensures
        r@ == seq![a],
{
    let mut r: Vec<T> = Vec::new();
    r.push(a);
    proof {
        assert(r@ =~= seq![a]);
    }
    r
}

/// A vector of two elements.
fn vec2<T>(a: T, b: T) -> (r: Vec<T>)
    ensures
        r@ == seq![a, b],
{
    let mut r: Vec<T> = Vec::new();
    r.push(a);
    r.push(b);
    proof {
        assert(r@ =~= seq![a, b]);
    }
    r
}

/// A vector of three elements.
fn vec3<T>(a: T, b: T, c: T) -> (r: Vec<T>)
    ensures
        r@ == seq![a, b, c],
{
    let mut r: Vec<T> = Vec::new();
    r.push(a);
    r.push(b);
    r.push(c);
    proof {
        assert(r@ =~= seq![a, b, c]);
    }
    r
}

/// An element without children.
fn el0(tag: &str, attrs: Vec<(String, String)>, styles: Vec<(String, String)>) -> (r: Node)
    ensures
        r@ == el_model(tag@, pairs_model(attrs@), pairs_model(styles@), Seq::empty()),
{
    let r = Node::element(sstr(tag), attrs, styles, Vec::new());
    proof {
        assert(nodes_model(Seq::<Node>::empty()) =~= Seq::<NodeModel>::empty());
        assert(r@ =~= el_model(tag@, pairs_model(attrs@), pairs_model(styles@), Seq::empty()));
    }
    r
}

/// An element with one child.
fn el1(tag: &str, attrs: Vec<(String, String)>, styles: Vec<(String, String)>, c0: Node) -> (r:
    Node)
    ensures
        r@ == el_model(tag@, pairs_model(attrs@), pairs_model(styles@), seq![c0@]),
{
    let ghost m0 = c0@;
    let children = vec1(c0);
    let r = Node::element(sstr(tag), attrs, styles, children);
    proof {
        lemma_nodes_model(children@);
        assert(nodes_model(children@) =~= seq![m0]);
        assert(r@ =~= el_model(tag@, pairs_model(attrs@), pairs_model(styles@), seq![m0]));
    }
    r
}

/// An element with two children.
fn el2(
    tag: &str,
    attrs: Vec<(String, String)>,
    styles: Vec<(String, String)>,
    c0: Node,
    c1: Node,
) -> (r: Node)
    ensures
        r@ == el_model(tag@, pairs_model(attrs@), pairs_model(styles@), seq![c0@, c1@]),
{
    let ghost m0 = c0@;
    let ghost m1 = c1@;
    let children = vec2(c0, c1);
    let r = Node::element(sstr(tag), attrs, styles, children);
    proof {
        lemma_nodes_model(children@);
        assert(nodes_model(children@) =~= seq![m0, m1]);
        assert(r@ =~= el_model(tag@, pairs_model(attrs@), pairs_model(styles@), seq![m0, m1]));
    }
    r
}

/// An element with three children.
fn el3(
    tag: &str,
    attrs: Vec<(String, String)>,
    styles: Vec<(String, String)>,
    c0: Node,
    c1: Node,
    c2: Node,
) -> (r: Node)
    ensures
        r@ == el_model(tag@, pairs_model(attrs@), pairs_model(styles@), seq![c0@, c1@, c2@]),
{
    let ghost m0 = c0@;
    let ghost m1 = c1@;
    let ghost m2 = c2@;
    let children = vec3(c0, c1, c2);
    let r = Node::element(sstr(tag), attrs, styles, children);
    proof {
        lemma_nodes_model(children@);
        assert(nodes_model(children@) =~= seq![m0, m1, m2]);
        assert(r@ =~= el_model(tag@, pairs_model(attrs@), pairs_model(styles@), seq![m0, m1, m2]));
    }
    r
}

/// The separator emitted between two skill chips.
fn sep_node() -> (r: Node)
    ensures
        r@ == sep_model(),
{
    Node::text(sstr(" \u{2662} "))
}

/// A bold label element.
fn bold(label: &str) -> (r: Node)
    ensures
        r@ == bold_model(label@),
{
    let r = el1("b", Vec::new(), Vec::new(), Node::text(sstr(label)));
    proof {
        assert(pairs_model(Seq::<(String, String)>::empty()) =~= Seq::<(
            Seq<char>,
            Seq<char>,
        )>::empty());
        assert(r@ =~= bold_model(label@));
    }
    r
}

/// One skill chip: the link to the resolved URL, showing the skill name.
fn chip(name: &String, url: String) -> (r: Node)
    ensures
        r@ == chip_model(name@, url@),
{
    let ghost u = url@;
    let attrs = vec1(kv("href", url));
    let r = el1("a", attrs, Vec::new(), Node::text(name.clone()));
    proof {
        assert(pairs_model(attrs@) =~= seq![("href"@, u)]);
        assert(pairs_model(Seq::<(String, String)>::empty()) =~= Seq::<(
            Seq<char>,
            Seq<char>,
        )>::empty());
        assert(r@ =~= chip_model(name@, u));
    }
    r
}

/// A labelled skill list: the bold label, then the list element.
fn labeled_list(label: &str, list: Node) -> (r: Node)
    ensures
        r@ == labeled_list_model(label@, list@),
{
    let ghost lm = list@;
    let r = el2("div", Vec::new(), Vec::new(), bold(label), list);
    proof {
        assert(pairs_model(Seq::<(String, String)>::empty()) =~= Seq::<(
            Seq<char>,
            Seq<char>,
        )>::empty());
        assert(r@ =~= labeled_list_model(label@, lm));
    }
    r
}

/// The prominent project-name link.
fn name_link(name: &String, url: &String) -> (r: Node)
    ensures
        r@ == name_link_model(name@, url@),
{
    let attrs = vec1(kv("href", url.clone()));
    let styles = vec2(kv("font-size", sstr("x-large")), kv("font-weight", sstr("bold")));
    let r = el1("a", attrs, styles, Node::text(name.clone()));
    proof {
        assert(pairs_model(attrs@) =~= seq![("href"@, url@)]);
        assert(pairs_model(styles@) =~= seq![
            ("font-size"@, "x-large"@),
            ("font-weight"@, "bold"@),
        ]);
        assert(r@ =~= name_link_model(name@, url@));
    }
    r
}

/// The role line: the fixed label followed by the role text.
fn role_node(role: &String) -> (r: Node)
    ensures
        r@ == role_model(role@),
{
    let r = el2("span", Vec::new(), Vec::new(), bold("Role: "), Node::text(role.clone()));
    proof {
        assert(pairs_model(Seq::<(String, String)>::empty()) =~= Seq::<(
            Seq<char>,
            Seq<char>,
        )>::empty());
        assert(r@ =~= role_model(role@));
    }
    r
}

/// An indented paragraph holding the given text verbatim.
fn para(text: &String) -> (r: Node)
    ensures
        r@ == para_model(text@),
{
    let styles = vec1(kv("text-indent", sstr("2em")));
    let r = el1("p", Vec::new(), styles, Node::text(text.clone()));
    proof {
        assert(pairs_model(Seq::<(String, String)>::empty()) =~= Seq::<(
            Seq<char>,
            Seq<char>,
        )>::empty());
        assert(pairs_model(styles@) =~= seq![("text-indent"@, "2em"@)]);
        assert(r@ =~= para_model(text@));
    }
    r
}

/// One alternative media source.
fn source(url: String) -> (r: Node)
    ensures
        r@ == source_model(url@),
{
    let ghost u = url@;
    let attrs = vec1(kv("src", url));
    let r = el0("source", attrs, Vec::new());
    proof {
        assert(pairs_model(attrs@) =~= seq![("src"@, u)]);
        assert(pairs_model(Seq::<(String, String)>::empty()) =~= Seq::<(
            Seq<char>,
            Seq<char>,
        )>::empty());
        assert(r@ =~= source_model(u));
    }
    r
}

/// The media subtree of a project: the two derived delivery-format sources
/// and the fallback text inside one video element.
fn media(path: &String) -> (r: Node)
    ensures
        r@ == media_model(path@),
{
    let webm = path.clone().concat(".webm");
    let mp4 = path.clone().concat(".mp4");
    let attrs = vec2(kv("loop", sstr("true")), kv("controls", sstr("true")));
    let styles = vec1(kv("width", sstr("100%")));
    let r = el3(
        "video",
        attrs,
        styles,
        source(webm),
        source(mp4),
        Node::text(sstr("Your browser does not support HTML5 videos")),
    );
    proof {
        assert(pairs_model(attrs@) =~= seq![("loop"@, "true"@), ("controls"@, "true"@)]);
        assert(pairs_model(styles@) =~= seq![("width"@, "100%"@)]);
        assert(r@ =~= media_model(path@));
    }
    r
}

/// The centered heading with the person's name.
fn heading(name: &String) -> (r: Node)
    ensures
        r@ == heading_model(name@),
{
    let styles = vec1(kv("text-align", sstr("center")));
    let r = el1("h1", Vec::new(), styles, Node::text(name.clone()));
    proof {
        assert(pairs_model(Seq::<(String, String)>::empty()) =~= Seq::<(
            Seq<char>,
            Seq<char>,
        )>::empty());
        assert(pairs_model(styles@) =~= seq![("text-align"@, "center"@)]);
        assert(r@ =~= heading_model(name@));
    }
    r
}

/// The centered emphasised email link.
fn email_node(email: &String) -> (r: Node)
    ensures
        r@ == email_model(email@),
{
    let href = sstr("mailto:").concat(email.as_str());
    let attrs = vec1(kv("href", href));
    let inner = el1("a", attrs, Vec::new(), Node::text(email.clone()));
    let emphasis = el1("em", Vec::new(), Vec::new(), inner);
    let styles = vec1(kv("text-align", sstr("center")));
    let r = el1("div", Vec::new(), styles, emphasis);
    proof {
        assert(pairs_model(attrs@) =~= seq![("href"@, email_href(email@))]);
        assert(pairs_model(Seq::<(String, String)>::empty()) =~= Seq::<(
            Seq<char>,
            Seq<char>,
        )>::empty());
        assert(pairs_model(styles@) =~= seq![("text-align"@, "center"@)]);
        assert(r@ =~= email_model(email@));
    }
    r
}

// ---------------------------------------------------------------------------
// The builder itself.
// ---------------------------------------------------------------------------
/// Builds the chip list of one skill sequence: every reference is resolved
/// through the table, chips keep the sequence's order, and a separator
/// stands after each chip except the last. The first reference the table
/// does not know fails the build.
pub fn skill_list(table: &SkillTable, refs: &Vec<String>, kind: SkillKind) -> (r: Result<
    Node,
    BuildError,
>)
    ensures
        match r {
            Ok(n) => first_unresolved_ref(table@, strs_model(refs@)) is None && n@
                == skill_list_model(table@, strs_model(refs@)),
            Err(e) => e matches BuildError::UnresolvedReference(k, s) && k == kind
                && first_unresolved_ref(table@, strs_model(refs@)) == Some(s@),
        },
{
    let ghost t = table@;
    let ghost rs = strs_model(refs@);
    let n = refs.len();
    proof {
        assert(rs.len() == n);
        assert(first_unresolved_ref(t, rs.subrange(0, n as int)) == first_unresolved_ref(
            t,
            rs,
        )) by {
            assert(rs.subrange(0, n as int) =~= rs);
        }
    }
    let mut children: Vec<Node> = Vec::new();
    let mut i: usize = 0;
    while i < n
        invariant
            t == table@,
            rs == strs_model(refs@),
            n == refs.len(),
            rs.len() == n,
            0 <= i <= n,
            nodes_model(children@) == skill_children_upto(t, rs, i as int),
            forall|j: int| 0 <= j < i ==> spec_lookup(t, rs[j]) is Some,
            first_unresolved_ref(t, rs) == first_unresolved_ref(
                t,
                rs.subrange(i as int, n as int),
            ),
        decreases n - i,
    {
        let ghost sub = rs.subrange(i as int, n as int);
        proof {
            assert(rs[i as int] == refs@[i as int]@);
            assert(sub[0] == rs[i as int]);
        }
        let name = &refs[i];
        match table.lookup(name) {
            Some(url) => {
                proof {
                    assert(sub.subrange(1, sub.len() as int) =~= rs.subrange(
                        i as int + 1,
                        n as int,
                    ));
                }
                let ghost before = children@;
                let c = chip(name, url);
                children.push(c);
                proof {
                    lemma_nodes_model_push(before, c);
                }
                if i + 1 < n {
                    let ghost mid = children@;
                    let s = sep_node();
                    children.push(s);
                    proof {
                        lemma_nodes_model_push(mid, s);
                    }
                }
                proof {
                    assert(nodes_model(children@) =~= skill_children_upto(t, rs, i as int + 1));
                }
                i += 1;
            },
            None => {
                proof {
                    assert(first_unresolved_ref(t, sub) == Some(rs[i as int]));
                }
                return Err(BuildError::UnresolvedReference(kind, name.clone()));
            },
        }
    }
    proof {
        assert(rs.subrange(n as int, n as int) =~= Seq::<Seq<char>>::empty());
        assert(first_unresolved_ref(t, rs) is None);
    }
    let r = Node::element(sstr("span"), Vec::new(), Vec::new(), children);
    proof {
        assert(pairs_model(Seq::<(String, String)>::empty()) =~= Seq::<(
            Seq<char>,
            Seq<char>,
        )>::empty());
        assert(r@ =~= skill_list_model(t, rs));
    }
    Ok(r)
}

/// Builds one project block: the name link, the role line, the description,
/// the media subtree when the project carries one, and the two labelled
/// skill lists. The first reference that does not resolve fails the build,
/// languages before technologies.
pub fn project_block(portfolio: &Portfolio, p: &Project) -> (r: Result<Node, BuildError>)
    ensures
        match r {
            Ok(n) => first_unresolved_project(portfolio@, p@) is None && n@ == project_block_model(
                portfolio@,
                p@,
            ),
            Err(e) => e matches BuildError::UnresolvedReference(k, s) && first_unresolved_project(
                portfolio@,
                p@,
            ) == Some((k, s@)),
        },
{
    let ghost pm = portfolio@;
    let langs = match skill_list(&portfolio.languages, &p.languages, SkillKind::Language) {
        Ok(n) => n,
        Err(e) => {
            return Err(e);
        },
    };
    let techs = match skill_list(&portfolio.technologies, &p.technologies, SkillKind::Technology) {
        Ok(n) => n,
        Err(e) => {
            return Err(e);
        },
    };
    let mut children: Vec<Node> = Vec::new();
    let ghost c0 = children@;
    let nl = name_link(&p.name, &p.url);
    children.push(nl);
    proof {
        lemma_nodes_model_push(c0, nl);
    }
    let ghost c1 = children@;
    let rl = role_node(&p.role);
    children.push(rl);
    proof {
        lemma_nodes_model_push(c1, rl);
    }
    let ghost c2 = children@;
    let ds = para(&p.description);
    children.push(ds);
    proof {
        lemma_nodes_model_push(c2, ds);
    }
    match &p.video {
        Some(path) => {
            let ghost c3 = children@;
            let md = media(path);
            children.push(md);
            proof {
                lemma_nodes_model_push(c3, md);
            }
        },
        None => {},
    }
    let ghost c4 = children@;
    let ll = labeled_list("Languages: ", langs);
    children.push(ll);
    proof {
        lemma_nodes_model_push(c4, ll);
    }
    let ghost c5 = children@;
    let tl = labeled_list("Technologies: ", techs);
    children.push(tl);
    proof {
        lemma_nodes_model_push(c5, tl);
    }
    let styles = vec1(kv("margin", sstr("5px 0")));
    let r = Node::element(sstr("div"), Vec::new(), styles, children);
    proof {
        assert(pairs_model(Seq::<(String, String)>::empty()) =~= Seq::<(
            Seq<char>,
            Seq<char>,
        )>::empty());
        assert(pairs_model(styles@) =~= seq![("margin"@, "5px 0"@)]);
        assert(nodes_model(children@) =~= project_block_children(pm, p@));
        assert(r@ =~= project_block_model(pm, p@));
    }
    Ok(r)
}

/// Builds the whole node tree for a portfolio: the centered heading, the
/// email link, the about paragraph, then one block per project in original
/// order. The build fails on the first skill reference that its lookup
/// table does not contain, and then produces no tree at all.
pub fn build(portfolio: &Portfolio) -> (r: Result<Node, BuildError>)
    ensures
        r is Ok <==> portfolio_resolves(portfolio@),
        match r {
            Ok(t) => first_unresolved(portfolio@) is None && t@ == spec_build(portfolio@),
            Err(e) => e matches BuildError::UnresolvedReference(k, s) && first_unresolved(
                portfolio@,
            ) == Some((k, s@)),
        },
{
    let ghost pm = portfolio@;
    let mut children: Vec<Node> = Vec::new();
    let ghost c0 = children@;
    let hd = heading(&portfolio.name);
    children.push(hd);
    proof {
        lemma_nodes_model_push(c0, hd);
    }
    let ghost c1 = children@;
    let em = email_node(&portfolio.email);
    children.push(em);
    proof {
        lemma_nodes_model_push(c1, em);
    }
    let ghost c2 = children@;
    let ab = para(&portfolio.about);
    children.push(ab);
    proof {
        lemma_nodes_model_push(c2, ab);
        assert(nodes_model(children@) =~= seq![
            heading_model(pm.name),
            email_model(pm.email),
            para_model(pm.about),
        ] + blocks_upto(pm, 0));
    }
    let n = portfolio.projects.len();
    proof {
        assert(pm.projects.len() == n);
    }
    let mut i: usize = 0;
    while i < n
        invariant
            pm == portfolio@,
            n == portfolio.projects.len(),
            pm.projects.len() == n,
            0 <= i <= n,
            nodes_model(children@) == seq![
                heading_model(pm.name),
                email_model(pm.email),
                para_model(pm.about),
            ] + blocks_upto(pm, i as int),
            first_unresolved(pm) == first_unresolved_from(pm, i as int),
        decreases n - i,
    {
        proof {
            assert(pm.projects[i as int] == portfolio.projects@[i as int]@);
        }
        match project_block(portfolio, &portfolio.projects[i]) {
            Ok(b) => {
                let ghost cb = children@;
                children.push(b);
                proof {
                    lemma_nodes_model_push(cb, b);
                    assert(nodes_model(children@) =~= seq![
                        heading_model(pm.name),
                        email_model(pm.email),
                        para_model(pm.about),
                    ] + blocks_upto(pm, i as int + 1));
                }
                i += 1;
            },
            Err(e) => {
                proof {
                    lemma_build_failure_condition(pm);
                }
                return Err(e);
            },
        }
    }
    proof {
        lemma_build_failure_condition(pm);
    }
    let styles = vec3(
        kv("margin", sstr("0 auto")),
        kv("max-width", sstr("700px")),
        kv("padding", sstr("25px")),
    );
    let r = Node::element(sstr("div"), Vec::new(), styles, children);
    proof {
        assert(pairs_model(Seq::<(String, String)>::empty()) =~= Seq::<(
            Seq<char>,
            Seq<char>,
        )>::empty());
        assert(pairs_model(styles@) =~= seq![
            ("margin"@, "0 auto"@),
            ("max-width"@, "700px"@),
            ("padding"@, "25px"@),
        ]);
        assert(r@ =~= spec_build(pm));
    }
    Ok(r)
}

// ---------------------------------------------------------------------------
// Laws of the builder.
// ---------------------------------------------------------------------------
/// Whether a node is the chip separator.
pub open spec fn is_separator(n: NodeModel) -> bool {
    n == sep_model()
}

/// Whether a node is a media subtree.
pub open spec fn is_media_node(n: NodeModel) -> bool {
    n matches NodeModel::Element { tag, .. } && tag == "video"@
}

/// How many separator nodes a child sequence holds.
pub open spec fn num_separators(cs: Seq<NodeModel>) -> nat
    decreases cs.len(),
{
    if cs.len() == 0 {
        0
    } else {
        num_separators(cs.drop_last()) + (if is_separator(cs.last()) {
            1nat
        } else {
            0nat
        })
    }
}

/// The blocks of the first `i` projects: one block per project, in order.
pub proof fn lemma_blocks_upto(pm: PortfolioModel, i: int)
    requires
        0 <= i <= pm.projects.len(),
    ensures
        blocks_upto(pm, i).len() == i,
        forall|j: int| 0 <= j < i ==> blocks_upto(pm, i)[j] == project_block_model(
            pm,
            pm.projects[j],
        ),
    decreases i,
{
    if i > 0 {
        lemma_blocks_upto(pm, i - 1);
    }
}

/// The tree holds one project block per project of the portfolio, after the
/// three fixed nodes and in the portfolio's own order.
pub proof fn lemma_project_blocks(pm: PortfolioModel)
    ensures
        root_children_model(pm).len() == 3 + pm.projects.len(),
        forall|i: int| 0 <= i < pm.projects.len() ==> root_children_model(pm)[3 + i]
            == project_block_model(pm, pm.projects[i]),
{
    lemma_blocks_upto(pm, pm.projects.len() as int);
}

proof fn lemma_skill_children_upto_shape(
    t: Seq<(Seq<char>, Seq<char>)>,
    refs: Seq<Seq<char>>,
    i: int,
)
    requires
        0 <= i <= refs.len(),
    ensures
        skill_children_upto(t, refs, i).len() == (if i < refs.len() {
            2 * i
        } else if refs.len() == 0 {
            0
        } else {
            2 * refs.len() - 1
        }),
        forall|j: int| 0 <= j < skill_children_upto(t, refs, i).len() ==> (is_separator(
            skill_children_upto(t, refs, i)[j],
        ) <==> j % 2 == 1),
        forall|j: int| 0 <= j < i ==> skill_children_upto(t, refs, i)[2 * j] == chip_model(
            refs[j],
            resolved_url(t, refs[j]),
        ),
        num_separators(skill_children_upto(t, refs, i)) == (if i < refs.len() {
            i
        } else if refs.len() == 0 {
            0
        } else {
            refs.len() - 1
        }),
    decreases i,
{
    if i > 0 {
        lemma_skill_children_upto_shape(t, refs, i - 1);
        let prev = skill_children_upto(t, refs, i - 1);
        let c = chip_model(refs[i - 1], resolved_url(t, refs[i - 1]));
        let with_chip = prev.push(c);
        assert(with_chip.drop_last() =~= prev);
        assert(!is_separator(c));
        assert(num_separators(with_chip) == num_separators(prev));
        if i < refs.len() {
            assert(with_chip.push(sep_model()).drop_last() =~= with_chip);
            assert(num_separators(with_chip.push(sep_model())) == num_separators(with_chip) + 1);
        }
    }
}

/// Interior separators only: a list of `k` chips holds `k - 1` separators
/// when `k` is positive and none otherwise, every separator stands at an odd
/// position, and every chip stands at an even position in reference order —
/// so no separator comes before the first chip or after the last.
pub proof fn lemma_skill_list_shape(t: Seq<(Seq<char>, Seq<char>)>, refs: Seq<Seq<char>>)
    ensures
        skill_children(t, refs).len() == (if refs.len() == 0 {
            0
        } else {
            2 * refs.len() - 1
        }),
        num_separators(skill_children(t, refs)) == (if refs.len() == 0 {
            0
        } else {
            refs.len() - 1
        }),
        forall|j: int| 0 <= j < skill_children(t, refs).len() ==> (is_separator(
            skill_children(t, refs)[j],
        ) <==> j % 2 == 1),
        forall|j: int| 0 <= j < refs.len() ==> skill_children(t, refs)[2 * j] == chip_model(
            refs[j],
            resolved_url(t, refs[j]),
        ),
{
    lemma_skill_children_upto_shape(t, refs, refs.len() as int);
}

/// A project without a video carries no media subtree: its block holds
/// exactly the five other children and none of them is a media node.
pub proof fn lemma_no_media_without_video(pm: PortfolioModel, p: ProjectModel)
    requires
        p.video is None,
    ensures
        project_block_children(pm, p).len() == 5,
        forall|j: int| 0 <= j < project_block_children(pm, p).len() ==> !is_media_node(
            project_block_children(pm, p)[j],
        ),
{
    reveal_strlit("a");
    reveal_strlit("span");
    reveal_strlit("p");
    reveal_strlit("div");
    reveal_strlit("video");
    assert(project_block_children(pm, p) =~= seq![
        name_link_model(p.name, p.url),
        role_model(p.role),
        para_model(p.description),
        labeled_list_model("Languages: "@, skill_list_model(pm.languages, p.languages)),
        labeled_list_model("Technologies: "@, skill_list_model(pm.technologies, p.technologies)),
    ]);
    assert("a"@.len() == 1);
    assert("video"@.len() == 5);
}

/// A project with a video carries exactly one media subtree, standing after
/// the description: a video element with the two derived delivery-format
/// sources and the fallback text, and nothing else.
pub proof fn lemma_media_subtree(pm: PortfolioModel, p: ProjectModel, path: Seq<char>)
    requires
        p.video == Some(path),
    ensures
        project_block_children(pm, p).len() == 6,
        project_block_children(pm, p)[3] == media_model(path),
        forall|j: int| 0 <= j < project_block_children(pm, p).len() && j != 3 ==> !is_media_node(
            project_block_children(pm, p)[j],
        ),
        media_model(path) matches NodeModel::Element { children, .. } && children == seq![
            source_model(path + ".webm"@),
            source_model(path + ".mp4"@),
            NodeModel::Text(fallback_text()),
        ],
{
    reveal_strlit("a");
    reveal_strlit("span");
    reveal_strlit("p");
    reveal_strlit("div");
    reveal_strlit("video");
    assert(project_block_children(pm, p) =~= seq![
        name_link_model(p.name, p.url),
        role_model(p.role),
        para_model(p.description),
        media_model(path),
        labeled_list_model("Languages: "@, skill_list_model(pm.languages, p.languages)),
        labeled_list_model("Technologies: "@, skill_list_model(pm.technologies, p.technologies)),
    ]);
    assert("a"@.len() == 1);
    assert("video"@.len() == 5);
}

/// The first unresolved reference of a sequence: there is none exactly when
/// every reference resolves, and when there is one it is a reference of the
/// sequence that its table does not know.
pub proof fn lemma_first_unresolved_ref_correct(
    t: Seq<(Seq<char>, Seq<char>)>,
    refs: Seq<Seq<char>>,
)
    ensures
        first_unresolved_ref(t, refs) is None <==> refs_resolve(t, refs),
        first_unresolved_ref(t, refs) matches Some(name) ==> spec_lookup(t, name) is None
            && exists|i: int| 0 <= i < refs.len() && refs[i] == name,
    decreases refs.len(),
{
    if refs.len() > 0 && spec_lookup(t, refs[0]) is Some {
        let sub = refs.subrange(1, refs.len() as int);
        lemma_first_unresolved_ref_correct(t, sub);
        if refs_resolve(t, refs) {
            assert forall|i: int| 0 <= i < sub.len() implies spec_lookup(t, sub[i]) is Some by {
                assert(sub[i] == refs[i + 1]);
            }
        }
        if refs_resolve(t, sub) {
            assert forall|i: int| 0 <= i < refs.len() implies spec_lookup(t, refs[i]) is Some by {
                if i > 0 {
                    assert(refs[i] == sub[i - 1]);
                }
            }
        }
        if first_unresolved_ref(t, sub) is Some {
            let name = first_unresolved_ref(t, sub)->Some_0;
            let i = choose|i: int| 0 <= i < sub.len() && sub[i] == name;
            assert(refs[i + 1] == name);
        }
    }
}

proof fn lemma_first_unresolved_from_correct(pm: PortfolioModel, i: int)
    requires
        0 <= i <= pm.projects.len(),
    ensures
        first_unresolved_from(pm, i) is None <==> (forall|x: int|
            i <= x < pm.projects.len() ==> first_unresolved_project(pm, pm.projects[x]) is None),
        first_unresolved_from(pm, i) matches Some(ks) ==> exists|x: int|
            i <= x < pm.projects.len() && first_unresolved_project(pm, pm.projects[x]) == Some(ks),
    decreases pm.projects.len() - i,
{
    if i < pm.projects.len() {
        lemma_first_unresolved_from_correct(pm, i + 1);
    }
}

/// When the build fails there really is a configuration defect, and when it
/// succeeds there is none: no unresolved reference exists exactly when every
/// skill reference of every project resolves through its table, and a
/// reported reference is a genuine reference of some project that its table
/// does not know.
pub proof fn lemma_build_failure_condition(pm: PortfolioModel)
    ensures
        first_unresolved(pm) is None <==> portfolio_resolves(pm),
        first_unresolved(pm) matches Some(ks) ==> (ks.0 == SkillKind::Language ==> spec_lookup(
            pm.languages,
            ks.1,
        ) is None && exists|i: int, j: int|
            0 <= i < pm.projects.len() && 0 <= j < pm.projects[i].languages.len()
                && pm.projects[i].languages[j] == ks.1) && (ks.0 == SkillKind::Technology
            ==> spec_lookup(pm.technologies, ks.1) is None && exists|i: int, j: int|
            0 <= i < pm.projects.len() && 0 <= j < pm.projects[i].technologies.len()
                && pm.projects[i].technologies[j] == ks.1),
{
    lemma_first_unresolved_from_correct(pm, 0);
    assert forall|x: int| 0 <= x < pm.projects.len() implies (first_unresolved_project(
        pm,
        pm.projects[x],
    ) is None <==> (refs_resolve(pm.languages, pm.projects[x].languages) && refs_resolve(
        pm.technologies,
        pm.projects[x].technologies,
    ))) by {
        lemma_first_unresolved_ref_correct(pm.languages, pm.projects[x].languages);
        lemma_first_unresolved_ref_correct(pm.technologies, pm.projects[x].technologies);
    }
    if first_unresolved(pm) is Some {
        let ks = first_unresolved(pm)->Some_0;
        let x = choose|x: int|
            0 <= x < pm.projects.len() && first_unresolved_project(pm, pm.projects[x]) == Some(ks);
        lemma_first_unresolved_ref_correct(pm.languages, pm.projects[x].languages);
        lemma_first_unresolved_ref_correct(pm.technologies, pm.projects[x].technologies);
        if ks.0 == SkillKind::Language {
            let j = choose|j: int|
                0 <= j < pm.projects[x].languages.len() && pm.projects[x].languages[j] == ks.1;
            assert(0 <= x < pm.projects.len() && 0 <= j < pm.projects[x].languages.len()
                && pm.projects[x].languages[j] == ks.1);
        } else {
            let j = choose|j: int|
                0 <= j < pm.projects[x].technologies.len() && pm.projects[x].technologies[j]
                    == ks.1;
            assert(0 <= x < pm.projects.len() && 0 <= j < pm.projects[x].technologies.len()
                && pm.projects[x].technologies[j] == ks.1);
        }
    }
}

/// The builder is deterministic: two trees built from the same portfolio
/// value are structurally equal.
pub proof fn lemma_build_deterministic(pm: PortfolioModel, t1: NodeModel, t2: NodeModel)
    requires
        t1 == spec_build(pm),
        t2 == spec_build(pm),
    ensures
        t1 == t2,
{
}

} // verus!
