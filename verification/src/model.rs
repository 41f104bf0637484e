//! The configuration model: the portfolio data the view builder consumes,
//! its mathematical model, and the error kinds of the loading and building
//! stages.

use vstd::prelude::*;
use crate::node::pair_model;

verus! {

/// Which lookup table a skill reference points into.
#[derive(Debug, Clone, Copy, PartialEq, Eq, Structural)]
pub enum SkillKind {
    Language,
    Technology,
}

/// A failure of the configuration loader: the input was structurally
/// invalid, or a required field was absent or empty.
#[derive(Debug, Clone, Copy, PartialEq, Eq, Structural)]
pub enum ConfigError {
    Malformed,
    MissingField,
}

/// A failure of the view builder: a project references a skill name that the
/// corresponding lookup table does not contain.
#[derive(Debug, PartialEq)]
pub enum BuildError {
    UnresolvedReference(SkillKind, String),
}

/// A lookup table from skill names to display URLs, with map semantics:
/// keys are unique, and `insert` replaces the value of an existing key.
pub struct SkillTable {
    entries: Vec<(String, String)>,
}

/// First-match lookup in an association list.
pub open spec fn spec_lookup(t: Seq<(Seq<char>, Seq<char>)>, key: Seq<char>) -> Option<Seq<char>>
    decreases t.len(),
{
    if t.len() == 0 {
        None
    } else if t[0].0 == key {
        Some(t[0].1)
    } else {
        spec_lookup(t.subrange(1, t.len() as int), key)
    }
}

/// Well-formedness of a lookup table: no key occurs twice.
pub open spec fn table_wf(t: Seq<(Seq<char>, Seq<char>)>) -> bool {
    forall|i: int, j: int|
        0 <= i < t.len() && 0 <= j < t.len() && i != j ==> t[i].0 != t[j].0
}

impl View for SkillTable {
    type V = Seq<(Seq<char>, Seq<char>)>;

    closed spec fn view(&self) -> Seq<(Seq<char>, Seq<char>)> {
        self.entries@.map_values(|p: (String, String)| pair_model(p))
    }
}

/// Looking a key up in a table extended at the end: entries already present
/// win; otherwise the new entry answers.
proof fn lemma_lookup_push(t: Seq<(Seq<char>, Seq<char>)>, p: (Seq<char>, Seq<char>), key: Seq<char>)
    ensures
        spec_lookup(t.push(p), key) == (if spec_lookup(t, key) is Some {
            spec_lookup(t, key)
        } else if p.0 == key {
            Some(p.1)
        } else {
            None
        }),
    decreases t.len(),
{
    if t.len() == 0 {
        assert(t.push(p)[0] == p);
        assert(t.push(p).subrange(1, 1) =~= Seq::<(Seq<char>, Seq<char>)>::empty());
    } else {
        assert(t.push(p).subrange(1, t.len() as int + 1) =~= t.subrange(1, t.len() as int).push(p));
        lemma_lookup_push(t.subrange(1, t.len() as int), p, key);
    }
}

/// Replacing the value at an entry whose key has no earlier duplicate makes
/// lookups of that key return the new value.
proof fn lemma_lookup_update_same(t: Seq<(Seq<char>, Seq<char>)>, i: int, v: Seq<char>)
    requires
        0 <= i < t.len(),
        forall|j: int| 0 <= j < i ==> t[j].0 != t[i].0,
    ensures
        spec_lookup(t.update(i, (t[i].0, v)), t[i].0) == Some(v),
    decreases i,
{
    let u = t.update(i, (t[i].0, v));
    if i == 0 {
        assert(u[0] == (t[0].0, v));
    } else {
        assert(u[0] == t[0]);
        assert(u.subrange(1, u.len() as int) =~= t.subrange(1, t.len() as int).update(
            i - 1,
            (t[i].0, v),
        ));
        lemma_lookup_update_same(t.subrange(1, t.len() as int), i - 1, v);
    }
}

/// Replacing an entry's value leaves lookups of every other key unchanged.
proof fn lemma_lookup_update_other(
    t: Seq<(Seq<char>, Seq<char>)>,
    i: int,
    p: (Seq<char>, Seq<char>),
    key: Seq<char>,
)
    requires
        0 <= i < t.len(),
        p.0 == t[i].0,
        key != p.0,
    ensures
        spec_lookup(t.update(i, p), key) == spec_lookup(t, key),
    decreases t.len(),
{
    let u = t.update(i, p);
    if i == 0 {
        assert(u[0] == p);
        assert(u.subrange(1, u.len() as int) =~= t.subrange(1, t.len() as int));
    } else {
        assert(u[0] == t[0]);
        assert(u.subrange(1, u.len() as int) =~= t.subrange(1, t.len() as int).update(i - 1, p));
        if t[0].0 != key {
            lemma_lookup_update_other(t.subrange(1, t.len() as int), i - 1, p, key);
        }
    }
}

impl SkillTable {
    /// An empty lookup table.
    pub fn new() -> (r: SkillTable)
        ensures
            r@ == Seq::<(Seq<char>, Seq<char>)>::empty(),
            table_wf(r@),
    {
        let r = SkillTable { entries: Vec::new() };
        proof {
            assert(r@ =~= Seq::<(Seq<char>, Seq<char>)>::empty());
        }
        r
    }

    /// How many skills the table knows.
    pub fn len(&self) -> (r: usize)
        ensures
            r == self@.len(),
    {
        self.entries.len()
    }

    /// Binds `key` to `value`: a fresh key is added, an existing one has its
    /// value replaced. Lookups of every other key are untouched.
    pub fn insert(&mut self, key: String, value: String)
        requires
            table_wf(old(self)@),
        ensures
            table_wf(final(self)@),
            spec_lookup(final(self)@, key@) == Some(value@),
            forall|k2: Seq<char>| k2 != key@ ==> spec_lookup(final(self)@, k2) == spec_lookup(
                old(self)@,
                k2,
            ),
    {
        let ghost t0 = self@;
        let n = self.entries.len();
        let mut i: usize = 0;
        while i < n
            invariant
                t0 == old(self)@,
                table_wf(t0),
                self@ == t0,
                n == self.entries.len(),
                0 <= i <= n,
                forall|j: int| 0 <= j < i ==> t0[j].0 != key@,
            decreases n - i,
        {
            proof {
                assert(t0[i as int] == pair_model(self.entries@[i as int]));
            }
            if self.entries[i].0 == key {
                self.entries.set(i, (key, value));
                proof {
                    assert(self@ =~= t0.update(i as int, (t0[i as int].0, value@)));
                    assert forall|x: int| 0 <= x < self@.len() implies self@[x].0 == t0[x].0 by {}
                    lemma_lookup_update_same(t0, i as int, value@);
                    assert forall|k2: Seq<char>| k2 != key@ implies spec_lookup(self@, k2)
                        == spec_lookup(t0, k2) by {
                        lemma_lookup_update_other(
                            t0,
                            i as int,
                            (t0[i as int].0, value@),
                            k2,
                        );
                    }
                }
                return ;
            }
            i += 1;
        }
        self.entries.push((key, value));
        proof {
            assert(self@ =~= t0.push((key@, value@)));
            lemma_lookup_push(t0, (key@, value@), key@);
            lemma_spec_lookup_some_position(t0, key@);
            assert forall|k2: Seq<char>| k2 != key@ implies spec_lookup(self@, k2) == spec_lookup(
                t0,
                k2,
            ) by {
                lemma_lookup_push(t0, (key@, value@), k2);
            }
        }
    }

    /// Resolves a skill name to its display URL, or reports that the table
    /// does not know the name.
    pub fn lookup(&self, key: &String) -> (r: Option<String>)
        ensures
            match r {
                Some(v) => spec_lookup(self@, key@) == Some(v@),
                None => spec_lookup(self@, key@) is None,
            },
    {
        let n = self.entries.len();
        proof {
            assert(self@.subrange(0, n as int) =~= self@);
        }
        let mut i: usize = 0;
        while i < n
            invariant
                n == self.entries.len(),
                0 <= i <= n,
                spec_lookup(self@, key@) == spec_lookup(
                    self@.subrange(i as int, n as int),
                    key@,
                ),
            decreases n - i,
        {
            let ghost sub = self@.subrange(i as int, n as int);
            proof {
                assert(sub[0] == self@[i as int]);
                assert(self@[i as int] == pair_model(self.entries@[i as int]));
            }
            if self.entries[i].0 == *key {
                return Some(self.entries[i].1.clone());
            }
            proof {
                assert(sub.subrange(1, sub.len() as int) =~= self@.subrange(
                    i + 1,
                    n as int,
                ));
            }
            i += 1;
        }
        proof {
            assert(self@.subrange(n as int, n as int) =~= Seq::<(Seq<char>, Seq<char>)>::empty());
        }
        None
    }
}

/// A key that resolves occurs in the table; a key that occurs resolves.
pub proof fn lemma_spec_lookup_some_position(t: Seq<(Seq<char>, Seq<char>)>, key: Seq<char>)
    ensures
        spec_lookup(t, key) is Some <==> exists|i: int| 0 <= i < t.len() && t[i].0 == key,
    decreases t.len(),
{
    if t.len() > 0 && t[0].0 != key {
        lemma_spec_lookup_some_position(t.subrange(1, t.len() as int), key);
        let sub = t.subrange(1, t.len() as int);
        if spec_lookup(t, key) is Some {
            let i = choose|i: int| 0 <= i < sub.len() && sub[i].0 == key;
            assert(t[i + 1].0 == key);
        }
        if exists|i: int| 0 <= i < t.len() && t[i].0 == key {
            let i = choose|i: int| 0 <= i < t.len() && t[i].0 == key;
            assert(sub[i - 1].0 == key);
        }
    }
}

/// One showcased work item: role, description, ordered skill references and
/// an optional media path-stem.
pub struct Project {
    pub name: String,
    pub role: String,
    pub languages: Vec<String>,
    pub technologies: Vec<String>,
    pub description: String,
    pub video: Option<String>,
    pub url: String,
}

/// Mathematical model of a project.
pub struct ProjectModel {
    pub name: Seq<char>,
    pub role: Seq<char>,
    pub languages: Seq<Seq<char>>,
    pub technologies: Seq<Seq<char>>,
    pub description: Seq<char>,
    pub video: Option<Seq<char>>,
    pub url: Seq<char>,
}

/// The models of a sequence of strings, in order.
pub open spec fn strs_model(s: Seq<String>) -> Seq<Seq<char>> {
    s.map_values(|x: String| x@)
}

impl View for Project {
    type V = ProjectModel;

    open spec fn view(&self) -> ProjectModel {
        ProjectModel {
            name: self.name@,
            role: self.role@,
            languages: strs_model(self.languages@),
            technologies: strs_model(self.technologies@),
            description: self.description@,
            video: match self.video {
                Some(p) => Some(p@),
                None => None,
            },
            url: self.url@,
        }
    }
}

/// The root configuration entity: the person, two skill lookup tables, and
/// the ordered project list.
pub struct Portfolio {
    pub name: String,
    pub email: String,
    pub about: String,
    pub languages: SkillTable,
    pub technologies: SkillTable,
    pub projects: Vec<Project>,
}

/// Mathematical model of a portfolio.
pub struct PortfolioModel {
    pub name: Seq<char>,
    pub email: Seq<char>,
    pub about: Seq<char>,
    pub languages: Seq<(Seq<char>, Seq<char>)>,
    pub technologies: Seq<(Seq<char>, Seq<char>)>,
    pub projects: Seq<ProjectModel>,
}

impl View for Portfolio {
    type V = PortfolioModel;

    open spec fn view(&self) -> PortfolioModel {
        PortfolioModel {
            name: self.name@,
            email: self.email@,
            about: self.about@,
            languages: self.languages@,
            technologies: self.technologies@,
            projects: self.projects@.map_values(|p: Project| p@),
        }
    }
}

/// Validity of a loaded portfolio: the three text fields are non-empty.
pub open spec fn portfolio_valid(p: PortfolioModel) -> bool {
    p.name.len() > 0 && p.email.len() > 0 && p.about.len() > 0
}

/// Fail-fast validation performed once at load time: every required text
/// field must be present and non-empty.
pub fn validate(p: &Portfolio) -> (r: Result<(), ConfigError>)
    ensures
        r is Ok <==> portfolio_valid(p@),
        r is Err ==> r == Result::<(), ConfigError>::Err(ConfigError::MissingField),
{
    if p.name.as_str().is_empty() || p.email.as_str().is_empty() || p.about.as_str().is_empty() {
        Err(ConfigError::MissingField)
    } else {
        Ok(())
    }
}

} // verus!
