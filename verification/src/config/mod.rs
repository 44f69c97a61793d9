//! The service registry: configured services keyed by name, each with its
//! repository root, expected port and optional start command.

pub mod doctor;

use vstd::prelude::*;
use crate::error::DevportsError;
use crate::path::{
    chars_eq, components, components_prefix, path_components, path_starts_with,
};
use crate::text::{
    chars_lt, chars_of, lemma_seq_lt_irreflexive, lemma_seq_lt_total, lemma_seq_lt_transitive,
    push_str, seq_lt, string_of,
};

verus! {

/// One configured service.
#[derive(Debug, Clone)]
pub struct ServiceConfig {
    pub repo: String,
    pub port: u16,
    pub start: Option<String>,
    pub tags: Vec<String>,
}

pub struct ServiceView {
    pub repo: Seq<char>,
    pub port: u16,
    pub start: Option<Seq<char>>,
    pub tags: Seq<Seq<char>>,
}

impl View for ServiceConfig {
    type V = ServiceView;

    open spec fn view(&self) -> ServiceView {
        ServiceView {
            repo: self.repo@,
            port: self.port,
            start: crate::scan::model::opt_view(self.start),
            tags: self.tags@.map_values(|t: String| t@),
        }
    }
}

impl ServiceConfig {
    /// A field-by-field copy.
    pub fn copy(&self) -> (r: ServiceConfig)
        ensures
            r@ == self@,
    {
        let mut tags: Vec<String> = Vec::new();
        let mut i: usize = 0;
        while i < self.tags.len()
            invariant
                i <= self.tags.len(),
                tags@.len() == i,
                forall|j: int| 0 <= j < i ==> (#[trigger] tags@[j])@ == self.tags@[j]@,
            decreases self.tags.len() - i,
        {
            let t = self.tags[i].clone();
            tags.push(t);
            i = i + 1;
        }
        assert(tags@.map_values(|t: String| t@) =~= self.tags@.map_values(|t: String| t@));
        ServiceConfig {
            repo: self.repo.clone(),
            port: self.port,
            start: crate::scan::model::copy_opt(&self.start),
            tags,
        }
    }
}

/// The configured services, ordered by name with no name twice (the order
/// and uniqueness of a `BTreeMap<String, _>`).
pub struct Config {
    services: Vec<(String, ServiceConfig)>,
}

pub type Entries = Seq<(Seq<char>, ServiceView)>;

impl View for Config {
    type V = Entries;

    closed spec fn view(&self) -> Entries {
        self.services@.map_values(|e: (String, ServiceConfig)| (e.0@, e.1@))
    }
}

/// Names strictly increase along the entries.
pub open spec fn names_increasing(es: Entries) -> bool {
    forall|i: int, j: int| 0 <= i < j < es.len() ==> seq_lt(es[i].0, es[j].0)
}

/// The service configured under `name`.
pub open spec fn lookup(es: Entries, name: Seq<char>) -> Option<ServiceView>
    decreases es.len(),
{
    if es.len() == 0 {
        None
    } else if es.last().0 == name {
        Some(es.last().1)
    } else {
        lookup(es.drop_last(), name)
    }
}

pub proof fn lemma_lookup_at(es: Entries, i: int)
    requires
        names_increasing(es),
        0 <= i < es.len(),
    ensures
        lookup(es, es[i].0) == Some(es[i].1),
    decreases es.len(),
{
    if i < es.len() - 1 {
        assert(seq_lt(es[i].0, es.last().0));
        if es.last().0 == es[i].0 {
            lemma_seq_lt_irreflexive(es[i].0);
        }
        assert(names_increasing(es.drop_last()));
        lemma_lookup_at(es.drop_last(), i);
    }
}

pub proof fn lemma_lookup_none(es: Entries, name: Seq<char>)
    requires
        forall|i: int| 0 <= i < es.len() ==> es[i].0 != name,
    ensures
        lookup(es, name) is None,
    decreases es.len(),
{
    if es.len() > 0 {
        lemma_lookup_none(es.drop_last(), name);
    }
}

pub proof fn lemma_lookup_some(es: Entries, name: Seq<char>)
    requires
        lookup(es, name) is Some,
    ensures
        exists|i: int| 0 <= i < es.len() && es[i].0 == name,
{
    if forall|i: int| 0 <= i < es.len() ==> es[i].0 != name {
        lemma_lookup_none(es, name);
    }
}

impl Config {
    #[verifier::type_invariant]
    spec fn sorted(self) -> bool {
        names_increasing(self@)
    }

    /// A registry with no services.
    pub fn new() -> (c: Config)
        ensures
            c@ == Seq::<(Seq<char>, ServiceView)>::empty(),
    {
        let c = Config { services: Vec::new() };
        assert(c@ =~= Seq::<(Seq<char>, ServiceView)>::empty());
        c
    }

    /// The services in name order.
    pub fn entries(&self) -> (es: &Vec<(String, ServiceConfig)>)
        ensures
            es@.map_values(|e: (String, ServiceConfig)| (e.0@, e.1@)) == self@,
            names_increasing(self@),
    {
        proof {
            use_type_invariant(self);
        }
        &self.services
    }

    /// The number of configured services.
    pub fn len(&self) -> (n: usize)
        ensures
            n == self@.len(),
    {
        self.services.len()
    }

    /// The service configured under `name`, if any.
    pub fn get(&self, name: &str) -> (r: Option<&ServiceConfig>)
        ensures
            match r {
                Some(s) => lookup(self@, name@) == Some(s@),
                None => lookup(self@, name@) is None,
            },
    {
        proof {
            use_type_invariant(self);
        }
        let key = chars_of(name);
        let mut i: usize = 0;
        while i < self.services.len()
            invariant
                i <= self.services.len(),
                key@ == name@,
                names_increasing(self@),
                forall|j: int| 0 <= j < i ==> self@[j].0 != name@,
            decreases self.services.len() - i,
        {
            if chars_eq(&chars_of(self.services[i].0.as_str()), &key) {
                proof {
                    lemma_lookup_at(self@, i as int);
                }
                return Some(&self.services[i].1);
            }
            i = i + 1;
        }
        proof {
            lemma_lookup_none(self@, name@);
        }
        None
    }

    /// Adds a service under `name`, replacing any service of that name
    /// (`BTreeMap::insert`).
    pub fn insert(&mut self, name: String, svc: ServiceConfig)
        ensures
            forall|k: Seq<char>|
                lookup(final(self)@, k) == if k == name@ {
                    Some(svc@)
                } else {
                    lookup(old(self)@, k)
                },
            final(self)@.len() == old(self)@.len() + if lookup(old(self)@, name@) is Some {
                0int
            } else {
                1int
            },
            names_increasing(final(self)@),
    {
        proof {
            use_type_invariant(&*self);
        }
        let ghost old_es = self@;
        let mut v: Vec<(String, ServiceConfig)> = Vec::new();
        std::mem::swap(&mut v, &mut self.services);
        assert(v@.map_values(|e: (String, ServiceConfig)| (e.0@, e.1@)) == old_es);
        let key = chars_of(name.as_str());
        let mut p: usize = 0;
        while p < v.len() && chars_lt(&chars_of(v[p].0.as_str()), &key)
            invariant
                p <= v.len(),
                key@ == name@,
                v@.map_values(|e: (String, ServiceConfig)| (e.0@, e.1@)) == old_es,
                forall|j: int| 0 <= j < p ==> seq_lt(old_es[j].0, name@),
            decreases v.len() - p,
        {
            p = p + 1;
        }
        let ghost name_v = name@;
        let ghost svc_v = svc@;
        let same = p < v.len() && chars_eq(&chars_of(v[p].0.as_str()), &key);
        if same {
            v.set(p, (name, svc));
        } else {
            v.insert(p, (name, svc));
        }
        let ghost new_es = v@.map_values(|e: (String, ServiceConfig)| (e.0@, e.1@));
        proof {
            assert(forall|j: int| 0 <= j < p ==> old_es[j].0 != name_v) by {
                assert forall|j: int| 0 <= j < p implies old_es[j].0 != name_v by {
                    lemma_seq_lt_irreflexive(name_v);
                }
            }
            if p < old_es.len() && !same {
                lemma_seq_lt_total(old_es[p as int].0, name_v);
                assert(seq_lt(name_v, old_es[p as int].0));
            }
            if same {
                assert(new_es =~= old_es.update(p as int, (name_v, svc_v)));
            } else {
                assert(new_es =~= old_es.insert(p as int, (name_v, svc_v)));
            }
            assert forall|i: int, j: int| 0 <= i < j < new_es.len() implies seq_lt(
                new_es[i].0,
                new_es[j].0,
            ) by {
                if same {
                    if i == p {
                        assert(seq_lt(old_es[i].0, old_es[j].0));
                    } else if j == p {
                        assert(seq_lt(old_es[i].0, old_es[j].0));
                    }
                } else {
                    if i < p && j == p {
                    } else if i < p && j > p {
                        assert(new_es[j] == old_es[j - 1]);
                    } else if i == p {
                        assert(new_es[j] == old_es[j - 1]);
                        if j - 1 > p {
                            assert(seq_lt(old_es[p as int].0, old_es[j - 1].0));
                            lemma_seq_lt_transitive(name_v, old_es[p as int].0, old_es[j - 1].0);
                        }
                    } else {
                        let ins = old_es.insert(p as int, (name_v, svc_v));
                        assert(new_es == ins);
                        let oi = if i < p { i } else { i - 1 };
                        let oj = if j < p { j } else { j - 1 };
                        assert(ins[i] == old_es[oi]);
                        assert(ins[j] == old_es[oj]);
                        assert(seq_lt(old_es[oi].0, old_es[oj].0));
                    }
                }
            }
            assert(names_increasing(new_es));
            // Where `name` was, and what every other name maps to.
            let had = lookup(old_es, name_v) is Some;
            assert(had == same) by {
                if had {
                    lemma_lookup_some(old_es, name_v);
                    let i = choose|i: int| 0 <= i < old_es.len() && old_es[i].0 == name_v;
                    if i > p {
                        lemma_seq_lt_total(old_es[p as int].0, name_v);
                        if !same {
                            assert(seq_lt(name_v, old_es[p as int].0));
                            assert(seq_lt(old_es[p as int].0, old_es[i].0));
                            lemma_seq_lt_transitive(name_v, old_es[p as int].0, name_v);
                            lemma_seq_lt_irreflexive(name_v);
                        }
                    }
                    if i == p {
                        assert(same);
                    }
                }
                if same {
                    assert(old_es[p as int].0 == name_v);
                    lemma_lookup_at(old_es, p as int);
                }
            }
            assert forall|k: Seq<char>| lookup(new_es, k) == if k == name_v {
                Some(svc_v)
            } else {
                lookup(old_es, k)
            } by {
                if k == name_v {
                    lemma_lookup_at(new_es, p as int);
                } else {
                    if exists|i: int| 0 <= i < old_es.len() && old_es[i].0 == k {
                        let i = choose|i: int| 0 <= i < old_es.len() && old_es[i].0 == k;
                        lemma_lookup_at(old_es, i);
                        let ni = if same || i < p {
                            i
                        } else {
                            i + 1
                        };
                        assert(new_es[ni] == old_es[i]);
                        lemma_lookup_at(new_es, ni);
                    } else {
                        lemma_lookup_none(old_es, k);
                        assert forall|i: int| 0 <= i < new_es.len() implies new_es[i].0 != k by {
                            if i != p {
                                let oi = if same || i < p {
                                    i
                                } else {
                                    i - 1
                                };
                                assert(new_es[i] == old_es[oi]);
                            }
                        }
                        lemma_lookup_none(new_es, k);
                    }
                }
            }
        }
        self.services = v;
    }

    /// The service configured under `name`, or the error that names it.
    pub fn service(&self, name: &str) -> (r: Result<&ServiceConfig, DevportsError>)
        ensures
            match r {
                Ok(s) => lookup(self@, name@) == Some(s@),
                Err(e) => lookup(self@, name@) is None && (e matches DevportsError::ServiceNotFound {
                    name: n,
                } && n@ == name@),
            },
    {
        match self.get(name) {
            Some(s) => Ok(s),
            None => Err(DevportsError::ServiceNotFound { name: string_of(name) }),
        }
    }
}

/// The repository of `svc` holds `candidate`.
pub open spec fn repo_matches(svc: ServiceView, candidate: Seq<char>) -> bool {
    path_starts_with(candidate, svc.repo)
}

/// The depth of a service's repository: its number of path components.
pub open spec fn repo_depth(svc: ServiceView) -> nat {
    components(svc.repo).len()
}

/// Among the first `n` entries whose repository holds `candidate`, the one
/// with the deepest repository, the later one on a tie (`Iterator::max_by_key`).
pub open spec fn best_match(es: Entries, candidate: Seq<char>, n: int) -> Option<int>
    decreases n,
{
    if n <= 0 {
        None
    } else {
        let prev = best_match(es, candidate, n - 1);
        if repo_matches(es[n - 1].1, candidate) {
            match prev {
                None => Some(n - 1),
                Some(b) => if repo_depth(es[n - 1].1) >= repo_depth(es[b].1) {
                    Some(n - 1)
                } else {
                    Some(b)
                },
            }
        } else {
            prev
        }
    }
}

/// The entry that a listener belongs to: the path to look up is the
/// repository root when known, else the working directory; the entry is the
/// deepest configured repository that holds that path.
pub open spec fn spec_match_service(
    es: Entries,
    repo_root: Option<Seq<char>>,
    cwd: Option<Seq<char>>,
) -> Option<int> {
    let candidate = if repo_root is Some {
        repo_root
    } else {
        cwd
    };
    match candidate {
        None => None,
        Some(c) => best_match(es, c, es.len() as int),
    }
}

/// The match is the deepest repository that holds the path, and the last of
/// equally deep ones; there is none exactly when no repository holds it.
pub proof fn lemma_best_match(es: Entries, candidate: Seq<char>, n: int)
    requires
        0 <= n <= es.len(),
    ensures
        best_match(es, candidate, n) matches Some(b) ==> {
            &&& 0 <= b < n
            &&& repo_matches(es[b].1, candidate)
            &&& forall|j: int|
                0 <= j < n && repo_matches(#[trigger] es[j].1, candidate) ==> repo_depth(es[j].1)
                    <= repo_depth(es[b].1)
            &&& forall|j: int|
                b < j < n && repo_matches(#[trigger] es[j].1, candidate) ==> repo_depth(es[j].1)
                    < repo_depth(es[b].1)
        },
        best_match(es, candidate, n) is None ==> forall|j: int|
            0 <= j < n ==> !repo_matches(#[trigger] es[j].1, candidate),
    decreases n,
{
    if n > 0 {
        lemma_best_match(es, candidate, n - 1);
    }
}

impl Config {
    /// The configured service whose repository holds the listener's
    /// repository root (or, when that is unknown, its working directory),
    /// choosing the deepest such repository.
    pub fn match_service(&self, repo_root: Option<&str>, cwd: Option<&str>) -> (r: Option<
        (&str, &ServiceConfig),
    >)
        ensures
            match r {
                None => spec_match_service(
                    self@,
                    crate::text::opt_str_view(repo_root),
                    crate::text::opt_str_view(cwd),
                ) is None,
                Some((name, svc)) => exists|i: int|
                    spec_match_service(
                        self@,
                        crate::text::opt_str_view(repo_root),
                        crate::text::opt_str_view(cwd),
                    ) == Some(i) && 0 <= i < self@.len() && self@[i] == (name@, svc@),
            },
    {
        let candidate = match repo_root {
            Some(r) => r,
            None => match cwd {
                Some(c) => c,
                None => return None,
            },
        };
        let cand = path_components(&chars_of(candidate));
        let ghost es = self@;
        let mut best: Option<usize> = None;
        let mut best_depth: usize = 0;
        let mut i: usize = 0;
        while i < self.services.len()
            invariant
                i <= self.services.len(),
                es == self@,
                es.len() == self.services@.len(),
                forall|j: int| 0 <= j < es.len() ==> (#[trigger] es[j]) == (self.services@[j].0@, self.services@[j].1@),
                crate::text::views(cand@) == components(candidate@),
                match best {
                    None => best_match(es, candidate@, i as int) is None,
                    Some(b) => best_match(es, candidate@, i as int) == Some(b as int)
                        && best_depth == repo_depth(es[b as int].1),
                },
            decreases self.services.len() - i,
        {
            let repo = path_components(&chars_of(self.services[i].1.repo.as_str()));
            let holds = components_prefix(&cand, &repo);
            assert(es[i as int] == (self.services@[i as int].0@, self.services@[i as int].1@));
            if holds {
                let depth = repo.len();
                match best {
                    None => {
                        best = Some(i);
                        best_depth = depth;
                    },
                    Some(_) => {
                        if depth >= best_depth {
                            best = Some(i);
                            best_depth = depth;
                        }
                    },
                }
            }
            i = i + 1;
        }
        match best {
            None => None,
            Some(b) => {
                proof {
                    lemma_best_match(es, candidate@, es.len() as int);
                }
                assert(es[b as int] == (self.services@[b as int].0@, self.services@[b as int].1@));
                Some((self.services[b].0.as_str(), &self.services[b].1))
            },
        }
    }
}

/// Whether `full` lies within `prefix`, compared by path components
/// (`Path::starts_with`).
pub fn path_prefix_eq(prefix: &str, full: &str) -> (b: bool)
    ensures
        b == path_starts_with(full@, prefix@),
{
    crate::path::starts_with_path(full, prefix)
}

/// `PathBuf::join` with a relative path: a `/` goes between the two unless
/// the first is empty or already ends with one.
pub open spec fn path_join(a: Seq<char>, b: Seq<char>) -> Seq<char> {
    if a.len() == 0 || a.last() == '/' {
        a + b
    } else {
        a + seq!['/'] + b
    }
}

/// Joins a relative path onto a path.
pub fn join_path(a: &str, b: &str) -> (r: String)
    ensures
        r@ == path_join(a@, b@),
{
    let ac = chars_of(a);
    let mut r = string_of(a);
    if !(ac.len() == 0 || ac[ac.len() - 1] == '/') {
        crate::text::push_char(&mut r, '/');
    }
    push_str(&mut r, b);
    r
}

/// The config file under a home directory: `<home>/.devports/config.yml`,
/// with `.` standing for an unknown home.
pub open spec fn spec_default_config_path(home: Option<Seq<char>>) -> Seq<char> {
    let base = match home {
        Some(h) => h,
        None => "."@,
    };
    path_join(path_join(base, ".devports"@), "config.yml"@)
}

/// The default config path for the given home directory.
pub fn default_config_path(home: Option<&str>) -> (p: String)
    ensures
        p@ == spec_default_config_path(crate::text::opt_str_view(home)),
{
    let base = match home {
        Some(h) => h,
        None => ".",
    };
    let dir = join_path(base, ".devports");
    join_path(dir.as_str(), "config.yml")
}

/// The text of a fresh config file.
pub open spec fn spec_empty_config_text() -> Seq<char> {
    "services: {}\n"@
}

/// What `config init` writes: an empty registry, unless a config exists and
/// overwriting was not asked for.
pub fn init_config(exists: bool, force: bool) -> (r: Result<String, DevportsError>)
    ensures
        exists && !force <==> r is Err,
        r matches Err(e) ==> e is ConfigExists,
        r matches Ok(text) ==> text@ == spec_empty_config_text(),
{
    if exists && !force {
        return Err(DevportsError::ConfigExists);
    }
    Ok(string_of("services: {}\n"))
}

/// `config add`: the service named `name` becomes the given one, with no tags;
/// every other service stays as it was.
pub fn add_service(cfg: &mut Config, name: String, repo: String, port: u16, start: Option<String>)
    ensures
        forall|k: Seq<char>|
            lookup(final(cfg)@, k) == if k == name@ {
                Some(
                    ServiceView {
                        repo: repo@,
                        port,
                        start: crate::scan::model::opt_view(start),
                        tags: Seq::empty(),
                    },
                )
            } else {
                lookup(old(cfg)@, k)
            },
{
    let svc = ServiceConfig { repo, port, start, tags: Vec::new() };
    assert(svc@.tags =~= Seq::<Seq<char>>::empty());
    cfg.insert(name, svc);
}

} // verus!
