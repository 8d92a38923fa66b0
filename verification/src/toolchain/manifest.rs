//! The package manifest (`nova.toml`) and the resolution of its dependencies.

use vstd::prelude::*;
use std::path::PathBuf;
use crate::strings::{
    find_char, find_in, is_ws, line_bounds, lines_of, split_on, strip_cr, trim, trim_bounds, trim_char, trim_char_bounds,
    trim_char_end, trim_char_start, trim_end, trim_start, string_of, lemma_find_prefix, lemma_split_join, lemma_split_single,
};
use crate::text::{push_str, str_to_string};

verus! {

/// A path on disk.
#[verifier::external_type_specification]
#[verifier::external_body]
pub struct ExPathBuf(PathBuf);

/// A map from names to texts that keeps the order in which names were first added.
#[derive(Debug, Clone)]
pub struct DepMap {
    entries: Vec<(String, String)>,
}

/// No name occurs twice.
pub open spec fn unique_keys(s: Seq<(Seq<char>, Seq<char>)>) -> bool {
    forall|i: int, j: int| 0 <= i < j < s.len() ==> s[i].0 != s[j].0
}

/// The entries after setting `k` to `v`: in place if `k` is present, else at the end.
pub open spec fn dep_insert(s: Seq<(Seq<char>, Seq<char>)>, k: Seq<char>, v: Seq<char>) -> Seq<(Seq<char>, Seq<char>)> {
    if exists|i: int| 0 <= i < s.len() && #[trigger] s[i].0 == k {
        let i = choose|i: int| 0 <= i < s.len() && #[trigger] s[i].0 == k;
        s.update(i, (k, v))
    } else {
        s.push((k, v))
    }
}

impl View for DepMap {
    type V = Seq<(Seq<char>, Seq<char>)>;

    closed spec fn view(&self) -> Self::V {
        self.entries@.map_values(|e: (String, String)| (e.0@, e.1@))
    }
}

impl DepMap {
    /// Every name occurs once.
    pub closed spec fn wf(&self) -> bool {
        unique_keys(self@)
    }

    /// An empty map.
    pub fn new() -> (r: Self)
        ensures
            r@ == Seq::<(Seq<char>, Seq<char>)>::empty(),
            r.wf(),
    {
        let r = DepMap { entries: Vec::new() };
        assert(r@ =~= Seq::empty());
        r
    }

    /// The number of names.
    pub fn len(&self) -> (r: usize)
        ensures
            r == self@.len(),
    {
        self.entries.len()
    }

    /// The position of a name, if present.
    fn position(&self, k: &String) -> (r: Option<usize>)
        ensures
            match r {
                Some(i) => i < self@.len() && self@[i as int].0 == k@,
                None => forall|i: int| 0 <= i < self@.len() ==> #[trigger] self@[i].0 != k@,
            },
    {
        let mut i: usize = 0;
        while i < self.entries.len()
            invariant
                i <= self@.len(),
                self@.len() == self.entries@.len(),
                forall|j: int| 0 <= j < i ==> #[trigger] self@[j].0 != k@,
            decreases self@.len() - i,
        {
            if self.entries[i].0 == *k {
                return Some(i);
            }
            i = i + 1;
        }
        None
    }

    /// The text of a name, if present.
    pub fn get(&self, k: &str) -> (r: Option<&String>)
        requires
            self.wf(),
        ensures
            match r {
                Some(v) => exists|i: int| 0 <= i < self@.len() && #[trigger] self@[i] == (k@, v@),
                None => forall|i: int| 0 <= i < self@.len() ==> #[trigger] self@[i].0 != k@,
            },
    {
        let key = str_to_string(k);
        match self.position(&key) {
            Some(i) => {
                assert(self@[i as int] == (k@, self.entries@[i as int].1@));
                Some(&self.entries[i].1)
            }
            None => None,
        }
    }

    /// Sets a name to a text.
    pub fn insert(&mut self, k: String, v: String)
        requires
            old(self).wf(),
        ensures
            final(self).wf(),
            final(self)@ == dep_insert(old(self)@, k@, v@),
    {
        let ghost km = k@;
        let ghost vm = v@;
        match self.position(&k) {
            Some(i) => {
                self.entries.set(i, (k, v));
                assert(self@ =~= old(self)@.update(i as int, (km, vm)));
                assert(unique_keys(old(self)@));
                proof {
                    let j = choose|j: int| 0 <= j < old(self)@.len() && #[trigger] old(self)@[j].0 == km;
                    assert(j == i);
                }
            }
            None => {
                self.entries.push((k, v));
                assert(self@ =~= old(self)@.push((km, vm)));
            }
        }
    }
}

/// A package manifest.
#[derive(Debug, Clone)]
pub struct Manifest {
    pub name: String,
    pub version: String,
    pub authors: Vec<String>,
    pub description: String,
    pub dependencies: DepMap,
}

/// The model of a manifest: name, version, authors, description and dependencies.
pub struct ManifestModel {
    pub name: Seq<char>,
    pub version: Seq<char>,
    pub authors: Seq<Seq<char>>,
    pub description: Seq<char>,
    pub deps: Seq<(Seq<char>, Seq<char>)>,
}

/// The views of a list of strings.
pub open spec fn views(v: Seq<String>) -> Seq<Seq<char>> {
    v.map_values(|s: String| s@)
}

impl Manifest {
    /// The model of the manifest.
    pub open spec fn model(&self) -> ManifestModel {
        ManifestModel {
            name: self.name@,
            version: self.version@,
            authors: views(self.authors@),
            description: self.description@,
            deps: self.dependencies@,
        }
    }
}

/// The non-empty texts of a list, in order.
pub open spec fn non_empty(s: Seq<Seq<char>>) -> Seq<Seq<char>>
    decreases s.len(),
{
    if s.len() == 0 {
        Seq::empty()
    } else if s.last().len() == 0 {
        non_empty(s.drop_last())
    } else {
        non_empty(s.drop_last()).push(s.last())
    }
}

/// The authors of `["A", "B"]`'s inside: comma-separated, trimmed, unquoted, non-empty.
pub open spec fn author_list(inner: Seq<char>) -> Seq<Seq<char>> {
    non_empty(split_on(inner, ',').map_values(|p: Seq<char>| trim_char(trim(p), '"')))
}

/// A manifest with only the defaults: version `0.1.0`.
pub open spec fn default_manifest() -> ManifestModel {
    ManifestModel {
        name: Seq::empty(),
        version: "0.1.0"@,
        authors: Seq::empty(),
        description: Seq::empty(),
        deps: Seq::empty(),
    }
}

/// The effect of a `key = value` line in the `[package]` section.
pub open spec fn package_field(m: ManifestModel, key: Seq<char>, value: Seq<char>) -> ManifestModel {
    if key == "name"@ {
        ManifestModel { name: value, ..m }
    } else if key == "version"@ {
        ManifestModel { version: value, ..m }
    } else if key == "authors"@ {
        if value.len() > 0 && value[0] == '[' && value.last() == ']' {
            ManifestModel { authors: author_list(value.subrange(1, value.len() - 1)), ..m }
        } else {
            m
        }
    } else if key == "description"@ {
        ManifestModel { description: value, ..m }
    } else {
        m
    }
}

/// The manifest and current section after one more line.
pub open spec fn manifest_line(m: ManifestModel, section: Option<Seq<char>>, raw: Seq<char>) -> (ManifestModel, Option<Seq<char>>) {
    let line = trim(raw);
    if line.len() == 0 || line[0] == '#' {
        (m, section)
    } else if line[0] == '[' && line.last() == ']' {
        (m, Some(line.subrange(1, line.len() - 1)))
    } else {
        match find_char(line, '=') {
            None => (m, section),
            Some(e) => {
                let key = trim(line.subrange(0, e));
                let value = trim_char(trim(line.subrange(e + 1, line.len() as int)), '"');
                if section == Some("package"@) {
                    (package_field(m, key, value), section)
                } else if section == Some("dependencies"@) {
                    (ManifestModel { deps: dep_insert(m.deps, key, value), ..m }, section)
                } else {
                    (m, section)
                }
            }
        }
    }
}

/// The manifest and section after the lines in turn.
pub open spec fn manifest_lines(lines: Seq<Seq<char>>) -> (ManifestModel, Option<Seq<char>>)
    decreases lines.len(),
{
    if lines.len() == 0 {
        (default_manifest(), None)
    } else {
        let (m, s) = manifest_lines(lines.drop_last());
        manifest_line(m, s, lines.last())
    }
}

/// The manifest a text describes: a `[package]` section with `name`,
/// `version`, `authors` and `description`, and a `[dependencies]` section of
/// `name = "version"` lines; blank lines and `#` comments are ignored.
pub open spec fn parse_manifest(content: Seq<char>) -> ManifestModel {
    manifest_lines(lines_of(content)).0
}

/// Whether `v[a..b]` holds the characters of `lit`.
fn range_is(v: &Vec<char>, a: usize, b: usize, lit: &str) -> (r: bool)
    requires
        a <= b <= v@.len(),
    ensures
        r == (v@.subrange(a as int, b as int) == lit@),
{
    let s = string_of(v, a, b);
    s == str_to_string(lit)
}

/// The authors listed in `v[a..b]`, the inside of `[...]`.
fn parse_authors(v: &Vec<char>, a: usize, b: usize) -> (r: Vec<String>)
    requires
        a <= b <= v@.len(),
    ensures
        views(r@) == author_list(v@.subrange(a as int, b as int)),
{
    let ghost inner = v@.subrange(a as int, b as int);
    let ghost pieces = split_on(inner, ',').map_values(|p: Seq<char>| trim_char(trim(p), '"'));
    let mut out: Vec<String> = Vec::new();
    let mut start = a;
    let mut i = a;
    assert(v@.subrange(a as int, a as int) =~= Seq::<char>::empty());
    while i < b
        invariant
            a <= start <= i <= b <= v@.len(),
            inner == v@.subrange(a as int, b as int),
            ({
                let p = split_on(v@.subrange(a as int, i as int), ',');
                &&& p.last() == v@.subrange(start as int, i as int)
                &&& views(out@) == non_empty(p.drop_last().map_values(|q: Seq<char>| trim_char(trim(q), '"')))
            }),
        decreases b - i,
    {
        let ghost p = split_on(v@.subrange(a as int, i as int), ',');
        proof { crate::strings::lemma_split_on_len(v@.subrange(a as int, i as int), ','); }
        assert(v@.subrange(a as int, i + 1).drop_last() =~= v@.subrange(a as int, i as int));
        if v[i] == ',' {
            let ghost before = out@;
            let (x, y) = trim_bounds(v, start, i);
            let (x2, y2) = trim_char_bounds(v, x, y, '"');
            if y2 > x2 {
                out.push(string_of(v, x2, y2));
            }
            proof {
                let np = split_on(v@.subrange(a as int, i + 1), ',');
                assert(np == p.push(Seq::<char>::empty()));
                let f = |q: Seq<char>| trim_char(trim(q), '"');
                assert(np.drop_last() == p);
                let pm = p.map_values(f);
                assert(pm.drop_last() =~= p.drop_last().map_values(f));
                assert(pm.last() == v@.subrange(x2 as int, y2 as int));
                if y2 > x2 {
                    assert(views(out@) =~= views(before).push(v@.subrange(x2 as int, y2 as int)));
                } else {
                    assert(views(out@) =~= views(before));
                }
                assert(views(out@) =~= non_empty(pm));
            }
            start = i + 1;
            assert(v@.subrange(start as int, i + 1) =~= Seq::<char>::empty());
        } else {
            proof {
                let np = split_on(v@.subrange(a as int, i + 1), ',');
                assert(np == p.update(p.len() - 1, p.last().push(v@[i as int])));
                assert(np.drop_last() =~= p.drop_last());
            }
            assert(v@.subrange(start as int, i + 1) =~= v@.subrange(start as int, i as int).push(v@[i as int]));
        }
        i = i + 1;
    }
    let ghost p = split_on(v@.subrange(a as int, b as int), ',');
    proof { crate::strings::lemma_split_on_len(v@.subrange(a as int, b as int), ','); }
    let ghost before = out@;
    let (x, y) = trim_bounds(v, start, b);
    let (x2, y2) = trim_char_bounds(v, x, y, '"');
    if y2 > x2 {
        out.push(string_of(v, x2, y2));
    }
    proof {
        let f = |q: Seq<char>| trim_char(trim(q), '"');
        let pm = p.map_values(f);
        assert(pm.drop_last() =~= p.drop_last().map_values(f));
        assert(pm.last() == v@.subrange(x2 as int, y2 as int));
        if y2 > x2 {
            assert(views(out@) =~= views(before).push(v@.subrange(x2 as int, y2 as int)));
        } else {
            assert(views(out@) =~= views(before));
        }
        assert(views(out@) =~= non_empty(pm));
    }
    out
}

impl Manifest {
    /// The manifest described by a `nova.toml` text.
    pub fn parse(content: &str) -> (r: Result<Self, String>)
        ensures
            r matches Ok(m) && m.model() == parse_manifest(content@) && m.dependencies.wf(),
    {
        let v = crate::text::chars_of(content);
        let bounds = line_bounds(&v);
        let ghost lines = lines_of(v@);
        let mut manifest = Manifest {
            name: String::new(),
            version: str_to_string("0.1.0"),
            authors: Vec::new(),
            description: String::new(),
            dependencies: DepMap::new(),
        };
        let mut section: Option<String> = None;
        assert(manifest.model() == default_manifest()) by {
            assert(views(manifest.authors@) =~= Seq::<Seq<char>>::empty());
        }
        assert(lines.take(0) =~= Seq::<Seq<char>>::empty());
        assert forall|i: int| 0 <= i < bounds@.len() implies {
            &&& (#[trigger] bounds@[i]).0 <= bounds@[i].1 <= v@.len()
            &&& lines[i] == v@.subrange(bounds@[i].0 as int, bounds@[i].1 as int)
        } by {
            assert(lines_of(v@)[i] == v@.subrange(bounds@[i].0 as int, bounds@[i].1 as int));
        }
        let mut k: usize = 0;
        while k < bounds.len()
            invariant
                k <= bounds@.len(),
                bounds@.len() == lines.len(),
                lines == lines_of(v@),
                forall|i: int| 0 <= i < bounds@.len() ==> {
                    &&& (#[trigger] bounds@[i]).0 <= bounds@[i].1 <= v@.len()
                    &&& lines[i] == v@.subrange(bounds@[i].0 as int, bounds@[i].1 as int)
                },
                manifest.dependencies.wf(),
                (manifest.model(), match section { Some(s) => Some(s@), None => None::<Seq<char>> })
                    == manifest_lines(lines.take(k as int)),
            decreases bounds@.len() - k,
        {
            let (a0, b0) = bounds[k];
            assert(bounds@[k as int] == (a0, b0));
            assert(lines.take(k + 1).drop_last() =~= lines.take(k as int));
            assert(lines.take(k + 1).last() == lines[k as int]);
            let (a, b) = trim_bounds(&v, a0, b0);
            let ghost line = v@.subrange(a as int, b as int);
            if b == a || v[a] == '#' {
                k = k + 1;
                continue;
            }
            if v[a] == '[' && v[b - 1] == ']' {
                assert(line.last() == v@[b - 1]);
                section = Some(string_of(&v, a + 1, b - 1));
                assert(v@.subrange(a + 1, b - 1) =~= line.subrange(1, line.len() - 1));
                k = k + 1;
                continue;
            }
            match find_in(&v, a, b, '=') {
                None => {},
                Some(e) => {
                    let (ka, kb) = trim_bounds(&v, a, a + e);
                    let (va0, vb0) = trim_bounds(&v, a + e + 1, b);
                    let (va, vb) = trim_char_bounds(&v, va0, vb0, '"');
                    assert(v@.subrange(a as int, a + e) =~= line.subrange(0, e as int));
                    assert(v@.subrange(a + e + 1, b as int) =~= line.subrange(e + 1, line.len() as int));
                    let key = string_of(&v, ka, kb);
                    let value = string_of(&v, va, vb);
                    let in_package = match &section { Some(s) => *s == str_to_string("package"), None => false };
                    let in_deps = match &section { Some(s) => *s == str_to_string("dependencies"), None => false };
                    if in_package {
                        if range_is(&v, ka, kb, "name") {
                            manifest.name = value;
                        } else if range_is(&v, ka, kb, "version") {
                            manifest.version = value;
                        } else if range_is(&v, ka, kb, "authors") {
                            if vb > va && v[va] == '[' && v[vb - 1] == ']' {
                                let ghost vm = v@.subrange(va as int, vb as int);
                                assert(vm.last() == v@[vb - 1]);
                                assert(v@.subrange(va + 1, vb - 1) =~= vm.subrange(1, vm.len() - 1));
                                manifest.authors = parse_authors(&v, va + 1, vb - 1);
                            }
                        } else if range_is(&v, ka, kb, "description") {
                            manifest.description = value;
                        }
                    } else if in_deps {
                        manifest.dependencies.insert(key, value);
                    }
                }
            }
            k = k + 1;
        }
        assert(lines.take(bounds@.len() as int) =~= lines);
        Ok(manifest)
    }
}

/// A dependency as resolved: its name, version and where it was put.
#[derive(Debug, Clone)]
pub struct ResolvedDependency {
    pub name: String,
    pub version: String,
    pub path: Option<PathBuf>,
}

/// The resolver of a manifest's dependencies.
#[derive(Debug)]
pub struct DependencyResolver {
    pub manifest: Manifest,
    pub resolved: Vec<ResolvedDependency>,
}

impl DependencyResolver {
    /// Well-formed: no dependency is resolved twice.
    pub open spec fn wf(&self) -> bool {
        unique_keys(self.resolved_pairs())
    }

    /// A resolver with nothing resolved yet.
    pub fn new(manifest: Manifest) -> (r: Self)
        ensures
            r.manifest.model() == manifest.model(),
            r.resolved@.len() == 0,
            r.wf(),
    {
        DependencyResolver { manifest, resolved: Vec::new() }
    }

    /// The (name, version) pairs resolved so far.
    pub open spec fn resolved_pairs(&self) -> Seq<(Seq<char>, Seq<char>)> {
        self.resolved@.map_values(|d: ResolvedDependency| (d.name@, d.version@))
    }

    /// Records each dependency of the manifest, in order, unless a dependency
    /// of that name is already resolved; new records have no path yet.
    pub fn resolve_all(&mut self) -> (r: Result<(), String>)
        ensures
            r is Ok,
            final(self).manifest.model() == old(self).manifest.model(),
            final(self).resolved_pairs() == resolve_deps(old(self).resolved_pairs(), old(self).manifest.dependencies@),
            old(self).resolved@.is_prefix_of(final(self).resolved@),
            forall|i: int| old(self).resolved@.len() <= i < final(self).resolved@.len()
                ==> (#[trigger] final(self).resolved@[i]).path is None,
            old(self).wf() ==> final(self).wf(),
    {
        proof {
            if old(self).wf() {
                lemma_resolve_deps_unique(old(self).resolved_pairs(), old(self).manifest.dependencies@);
            }
        }
        let n = self.manifest.dependencies.len();
        let mut i: usize = 0;
        assert(self.manifest.dependencies@.take(0) =~= Seq::<(Seq<char>, Seq<char>)>::empty());
        while i < n
            invariant
                i <= n,
                n == self.manifest.dependencies@.len(),
                self.manifest.model() == old(self).manifest.model(),
                self.resolved_pairs() == resolve_deps(old(self).resolved_pairs(), self.manifest.dependencies@.take(i as int)),
                old(self).resolved@.is_prefix_of(self.resolved@),
                forall|j: int| old(self).resolved@.len() <= j < self.resolved@.len()
                    ==> (#[trigger] self.resolved@[j]).path is None,
            decreases n - i,
        {
            let (name, version) = self.manifest.dependencies.entry(i);
            let ghost deps = self.manifest.dependencies@;
            assert(deps.take(i + 1).drop_last() =~= deps.take(i as int));
            assert(deps.take(i + 1).last() == deps[i as int]);
            let mut found = false;
            let mut j: usize = 0;
            while j < self.resolved.len()
                invariant
                    j <= self.resolved@.len(),
                    !found ==> forall|x: int| 0 <= x < j ==> #[trigger] self.resolved_pairs()[x].0 != name@,
                    found ==> exists|x: int| 0 <= x < self.resolved@.len() && #[trigger] self.resolved_pairs()[x].0 == name@,
                decreases self.resolved@.len() - j,
            {
                if self.resolved[j].name == name {
                    found = true;
                    assert(self.resolved_pairs()[j as int].0 == name@);
                }
                j = j + 1;
            }
            if !found {
                let ghost before = self.resolved@;
                self.resolved.push(ResolvedDependency { name, version, path: None });
                assert(self.resolved_pairs() =~= old(self).resolved_pairs().add(Seq::empty()).add(
                    self.resolved_pairs().subrange(old(self).resolved@.len() as int, self.resolved_pairs().len() as int))) by {}
                proof {
                    assert(before.is_prefix_of(self.resolved@));
                }
            }
            i = i + 1;
        }
        assert(self.manifest.dependencies@.take(n as int) =~= self.manifest.dependencies@);
        Ok(())
    }

    /// The resolved dependencies, in the order of the manifest.
    pub fn get_resolved(&self) -> (r: Vec<&ResolvedDependency>)
        ensures
            r@.len() == self.resolved@.len(),
            forall|i: int| 0 <= i < r@.len() ==> *(#[trigger] r@[i]) == self.resolved@[i],
    {
        let mut out: Vec<&ResolvedDependency> = Vec::new();
        let mut i: usize = 0;
        while i < self.resolved.len()
            invariant
                i <= self.resolved@.len(),
                out@.len() == i,
                forall|j: int| 0 <= j < i ==> *(#[trigger] out@[j]) == self.resolved@[j],
            decreases self.resolved@.len() - i,
        {
            out.push(&self.resolved[i]);
            i = i + 1;
        }
        out
    }
}

impl DepMap {
    /// Copies of the name and text at a position.
    pub fn entry(&self, i: usize) -> (r: (String, String))
        requires
            i < self@.len(),
        ensures
            r.0@ == self@[i as int].0,
            r.1@ == self@[i as int].1,
    {
        (self.entries[i].0.clone(), self.entries[i].1.clone())
    }
}

/// The pairs after recording each dependency whose name is not yet recorded.
pub open spec fn resolve_deps(acc: Seq<(Seq<char>, Seq<char>)>, deps: Seq<(Seq<char>, Seq<char>)>) -> Seq<(Seq<char>, Seq<char>)>
    decreases deps.len(),
{
    if deps.len() == 0 {
        acc
    } else {
        let a = resolve_deps(acc, deps.drop_last());
        if exists|j: int| 0 <= j < a.len() && #[trigger] a[j].0 == deps.last().0 { a } else { a.push(deps.last()) }
    }
}

/// Recording dependencies keeps names unique.
pub proof fn lemma_resolve_deps_unique(acc: Seq<(Seq<char>, Seq<char>)>, deps: Seq<(Seq<char>, Seq<char>)>)
    requires
        unique_keys(acc),
    ensures
        unique_keys(resolve_deps(acc, deps)),
    decreases deps.len(),
{
    if deps.len() > 0 {
        lemma_resolve_deps_unique(acc, deps.drop_last());
        let a = resolve_deps(acc, deps.drop_last());
        if !(exists|j: int| 0 <= j < a.len() && #[trigger] a[j].0 == deps.last().0) {
            let b = a.push(deps.last());
            assert forall|i: int, j: int| 0 <= i < j < b.len() implies b[i].0 != b[j].0 by {
                if j == a.len() {
                    assert(a[i].0 != deps.last().0);
                }
            }
        }
    }
}

/// A text with no white space at either end is its own trim.
proof fn lemma_trim_same(s: Seq<char>)
    requires
        s.len() > 0,
        !is_ws(s[0]),
        !is_ws(s.last()),
    ensures
        trim(s) == s,
{
    assert(trim_start(s) == s);
}

/// A character that does not occur is not found.
proof fn lemma_find_none(s: Seq<char>, c: char)
    requires
        !s.contains(c),
    ensures
        find_char(s, c) is None,
    decreases s.len(),
{
    if s.len() > 0 {
        assert(!s.drop_last().contains(c)) by {
            if s.drop_last().contains(c) {
                let i = choose|i: int| 0 <= i < s.drop_last().len() && s.drop_last()[i] == c;
                assert(s[i] == c);
            }
        }
        lemma_find_none(s.drop_last(), c);
        assert(s[s.len() - 1] == s.last());
    }
}

/// A `[name]` line opens the section `name`.
proof fn lemma_section_line(m: ManifestModel, sec: Option<Seq<char>>, name: Seq<char>)
    ensures
        manifest_line(m, sec, seq!['['] + name + seq![']']) == (m, Some(name)),
{
    let line = seq!['['] + name + seq![']'];
    lemma_trim_same(line);
    assert(line.subrange(1, line.len() - 1) =~= name);
}

/// A `key = v` line: the key and the unquoted value, in the current section.
proof fn lemma_kv_line(m: ManifestModel, sec: Option<Seq<char>>, key: Seq<char>, v: Seq<char>)
    requires
        key.len() > 0,
        !key.contains('='),
        !is_ws(key[0]),
        !is_ws(key.last()),
        key[0] != '#',
        key[0] != '[',
        v.len() > 0,
        !is_ws(v[0]),
        !is_ws(v.last()),
    ensures
        manifest_line(m, sec, key + " = "@ + v) == ({
            let value = trim_char(v, '"');
            if sec == Some("package"@) {
                (package_field(m, key, value), sec)
            } else if sec == Some("dependencies"@) {
                (ManifestModel { deps: dep_insert(m.deps, key, value), ..m }, sec)
            } else {
                (m, sec)
            }
        }),
{
    reveal_strlit(" = ");
    let line = key + " = "@ + v;
    assert(line[0] == key[0]);
    assert(line.last() == v.last());
    lemma_trim_same(line);
    let k = key.len() as int + 1;
    assert(line[k] == '=');
    assert(line.take(k) =~= key + seq![' ']);
    assert(!(key + seq![' ']).contains('=')) by {
        if (key + seq![' ']).contains('=') {
            let i = choose|i: int| 0 <= i < (key + seq![' ']).len() && (key + seq![' '])[i] == '=';
            assert(key[i] == '=');
        }
    }
    lemma_find_none(key + seq![' '], '=');
    lemma_find_prefix(line, k, '=');
    let kk = line.subrange(0, k);
    assert(kk =~= key + seq![' ']);
    assert(trim_start(kk) == kk);
    assert(kk.drop_last() =~= key);
    assert(trim_end(kk) == trim_end(key));
    assert(trim(kk) == key);
    let vv = line.subrange(k + 1, line.len() as int);
    assert(vv =~= seq![' '] + v);
    assert(vv.drop_first() =~= v);
    assert(trim_start(vv) == trim_start(v));
    assert(trim(vv) == v);
}

/// Unquoting a quoted text without quotes gives the text.
proof fn lemma_unquote(x: Seq<char>)
    requires
        !x.contains('"'),
    ensures
        trim_char(seq!['"'] + x + seq!['"'], '"') == x,
{
    let q = seq!['"'] + x + seq!['"'];
    assert(q.drop_first() =~= x + seq!['"']);
    if x.len() == 0 {
        assert(x + seq!['"'] =~= seq!['"']);
        assert(seq!['"'].drop_first() =~= Seq::<char>::empty());
        assert(trim_char_start(seq!['"'], '"') == trim_char_start(Seq::<char>::empty(), '"'));
    } else {
        assert((x + seq!['"'])[0] == x[0]);
        assert(x[0] != '"') by { assert(x.contains(x[0])); }
        assert(trim_char_start(x + seq!['"'], '"') == x + seq!['"']);
        assert((x + seq!['"']).drop_last() =~= x);
        assert(x.last() != '"') by { assert(x.contains(x[x.len() - 1])); }
        assert(trim_char_end(x, '"') == x);
    }
}

/// The manifest text of a new project.
pub open spec fn default_manifest_text(project_name: Seq<char>) -> Seq<char> {
    "[package]\nname = \""@ + project_name + "\"\nversion = \"0.1.0\"\nauthors = [\"\"]\ndescription = \"A NOVA project\"\n\n[dependencies]\n"@
}

/// What a new project's manifest reads back as.
pub open spec fn new_project_manifest_model(name: Seq<char>) -> ManifestModel {
    ManifestModel {
        name,
        version: "0.1.0"@,
        authors: Seq::empty(),
        description: "A NOVA project"@,
        deps: Seq::empty(),
    }
}

/// No line break in `s`.
proof fn lemma_no_newline(s: Seq<char>)
    requires
        forall|i: int| 0 <= i < s.len() ==> s[i] != '\n',
    ensures
        !s.contains('\n'),
{
}

/// The manifest text written for a new project reads back as that project:
/// its name, version `0.1.0`, the description "A NOVA project", no authors
/// and no dependencies (for a name without `"` or a line break).
pub proof fn lemma_default_manifest_round_trip(name: Seq<char>)
    requires
        !name.contains('"'),
        !name.contains('\n'),
    ensures
        parse_manifest(default_manifest_text(name)) == new_project_manifest_model(name),
{
    reveal_strlit("[package]\nname = \"");
    reveal_strlit("\"\nversion = \"0.1.0\"\nauthors = [\"\"]\ndescription = \"A NOVA project\"\n\n[dependencies]\n");
    reveal_strlit("package");
    reveal_strlit("dependencies");
    reveal_strlit("name");
    reveal_strlit("version");
    reveal_strlit("authors");
    reveal_strlit("description");
    reveal_strlit(" = ");
    reveal_strlit("0.1.0");
    reveal_strlit("A NOVA project");
    let nl = seq!['\n'];
    let e = Seq::<char>::empty();
    let q = seq!['"'];
    let l1 = seq!['['] + "package"@ + seq![']'];
    let v2 = q + name + q;
    let l2 = "name"@ + " = "@ + v2;
    let v3 = q + "0.1.0"@ + q;
    let l3 = "version"@ + " = "@ + v3;
    let v4 = seq!['[', '"', '"', ']'];
    let l4 = "authors"@ + " = "@ + v4;
    let v5 = q + "A NOVA project"@ + q;
    let l5 = "description"@ + " = "@ + v5;
    let l7 = seq!['['] + "dependencies"@ + seq![']'];
    let s7 = l7 + nl + e;
    let s6 = e + nl + s7;
    let s5 = l5 + nl + s6;
    let s4 = l4 + nl + s5;
    let s3 = l3 + nl + s4;
    let s2 = l2 + nl + s3;
    let s1 = l1 + nl + s2;
    assert(default_manifest_text(name) =~= s1);
    // the pieces between line breaks
    lemma_no_newline(l1);
    assert(!l2.contains('\n')) by {
        assert forall|i: int| 0 <= i < l2.len() implies l2[i] != '\n' by {
            if 8 <= i < 8 + name.len() {
                assert(l2[i] == name[i - 8]);
                assert(name.contains(name[i - 8]));
            }
        }
    }
    lemma_no_newline(l3);
    lemma_no_newline(l4);
    lemma_no_newline(l5);
    lemma_no_newline(l7);
    lemma_split_single(l1, '\n');
    lemma_split_single(l2, '\n');
    lemma_split_single(l3, '\n');
    lemma_split_single(l4, '\n');
    lemma_split_single(l5, '\n');
    lemma_split_single(l7, '\n');
    lemma_split_join(l7, e, '\n');
    lemma_split_join(e, s7, '\n');
    lemma_split_join(l5, s6, '\n');
    lemma_split_join(l4, s5, '\n');
    lemma_split_join(l3, s4, '\n');
    lemma_split_join(l2, s3, '\n');
    lemma_split_join(l1, s2, '\n');
    let ls = seq![l1, l2, l3, l4, l5, e, l7];
    assert(split_on(s1, '\n') =~= ls.push(e));
    assert(s1.last() == '\n');
    assert(lines_of(s1) =~= ls) by {
        assert(ls.push(e).drop_last() =~= ls);
        assert forall|i: int| 0 <= i < ls.len() implies strip_cr(#[trigger] ls[i]) == ls[i] by {}
    }
    // the lines in turn
    let m0 = default_manifest();
    let pk = Some("package"@);
    lemma_section_line(m0, None, "package"@);
    assert(manifest_lines(ls.take(1)) == (m0, pk)) by {
        assert(ls.take(1).drop_last() =~= Seq::<Seq<char>>::empty());
        assert(manifest_lines(Seq::<Seq<char>>::empty()) == (m0, None::<Seq<char>>));
        assert(ls.take(1).last() == l1);
    }
    lemma_kv_line(m0, pk, "name"@, v2);
    lemma_unquote(name);
    let m1 = ManifestModel { name, ..m0 };
    assert(manifest_lines(ls.take(2)) == (m1, pk)) by {
        assert(ls.take(2).drop_last() =~= ls.take(1));
        assert(ls.take(2).last() == l2);
    }
    lemma_kv_line(m1, pk, "version"@, v3);
    assert(!"0.1.0"@.contains('"'));
    lemma_unquote("0.1.0"@);
    assert(manifest_lines(ls.take(3)) == (m1, pk)) by {
        assert(ls.take(3).drop_last() =~= ls.take(2));
        assert(ls.take(3).last() == l3);
    }
    lemma_kv_line(m1, pk, "authors"@, v4);
    assert(trim_char(v4, '"') == v4);
    assert(v4.subrange(1, 3) =~= seq!['"', '"']);
    lemma_split_single(seq!['"', '"'], ',');
    let x = seq!['"', '"'];
    lemma_trim_same(x);
    assert(x.drop_first() =~= seq!['"']);
    assert(seq!['"'].drop_first() =~= e);
    assert(trim_char_start(e, '"') == e);
    assert(trim_char_start(seq!['"'], '"') == e);
    assert(trim_char_start(x, '"') == e);
    assert(trim_char_end(e, '"') == e);
    assert(trim_char(trim(x), '"') == e);
    let mv = split_on(x, ',').map_values(|p: Seq<char>| trim_char(trim(p), '"'));
    assert(mv =~= seq![e]);
    assert(author_list(x) == non_empty(mv));
    assert(non_empty(mv) =~= Seq::<Seq<char>>::empty()) by {
        assert(mv.drop_last() =~= Seq::<Seq<char>>::empty());
        assert(mv.last() == e);
        assert(mv.last().len() == 0);
        assert(non_empty(Seq::<Seq<char>>::empty()) =~= Seq::<Seq<char>>::empty());
        assert(non_empty(mv) == non_empty(mv.drop_last()));
    }
    assert(manifest_lines(ls.take(4)) == (m1, pk)) by {
        assert(ls.take(4).drop_last() =~= ls.take(3));
        assert(ls.take(4).last() == l4);
    }
    lemma_kv_line(m1, pk, "description"@, v5);
    assert(!"A NOVA project"@.contains('"'));
    lemma_unquote("A NOVA project"@);
    let m5 = ManifestModel { description: "A NOVA project"@, ..m1 };
    assert(manifest_lines(ls.take(5)) == (m5, pk)) by {
        assert(ls.take(5).drop_last() =~= ls.take(4));
        assert(ls.take(5).last() == l5);
    }
    assert(manifest_lines(ls.take(6)) == (m5, pk)) by {
        assert(ls.take(6).drop_last() =~= ls.take(5));
        assert(ls.take(6).last() == e);
        assert(trim(e) == e);
    }
    lemma_section_line(m5, pk, "dependencies"@);
    assert(manifest_lines(ls) == (m5, Some("dependencies"@))) by {
        assert(ls.drop_last() =~= ls.take(6));
        assert(ls.last() == l7);
    }
    assert(m5 == new_project_manifest_model(name));
}

/// The manifest text of a new project with the given name.
pub fn create_default_manifest(project_name: &str) -> (r: String)
    ensures
        r@ == default_manifest_text(project_name@),
{
    let mut s = String::new();
    push_str(&mut s, "[package]\nname = \"");
    push_str(&mut s, project_name);
    push_str(&mut s, "\"\nversion = \"0.1.0\"\nauthors = [\"\"]\ndescription = \"A NOVA project\"\n\n[dependencies]\n");
    s
}

} // verus!
