use vstd::prelude::*;

verus! {

// ---------------------------------------------------------------------------
// Name resolution
//
// A catalog key is derived from the raw path of a load handle: strip the
// directory (everything up to and including the last '/'), then truncate the
// file name at its first '.'. This derived name is the sole mechanism that
// correlates a model with its preview image.
// ---------------------------------------------------------------------------

/// Index of the last '/' in `p`, or -1 if `p` holds none.
pub open spec fn last_slash(p: Seq<char>) -> int
    decreases p.len(),
{
    if p.len() == 0 {
        -1
    } else if p.last() == '/' {
        p.len() - 1
    } else {
        last_slash(p.drop_last())
    }
}

/// The file-name part of a path: everything after the last '/'.
pub open spec fn file_part(p: Seq<char>) -> Seq<char> {
    p.subrange(last_slash(p) + 1, p.len() as int)
}

/// A path has a file name exactly when something follows its last '/'.
pub open spec fn has_file_name(p: Seq<char>) -> bool {
    file_part(p).len() > 0
}

/// Index of the first '.' in `s`, or `s.len()` if `s` holds none.
pub open spec fn first_dot(s: Seq<char>) -> int
    decreases s.len(),
{
    if s.len() == 0 {
        0
    } else if s[0] == '.' {
        0
    } else {
        1 + first_dot(s.drop_first())
    }
}

/// The part of a file name before its first '.'.
pub open spec fn stem_part(s: Seq<char>) -> Seq<char> {
    s.subrange(0, first_dot(s))
}

/// The catalog key a path resolves to.
pub open spec fn resolved_name(p: Seq<char>) -> Seq<char> {
    stem_part(file_part(p))
}

/// `last_slash` is pinned by a witness: a '/' at `m` with none after it.
pub proof fn lemma_last_slash_at(p: Seq<char>, m: int)
    requires
        -1 <= m < p.len(),
        m >= 0 ==> p[m] == '/',
        forall|j: int| m < j < p.len() ==> p[j] != '/',
    ensures
        last_slash(p) == m,
    decreases p.len(),
{
    if p.len() == 0 {
    } else if p.last() == '/' {
        assert(m == p.len() - 1);
    } else {
        assert(m < p.len() - 1);
        lemma_last_slash_at(p.drop_last(), m);
    }
}

/// `first_dot` is pinned by a witness: no '.' before `m`, and a '.' at `m`
/// unless `m` is the end.
pub proof fn lemma_first_dot_at(s: Seq<char>, m: int)
    requires
        0 <= m <= s.len(),
        forall|k: int| 0 <= k < m ==> s[k] != '.',
        m < s.len() ==> s[m] == '.',
    ensures
        first_dot(s) == m,
    decreases s.len(),
{
    if m == 0 {
    } else {
        assert(s[0] != '.');
        lemma_first_dot_at(s.drop_first(), m - 1);
    }
}

/// Why deriving a catalog key from a path can fail.
#[derive(Debug, Clone, Copy, PartialEq, Eq, Structural)]
pub enum NameError {
    /// The load handle has no path known to the metadata collaborator.
    NoPath,
    /// The path has no file-name segment (it is empty or ends in '/').
    NoFileName,
}

/// Derives the catalog key from the path associated with a load handle, as
/// reported by the path-metadata collaborator (`None` when the handle has no
/// known path).
pub fn get_asset_name(path: &Option<String>) -> (r: Result<String, NameError>)
    ensures
        match r {
            Ok(name) => path matches Some(p) && has_file_name(p@) && name@ == resolved_name(p@),
            Err(e) => match e {
                NameError::NoPath => path is None,
                NameError::NoFileName => path matches Some(p) && !has_file_name(p@),
            },
        },
{
    let s: &str = match path {
        Some(p) => p.as_str(),
        None => {
            return Err(NameError::NoPath);
        },
    };
    let n = s.unicode_len();
    // One past the last '/', i.e. where the file name starts.
    let mut start: usize = n;
    while start > 0 && s.get_char(start - 1) != '/'
        invariant
            0 <= start <= n,
            n == s@.len(),
            forall|j: int| start <= j < n ==> s@[j] != '/',
        decreases start,
    {
        start = start - 1;
    }
    proof {
        if start == 0 {
            lemma_last_slash_at(s@, -1);
        } else {
            lemma_last_slash_at(s@, start - 1);
        }
    }
    if start == n {
        // Nothing follows the last '/': no file-name segment.
        return Err(NameError::NoFileName);
    }
    // First '.' at or after the start of the file name.
    let mut dot: usize = start;
    while dot < n && s.get_char(dot) != '.'
        invariant
            start <= dot <= n,
            n == s@.len(),
            forall|j: int| start <= j < dot ==> s@[j] != '.',
        decreases n - dot,
    {
        dot = dot + 1;
    }
    proof {
        let f = file_part(s@);
        assert(f =~= s@.subrange(start as int, n as int));
        assert(forall|k: int| 0 <= k < dot - start ==> f[k] != '.');
        lemma_first_dot_at(f, dot - start);
        assert(stem_part(f) =~= s@.subrange(start as int, dot as int));
    }
    let name = s.substring_char(start, dot).to_owned();
    Ok(name)
}

/// For every path of the shape `dir/name.ext` — `name` free of '/' and '.',
/// `ext` free of '/' — the resolver yields `name`; and a bare `name` with no
/// '/' and no '.' resolves to itself.
pub proof fn lemma_resolved_name_shape(dir: Seq<char>, name: Seq<char>, ext: Seq<char>)
    requires
        forall|i: int| 0 <= i < name.len() ==> name[i] != '/' && name[i] != '.',
        forall|i: int| 0 <= i < ext.len() ==> ext[i] != '/',
    ensures
        ({
            let p = dir + seq!['/'] + name + seq!['.'] + ext;
            has_file_name(p) && resolved_name(p) == name
        }),
        name.len() > 0 ==> has_file_name(name) && resolved_name(name) == name,
{
    let p = dir + seq!['/'] + name + seq!['.'] + ext;
    lemma_last_slash_at(p, dir.len() as int);
    let f = file_part(p);
    assert(f =~= name + seq!['.'] + ext);
    assert(forall|k: int| 0 <= k < name.len() ==> f[k] != '.');
    assert(f[name.len() as int] == '.');
    lemma_first_dot_at(f, name.len() as int);
    assert(stem_part(f) =~= name);
    if name.len() > 0 {
        lemma_last_slash_at(name, -1);
        assert(file_part(name) =~= name);
        lemma_first_dot_at(name, name.len() as int);
        assert(stem_part(name) =~= name);
    }
}

// ---------------------------------------------------------------------------
// Load records and the catalog
// ---------------------------------------------------------------------------

/// One issued load request: the opaque handle the load collaborator returned
/// for it, and the originating path the metadata collaborator knows for that
/// handle, if any.
#[derive(Debug, Clone)]
pub struct LoadRecord {
    pub handle: u64,
    pub path: Option<String>,
}

/// Whether a record's path resolves to a catalog key at all.
pub open spec fn record_has_name(r: LoadRecord) -> bool {
    match r.path {
        Some(p) => has_file_name(p@),
        None => false,
    }
}

/// The catalog key a record resolves to (meaningful when `record_has_name`).
pub open spec fn record_name(r: LoadRecord) -> Seq<char> {
    match r.path {
        Some(p) => resolved_name(p@),
        None => Seq::empty(),
    }
}

/// One catalog entry: the model's load handle, and the matching preview
/// image's load handle once one resolves to the same name.
#[derive(Debug, Clone, Copy)]
pub struct SceneAsset {
    pub model: u64,
    pub image: Option<u64>,
}

/// The mapping a sequence of named entries denotes: later entries win.
pub open spec fn map_of(es: Seq<(String, SceneAsset)>) -> Map<Seq<char>, SceneAsset>
    decreases es.len(),
{
    if es.len() == 0 {
        Map::empty()
    } else {
        map_of(es.drop_last()).insert(es.last().0@, es.last().1)
    }
}

/// Attaching an image under key `k`: only an entry already keyed by `k` is
/// touched; an image with no matching model changes nothing.
pub open spec fn spec_attach(m: Map<Seq<char>, SceneAsset>, k: Seq<char>, image: u64) -> Map<
    Seq<char>,
    SceneAsset,
> {
    if m.dom().contains(k) {
        m.insert(k, SceneAsset { model: m[k].model, image: Some(image) })
    } else {
        m
    }
}

pub proof fn lemma_map_of_contains(es: Seq<(String, SceneAsset)>, k: Seq<char>)
    ensures
        map_of(es).dom().contains(k) <==> exists|i: int| 0 <= i < es.len() && es[i].0@ == k,
    decreases es.len(),
{
    if es.len() == 0 {
    } else {
        let dl = es.drop_last();
        lemma_map_of_contains(dl, k);
        if es.last().0@ == k {
            assert(es[es.len() - 1].0@ == k);
        } else {
            if map_of(es).dom().contains(k) {
                let i = choose|i: int| 0 <= i < dl.len() && dl[i].0@ == k;
                assert(es[i].0@ == k);
            }
            if exists|i: int| 0 <= i < es.len() && es[i].0@ == k {
                let i = choose|i: int| 0 <= i < es.len() && es[i].0@ == k;
                assert(i < es.len() - 1);
                assert(dl[i].0@ == k);
            }
        }
    }
}

/// An entry with no later entry of the same name gives the map its value.
pub proof fn lemma_map_of_index(es: Seq<(String, SceneAsset)>, i: int)
    requires
        0 <= i < es.len(),
        forall|j: int| i < j < es.len() ==> es[j].0@ != es[i].0@,
    ensures
        map_of(es).dom().contains(es[i].0@),
        map_of(es)[es[i].0@] == es[i].1,
    decreases es.len(),
{
    if i == es.len() - 1 {
    } else {
        let dl = es.drop_last();
        lemma_map_of_index(dl, i);
        assert(es.last().0@ != es[i].0@);
    }
}

/// Replacing the one entry of a name rewrites exactly that key's value.
pub proof fn lemma_map_of_update(es: Seq<(String, SceneAsset)>, i: int, e: (String, SceneAsset))
    requires
        0 <= i < es.len(),
        e.0@ == es[i].0@,
        forall|j: int| 0 <= j < es.len() && j != i ==> es[j].0@ != es[i].0@,
    ensures
        map_of(es.update(i, e)) =~= map_of(es).insert(e.0@, e.1),
    decreases es.len(),
{
    let es2 = es.update(i, e);
    if i == es.len() - 1 {
        assert(es2.drop_last() =~= es.drop_last());
        assert(es2.last() == e);
        assert(map_of(es2) =~= map_of(es).insert(e.0@, e.1));
    } else {
        let dl = es.drop_last();
        assert(es2.drop_last() =~= dl.update(i, e));
        assert(es2.last() == es.last());
        lemma_map_of_update(dl, i, e);
        assert(es.last().0@ != es[i].0@);
        assert(map_of(es2) =~= map_of(es).insert(e.0@, e.1));
    }
}

/// The catalog: resolved names mapped to model/image handle pairs. Keys are
/// unique; storage order is irrelevant to the mapping it denotes.
#[derive(Debug, Clone)]
pub struct Scenes {
    entries: Vec<(String, SceneAsset)>,
}

impl Default for Scenes {
    fn default() -> (r: Self)
        ensures
            r.entry_seq().len() == 0,
            r.wf(),
            r.as_map() =~= Map::<Seq<char>, SceneAsset>::empty(),
    {
        Scenes { entries: Vec::new() }
    }
}

impl Scenes {
    /// The stored entries, in storage order.
    pub closed spec fn entry_seq(self) -> Seq<(String, SceneAsset)> {
        self.entries@
    }

    /// The stored names, in storage order.
    pub open spec fn names(self) -> Seq<Seq<char>> {
        Seq::new(self.entry_seq().len(), |i: int| self.entry_seq()[i].0@)
    }

    /// Every name keys at most one entry.
    pub open spec fn wf(self) -> bool {
        forall|i: int, j: int|
            0 <= i < j < self.entry_seq().len() ==> self.entry_seq()[i].0@ != self.entry_seq()[
                j
            ].0@
    }

    /// The mapping this catalog denotes.
    pub open spec fn as_map(self) -> Map<Seq<char>, SceneAsset> {
        map_of(self.entry_seq())
    }

    pub proof fn lemma_contains(self, k: Seq<char>)
        ensures
            self.as_map().dom().contains(k) <==> exists|i: int|
                0 <= i < self.entry_seq().len() && self.entry_seq()[i].0@ == k,
    {
        lemma_map_of_contains(self.entry_seq(), k);
    }

    pub proof fn lemma_entry(self, i: int)
        requires
            self.wf(),
            0 <= i < self.entry_seq().len(),
        ensures
            self.as_map().dom().contains(self.entry_seq()[i].0@),
            self.as_map()[self.entry_seq()[i].0@] == self.entry_seq()[i].1,
    {
        lemma_map_of_index(self.entry_seq(), i);
    }

    pub fn len(&self) -> (n: usize)
        ensures
            n == self.entry_seq().len(),
    {
        self.entries.len()
    }

    /// The stored entries, for presentation; order is storage order.
    pub fn entries(&self) -> (r: &Vec<(String, SceneAsset)>)
        ensures
            r@ == self.entry_seq(),
    {
        &self.entries
    }

    fn find(&self, name: &String) -> (r: Option<usize>)
        ensures
            match r {
                Some(i) => i < self.entry_seq().len() && self.entry_seq()[i as int].0@ == name@,
                None => forall|j: int|
                    0 <= j < self.entry_seq().len() ==> self.entry_seq()[j].0@ != name@,
            },
    {
        let mut j: usize = 0;
        while j < self.entries.len()
            invariant
                j <= self.entries@.len(),
                forall|k: int| 0 <= k < j ==> self.entries@[k].0@ != name@,
            decreases self.entries@.len() - j,
        {
            if self.entries[j].0 == *name {
                return Some(j);
            }
            j = j + 1;
        }
        None
    }

    /// Inserts a model entry keyed by `name`, with no image attached yet.
    /// A name collision overwrites the earlier entry (last-resolved wins).
    pub fn insert_model(&mut self, name: String, model: u64)
        requires
            old(self).wf(),
        ensures
            final(self).wf(),
            final(self).as_map() =~= old(self).as_map().insert(
                name@,
                (SceneAsset { model, image: None }),
            ),
    {
        let a = SceneAsset { model, image: None };
        match self.find(&name) {
            Some(i) => {
                self.entries[i] = (name, a);
                proof {
                    lemma_map_of_update(
                        old(self).entry_seq(),
                        i as int,
                        self.entry_seq()[i as int],
                    );
                    assert(forall|k: int|
                        0 <= k < self.entry_seq().len() ==> self.entry_seq()[k].0@ == old(
                            self,
                        ).entry_seq()[k].0@);
                }
            },
            None => {
                self.entries.push((name, a));
                proof {
                    assert(self.entry_seq().drop_last() =~= old(self).entry_seq());
                    assert(map_of(self.entry_seq()) =~= old(self).as_map().insert(name@, a));
                }
            },
        }
    }

    /// Attaches an image handle to the entry keyed by `name`, if there is
    /// one; an image whose name matches no model is dropped.
    pub fn attach_image(&mut self, name: &String, image: u64)
        requires
            old(self).wf(),
        ensures
            final(self).wf(),
            final(self).as_map() =~= spec_attach(old(self).as_map(), name@, image),
    {
        proof {
            old(self).lemma_contains(name@);
        }
        match self.find(name) {
            Some(i) => {
                proof {
                    old(self).lemma_entry(i as int);
                }
                let m = self.entries[i].1.model;
                self.entries[i].1 = SceneAsset { model: m, image: Some(image) };
                proof {
                    lemma_map_of_update(
                        old(self).entry_seq(),
                        i as int,
                        self.entry_seq()[i as int],
                    );
                    assert(forall|k: int|
                        0 <= k < self.entry_seq().len() ==> self.entry_seq()[k].0@ == old(
                            self,
                        ).entry_seq()[k].0@);
                }
            },
            None => {},
        }
    }

    /// Looks a name up in the catalog.
    pub fn get(&self, name: &String) -> (r: Option<&SceneAsset>)
        requires
            self.wf(),
        ensures
            match r {
                Some(a) => self.as_map().dom().contains(name@) && *a == self.as_map()[name@],
                None => !self.as_map().dom().contains(name@),
            },
    {
        proof {
            self.lemma_contains(name@);
        }
        match self.find(name) {
            Some(i) => {
                proof {
                    self.lemma_entry(i as int);
                }
                Some(&self.entries[i].1)
            },
            None => None,
        }
    }
}

// ---------------------------------------------------------------------------
// Load status and readiness
// ---------------------------------------------------------------------------

/// What the load collaborator reports for one handle. "Not yet started" and
/// "in progress" are not distinguished, and a failed load counts the same as
/// one still outstanding: only `Loaded` satisfies the tracker.
#[derive(Debug, Clone, Copy, PartialEq, Eq, Structural)]
pub enum LoadState {
    NotLoaded,
    Loaded,
    Failed,
}

/// A snapshot of per-handle statuses polled from the load collaborator.
#[derive(Debug, Clone)]
pub struct StatusReport(pub Vec<(u64, LoadState)>);

/// The status a report gives a handle: its first listed status, or
/// `NotLoaded` when the report does not mention the handle.
pub open spec fn status_of(rep: Seq<(u64, LoadState)>, h: u64) -> LoadState
    decreases rep.len(),
{
    if rep.len() == 0 {
        LoadState::NotLoaded
    } else if rep[0].0 == h {
        rep[0].1
    } else {
        status_of(rep.drop_first(), h)
    }
}

impl StatusReport {
    /// The status this report gives `h`.
    pub fn status(&self, h: u64) -> (s: LoadState)
        ensures
            s == status_of(self.0@, h),
    {
        let rep = &self.0;
        proof {
            assert(rep@.skip(0) =~= rep@);
        }
        let mut i: usize = 0;
        while i < rep.len()
            invariant
                i <= rep@.len(),
                rep@ == self.0@,
                status_of(rep@, h) == status_of(rep@.skip(i as int), h),
            decreases rep@.len() - i,
        {
            if rep[i].0 == h {
                proof {
                    assert(rep@.skip(i as int).len() > 0);
                    assert(rep@.skip(i as int)[0] == rep@[i as int]);
                    assert(status_of(rep@.skip(i as int), h) == rep@[i as int].1);
                }
                return rep[i].1;
            }
            i = i + 1;
            proof {
                assert(rep@.skip(i - 1)[0] == rep@[i - 1]);
                assert(rep@.skip(i - 1).drop_first() =~= rep@.skip(i as int));
            }
        }
        LoadState::NotLoaded
    }
}

/// Every model handle in the catalog reports `Loaded`.
pub open spec fn all_models_loaded(s: Scenes, rep: Seq<(u64, LoadState)>) -> bool {
    forall|i: int|
        0 <= i < s.entry_seq().len() ==> status_of(rep, s.entry_seq()[i].1.model) is Loaded
}

/// Every attached image handle in the catalog reports `Loaded`; with no
/// images attached this holds vacuously.
pub open spec fn all_images_loaded(s: Scenes, rep: Seq<(u64, LoadState)>) -> bool {
    forall|i: int|
        0 <= i < s.entry_seq().len() ==> ((#[trigger] s.entry_seq()[i]).1.image matches Some(h)
            ==> status_of(rep, h) is Loaded)
}

impl Scenes {
    /// Aggregate readiness: `true` exactly when every model load and every
    /// attached image load reports `Loaded`. An empty catalog is vacuously
    /// ready.
    pub fn is_loaded(&self, report: &StatusReport) -> (b: bool)
        ensures
            b == (all_models_loaded(*self, report.0@) && all_images_loaded(*self, report.0@)),
    {
        let mut i: usize = 0;
        while i < self.entries.len()
            invariant
                i <= self.entries@.len(),
                forall|k: int|
                    0 <= k < i ==> status_of(report.0@, self.entries@[k].1.model) is Loaded,
                forall|k: int|
                    0 <= k < i ==> ((#[trigger] self.entries@[k]).1.image matches Some(h)
                        ==> status_of(report.0@, h) is Loaded),
            decreases self.entries@.len() - i,
        {
            let a = self.entries[i].1;
            match report.status(a.model) {
                LoadState::Loaded => {},
                _ => {
                    return false;
                },
            }
            if let Some(h) = a.image {
                match report.status(h) {
                    LoadState::Loaded => {},
                    _ => {
                        return false;
                    },
                }
            }
            i = i + 1;
        }
        true
    }
}

/// The two readiness states: the catalog may be presented only once this
/// reads `Loaded`. Within one load cycle the transition is
/// one-directional; it fires again only when the whole cycle is restarted.
#[derive(Debug, Clone, Copy, PartialEq, Eq, Hash, Structural)]
pub enum LoadingState {
    Loading,
    Loaded,
}

impl Default for LoadingState {
    fn default() -> (r: Self)
        ensures
            r is Loading,
    {
        LoadingState::Loading
    }
}

/// One readiness poll: moves the state to `Loaded` exactly when the whole
/// catalog reports loaded, and leaves it untouched otherwise.
pub fn check_if_loaded(scenes: &Scenes, report: &StatusReport, loading_state: &mut LoadingState)
    ensures
        *final(loading_state) == if all_models_loaded(*scenes, report.0@) && all_images_loaded(
            *scenes,
            report.0@,
        ) {
            LoadingState::Loaded
        } else {
            *old(loading_state)
        },
{
    if scenes.is_loaded(report) {
        *loading_state = LoadingState::Loaded;
    }
}

// ---------------------------------------------------------------------------
// Source resolution and the catalog builder
// ---------------------------------------------------------------------------

/// Resolves an explicit file list: one load request per listed path, in list
/// order. `handles` are the opaque tokens the load collaborator returned,
/// one per path, in the same order. The result keeps the input's length and
/// order. (A folder source needs no such pairing: the collaborator hands
/// back ready records, in an order it alone controls.)
pub fn resolve_files(files: &Vec<String>, handles: &Vec<u64>) -> (r: Vec<LoadRecord>)
    requires
        handles@.len() == files@.len(),
    ensures
        r@.len() == files@.len(),
        forall|i: int|
            0 <= i < r@.len() ==> r@[i].handle == handles@[i] && (r@[i].path matches Some(p)
                && p@ == files@[i]@),
{
    let mut r: Vec<LoadRecord> = Vec::new();
    let mut i: usize = 0;
    while i < files.len()
        invariant
            i <= files@.len(),
            handles@.len() == files@.len(),
            r@.len() == i,
            forall|k: int|
                0 <= k < i ==> r@[k].handle == handles@[k] && (r@[k].path matches Some(p)
                    && p@ == files@[k]@),
        decreases files@.len() - i,
    {
        let p = files[i].clone();
        proof {
            assert(p@ == files@[i as int]@);
        }
        r.push(LoadRecord { handle: handles[i], path: Some(p) });
        i = i + 1;
        proof {
            assert(r@[i - 1].handle == handles@[i - 1]);
            assert(r@[i - 1].path matches Some(q) && q@ == files@[i - 1]@);
        }
    }
    r
}

/// The catalog a sequence of model records denotes: one entry per record
/// with a resolvable name, later records of the same name overwriting
/// earlier ones, records without a name silently skipped.
pub open spec fn model_catalog(ms: Seq<LoadRecord>) -> Map<Seq<char>, SceneAsset>
    decreases ms.len(),
{
    if ms.len() == 0 {
        Map::empty()
    } else {
        let m = model_catalog(ms.drop_last());
        let r = ms.last();
        if record_has_name(r) {
            m.insert(record_name(r), SceneAsset { model: r.handle, image: None })
        } else {
            m
        }
    }
}

/// The image records folded onto a catalog, in order: each attaches to the
/// entry of its name, if there is one.
pub open spec fn attach_all(m: Map<Seq<char>, SceneAsset>, is: Seq<LoadRecord>) -> Map<
    Seq<char>,
    SceneAsset,
>
    decreases is.len(),
{
    if is.len() == 0 {
        m
    } else {
        let m2 = attach_all(m, is.drop_last());
        let r = is.last();
        if record_has_name(r) {
            spec_attach(m2, record_name(r), r.handle)
        } else {
            m2
        }
    }
}

/// The catalog one load cycle builds from its resolved model records and,
/// when an image source is configured, its resolved image records.
pub open spec fn catalog_spec(ms: Seq<LoadRecord>, is: Option<Vec<LoadRecord>>) -> Map<
    Seq<char>,
    SceneAsset,
> {
    match is {
        None => model_catalog(ms),
        Some(v) => attach_all(model_catalog(ms), v@),
    }
}

/// A catalog holds an entry exactly for each name some model record
/// resolves to: every model with a resolvable name is catalogued, and
/// nothing else is.
pub proof fn lemma_model_catalog_dom(ms: Seq<LoadRecord>, k: Seq<char>)
    ensures
        model_catalog(ms).dom().contains(k) <==> exists|i: int|
            0 <= i < ms.len() && record_has_name(#[trigger] ms[i]) && record_name(ms[i]) == k,
    decreases ms.len(),
{
    if ms.len() > 0 {
        let dl = ms.drop_last();
        lemma_model_catalog_dom(dl, k);
        if record_has_name(ms.last()) && record_name(ms.last()) == k {
            assert(record_has_name(ms[ms.len() - 1]) && record_name(ms[ms.len() - 1]) == k);
        } else {
            if model_catalog(ms).dom().contains(k) {
                let i = choose|i: int|
                    0 <= i < dl.len() && record_has_name(#[trigger] dl[i]) && record_name(dl[i])
                        == k;
                assert(record_has_name(ms[i]) && record_name(ms[i]) == k);
            }
            if exists|i: int|
                0 <= i < ms.len() && record_has_name(#[trigger] ms[i]) && record_name(ms[i])
                    == k {
                let i = choose|i: int|
                    0 <= i < ms.len() && record_has_name(#[trigger] ms[i]) && record_name(ms[i])
                        == k;
                assert(i < ms.len() - 1);
                assert(record_has_name(dl[i]) && record_name(dl[i]) == k);
            }
        }
    }
}

/// Attaching images never creates nor removes an entry: an image whose name
/// matches no model is dropped, so the catalog's key set is fixed by the
/// model records alone.
pub proof fn lemma_attach_all_dom(m: Map<Seq<char>, SceneAsset>, is: Seq<LoadRecord>)
    ensures
        attach_all(m, is).dom() =~= m.dom(),
    decreases is.len(),
{
    if is.len() > 0 {
        lemma_attach_all_dom(m, is.drop_last());
    }
}

/// The image handle the records attach under name `k`: the last record that
/// resolves to `k`, if any.
pub open spec fn last_image_for(is: Seq<LoadRecord>, k: Seq<char>) -> Option<u64>
    decreases is.len(),
{
    if is.len() == 0 {
        None
    } else if record_has_name(is.last()) && record_name(is.last()) == k {
        Some(is.last().handle)
    } else {
        last_image_for(is.drop_last(), k)
    }
}

/// What image attachment does to one entry: its model handle is untouched,
/// and it carries an image exactly when an image record resolves to its name
/// (the last such record wins) — or when it already carried one.
pub proof fn lemma_attach_all_value(
    m: Map<Seq<char>, SceneAsset>,
    is: Seq<LoadRecord>,
    k: Seq<char>,
)
    requires
        m.dom().contains(k),
    ensures
        attach_all(m, is).dom().contains(k),
        attach_all(m, is)[k].model == m[k].model,
        attach_all(m, is)[k].image == (match last_image_for(is, k) {
            Some(h) => Some(h),
            None => m[k].image,
        }),
    decreases is.len(),
{
    lemma_attach_all_dom(m, is);
    if is.len() > 0 {
        lemma_attach_all_value(m, is.drop_last(), k);
        lemma_attach_all_dom(m, is.drop_last());
    }
}

/// Builds a fresh catalog from the resolved model records and, when an image
/// source is configured, the resolved image records, and publishes it in
/// place of whatever catalog was current. The result is a function of the
/// inputs alone: no entry of the replaced catalog survives into the new one.
pub fn load_scene_assets(
    scenes: &mut Scenes,
    models: &Vec<LoadRecord>,
    images: &Option<Vec<LoadRecord>>,
)
    ensures
        final(scenes).wf(),
        final(scenes).as_map() =~= catalog_spec(models@, *images),
{
    let mut fresh = Scenes::default();
    let mut i: usize = 0;
    while i < models.len()
        invariant
            i <= models@.len(),
            fresh.wf(),
            fresh.as_map() =~= model_catalog(models@.take(i as int)),
        decreases models@.len() - i,
    {
        match get_asset_name(&models[i].path) {
            Ok(name) => {
                fresh.insert_model(name, models[i].handle);
            },
            Err(_) => {},
        }
        i = i + 1;
        proof {
            assert(models@.take(i as int).drop_last() =~= models@.take(i - 1));
            assert(models@.take(i as int).last() == models@[i - 1]);
        }
    }
    proof {
        assert(models@.take(models@.len() as int) =~= models@);
    }
    if let Some(imgs) = images {
        let mut j: usize = 0;
        while j < imgs.len()
            invariant
                j <= imgs@.len(),
                fresh.wf(),
                fresh.as_map() =~= attach_all(model_catalog(models@), imgs@.take(j as int)),
            decreases imgs@.len() - j,
        {
            match get_asset_name(&imgs[j].path) {
                Ok(name) => {
                    fresh.attach_image(&name, imgs[j].handle);
                },
                Err(_) => {},
            }
            j = j + 1;
            proof {
                assert(imgs@.take(j as int).drop_last() =~= imgs@.take(j - 1));
                assert(imgs@.take(j as int).last() == imgs@[j - 1]);
            }
        }
        proof {
            assert(imgs@.take(imgs@.len() as int) =~= imgs@);
        }
    }
    *scenes = fresh;
}

/// An empty model source yields an empty catalog, and an empty catalog is
/// ready whatever the status report says: the very next poll through
/// `check_if_loaded` moves the state to `Loaded`.
pub proof fn lemma_empty_source_ready(s: Scenes, rep: Seq<(u64, LoadState)>)
    requires
        s.as_map() =~= catalog_spec(Seq::<LoadRecord>::empty(), None::<Vec<LoadRecord>>),
    ensures
        all_models_loaded(s, rep),
        all_images_loaded(s, rep),
{
    assert(s.as_map().dom() =~= Set::<Seq<char>>::empty());
    if s.entry_seq().len() > 0 {
        lemma_map_of_contains(s.entry_seq(), s.entry_seq()[0].0@);
        assert(0 <= 0 < s.entry_seq().len() && s.entry_seq()[0].0@ == s.entry_seq()[0].0@);
        assert(false);
    }
}

} // verus!
