//! Which project markers (`Cargo.toml`, `.git`, ...) were found, and where,
//! and the search that walks up from the working directory to find them.
use vstd::prelude::*;
use crate::text::str_eq;

verus! {

/// How many parent directories the search climbs at most.
pub const MAX_TRAVERSAL_DEPTH: usize = 64;

/// No name occurs twice among the first components of `entries`.
pub open spec fn distinct_names(entries: Seq<(String, String)>) -> bool {
    forall|i: int, j: int|
        0 <= i < j < entries.len() ==> #[trigger] entries[i].0@ != #[trigger] entries[j].0@
}

/// The map from first components to second components of `entries`.
pub open spec fn entries_map(entries: Seq<(String, String)>) -> Map<Seq<char>, Seq<char>> {
    Map::new(
        |k: Seq<char>| exists|i: int| 0 <= i < entries.len() && #[trigger] entries[i].0@ == k,
        |k: Seq<char>|
            entries[choose|i: int| 0 <= i < entries.len() && #[trigger] entries[i].0@ == k].1@,
    )
}

/// `suffix` is how `s` ends.
pub open spec fn ends_with(s: Seq<char>, suffix: Seq<char>) -> bool {
    suffix.len() <= s.len() && s.subrange(s.len() - suffix.len(), s.len() as int) == suffix
}

/// Every path of `entries` ends with the name it is recorded for.
pub open spec fn paths_end_with_names(entries: Seq<(String, String)>) -> bool {
    forall|i: int| 0 <= i < entries.len() ==> ends_with(#[trigger] entries[i].1@, entries[i].0@)
}

/// The path of the entry `name` in the directory `dir`, as `Path::join`
/// makes it of a plain name: a `/` between them unless `dir` is empty or
/// already ends with one.
pub open spec fn join_path(dir: Seq<char>, name: Seq<char>) -> Seq<char> {
    if dir.len() == 0 || dir.last() == '/' {
        dir + name
    } else {
        dir + "/"@ + name
    }
}

/// A path joined from a directory and a name ends with that name.
pub proof fn law_joined_path_ends_with_name(dir: Seq<char>, name: Seq<char>)
    ensures
        ends_with(join_path(dir, name), name),
{
    let p = join_path(dir, name);
    if dir.len() == 0 || dir.last() == '/' {
        assert(p.subrange(p.len() - name.len(), p.len() as int) =~= name);
    } else {
        let d = dir + "/"@;
        assert(p == d + name);
        assert(p.subrange(p.len() - name.len(), p.len() as int) =~= name);
    }
}

/// The path of the entry `name` in the directory `dir`.
pub fn join_path_of(dir: &str, name: &str) -> (p: String)
    ensures
        p@ == join_path(dir@, name@),
{
    proof {
        reveal_strlit("/");
    }
    let mut p = String::from_str(dir);
    let n = dir.unicode_len();
    if n > 0 && dir.get_char(n - 1) != '/' {
        p.append("/");
    }
    p.append(name);
    p
}

/// The markers that were found, each with the path where it was found.
#[derive(Debug)]
pub struct DetectionContext {
    markers: Vec<(String, String)>,
}

impl View for DetectionContext {
    type V = Map<Seq<char>, Seq<char>>;

    closed spec fn view(&self) -> Map<Seq<char>, Seq<char>> {
        entries_map(self.markers@)
    }
}

impl DetectionContext {
    #[verifier::type_invariant]
    spec fn markers_distinct(&self) -> bool {
        distinct_names(self.markers@) && paths_end_with_names(self.markers@)
    }

    /// A context in which no marker was found.
    pub fn empty() -> (c: Self)
        ensures
            c@ == Map::<Seq<char>, Seq<char>>::empty(),
    {
        let c = DetectionContext { markers: Vec::new() };
        assert(c@ =~= Map::<Seq<char>, Seq<char>>::empty());
        c
    }

    /// The path where the marker `name` was found.
    pub fn get(&self, name: &str) -> (r: Option<&str>)
        ensures
            match r {
                Some(p) => self@.contains_key(name@) && self@[name@] == p@ && ends_with(p@, name@),
                None => !self@.contains_key(name@),
            },
    {
        proof {
            use_type_invariant(self);
        }
        let mut i: usize = 0;
        while i < self.markers.len()
            invariant
                i <= self.markers@.len(),
                distinct_names(self.markers@),
                paths_end_with_names(self.markers@),
                forall|j: int| 0 <= j < i ==> self.markers@[j].0@ != name@,
            decreases self.markers.len() - i,
        {
            if str_eq(self.markers[i].0.as_str(), name) {
                let ghost k = choose|j: int|
                    0 <= j < self.markers@.len() && #[trigger] self.markers@[j].0@ == name@;
                assert(self.markers@[i as int].0@ == name@);
                assert(0 <= k < self.markers@.len() && self.markers@[k].0@ == name@);
                proof {
                    if k < i {
                        assert(self.markers@[k].0@ != self.markers@[i as int].0@);
                    } else if k > i {
                        assert(self.markers@[i as int].0@ != self.markers@[k].0@);
                    }
                }
                assert(k == i);
                return Some(self.markers[i].1.as_str());
            }
            i += 1;
        }
        None
    }
}

impl Clone for DetectionContext {
    /// A copy of the markers found, with their paths.
    fn clone(&self) -> (c: Self)
        ensures
            c@ == self@,
    {
        proof {
            use_type_invariant(self);
        }
        let mut markers: Vec<(String, String)> = Vec::new();
        let mut i: usize = 0;
        while i < self.markers.len()
            invariant
                i <= self.markers@.len(),
                markers@ == self.markers@.take(i as int),
            decreases self.markers.len() - i,
        {
            let name = self.markers[i].0.clone();
            let path = self.markers[i].1.clone();
            markers.push((name, path));
            assert(self.markers@.take(i + 1) =~= self.markers@.take(i as int).push(self.markers@[i as int]));
            i += 1;
        }
        assert(self.markers@.take(self.markers@.len() as int) =~= self.markers@);
        DetectionContext { markers }
    }
}

impl Default for DetectionContext {
    fn default() -> (c: Self)
        ensures
            c@ == Map::<Seq<char>, Seq<char>>::empty(),
    {
        DetectionContext::empty()
    }
}

/// Some string of `s` is `n`.
pub open spec fn contains_name(s: Seq<String>, n: Seq<char>) -> bool {
    exists|j: int| 0 <= j < s.len() && #[trigger] s[j]@ == n
}

/// No string occurs twice in `s`.
pub open spec fn distinct_strings(s: Seq<String>) -> bool {
    forall|i: int, j: int| 0 <= i < j < s.len() ==> #[trigger] s[i]@ != #[trigger] s[j]@
}

/// The texts of `s`.
pub open spec fn names_of(s: Seq<String>) -> Seq<Seq<char>> {
    s.map_values(|x: String| x@)
}

/// What a walk finds over the directories `dirs` (the starting directory
/// first, then each parent), where `present(k, n)` tells that the marker
/// `n` was found in `dirs[k]`: in each directory, each marker of `required`
/// not found yet is taken there if present, at its path in that directory.
pub open spec fn walk_found(
    required: Seq<Seq<char>>,
    dirs: Seq<Seq<char>>,
    present: spec_fn(int, Seq<char>) -> bool,
) -> Map<Seq<char>, Seq<char>>
    decreases dirs.len(),
{
    if dirs.len() == 0 {
        Map::empty()
    } else {
        let k = dirs.len() - 1;
        let m = walk_found(required, dirs.drop_last(), present);
        Map::new(
            |n: Seq<char>| m.contains_key(n) || (required.contains(n) && present(k, n)),
            |n: Seq<char>|
                if m.contains_key(n) {
                    m[n]
                } else {
                    join_path(dirs[k], n)
                },
        )
    }
}

/// A walk finds a marker exactly when it is required and present in one of
/// the directories walked, and then at its path in the nearest such
/// directory: the first one, from the starting directory up, in which it is
/// present.
pub proof fn law_walk_finds_nearest(
    required: Seq<Seq<char>>,
    dirs: Seq<Seq<char>>,
    present: spec_fn(int, Seq<char>) -> bool,
    n: Seq<char>,
)
    ensures
        walk_found(required, dirs, present).contains_key(n) <==> (required.contains(n) && exists|k: int|
            0 <= k < dirs.len() && #[trigger] present(k, n)),
        walk_found(required, dirs, present).contains_key(n) ==> exists|k: int|
            0 <= k < dirs.len() && #[trigger] present(k, n) && walk_found(required, dirs, present)[n]
                == join_path(dirs[k], n) && forall|j: int| 0 <= j < k ==> !#[trigger] present(j, n),
    decreases dirs.len(),
{
    if dirs.len() > 0 {
        let p = dirs.drop_last();
        let last = dirs.len() - 1;
        law_walk_finds_nearest(required, p, present, n);
        let m = walk_found(required, p, present);
        if m.contains_key(n) {
            let k = choose|k: int|
                0 <= k < p.len() && #[trigger] present(k, n) && m[n] == join_path(p[k], n) && forall|
                    j: int,
                | 0 <= j < k ==> !#[trigger] present(j, n);
            assert(p[k] == dirs[k]);
            assert(0 <= k < dirs.len() && present(k, n));
        } else {
            if required.contains(n) && present(last, n) {
                assert forall|j: int| 0 <= j < last implies !#[trigger] present(j, n) by {
                    if present(j, n) {
                        assert(0 <= j < p.len() && present(j, n));
                    }
                }
                assert(walk_found(required, dirs, present)[n] == join_path(dirs[last], n));
            }
            if exists|k: int| 0 <= k < dirs.len() && #[trigger] present(k, n) {
                let k = choose|k: int| 0 <= k < dirs.len() && #[trigger] present(k, n);
                if k < last {
                    assert(0 <= k < p.len() && present(k, n));
                }
            }
        }
    }
}

/// A walk asks `present` only about the required markers not found yet in
/// the directories before: two answers that agree there give the same
/// walk. So a driver that reports, in each directory, exactly the pending
/// markers that exist there finds what a walk over the file system finds:
/// each marker at its nearest directory (`law_walk_finds_nearest`).
pub proof fn law_walk_needs_only_pending(
    required: Seq<Seq<char>>,
    dirs: Seq<Seq<char>>,
    p1: spec_fn(int, Seq<char>) -> bool,
    p2: spec_fn(int, Seq<char>) -> bool,
)
    requires
        forall|k: int, n: Seq<char>|
            0 <= k < dirs.len() && required.contains(n) && !walk_found(required, dirs.take(k), p1).contains_key(n)
                ==> #[trigger] p1(k, n) == p2(k, n),
    ensures
        walk_found(required, dirs, p1) == walk_found(required, dirs, p2),
    decreases dirs.len(),
{
    if dirs.len() > 0 {
        let pre = dirs.drop_last();
        assert forall|k: int, n: Seq<char>|
            0 <= k < pre.len() && required.contains(n) && !walk_found(required, pre.take(k), p1).contains_key(n)
                implies #[trigger] p1(k, n) == p2(k, n) by {
            assert(pre.take(k) =~= dirs.take(k));
        }
        law_walk_needs_only_pending(required, pre, p1, p2);
        let last = dirs.len() - 1;
        assert(dirs.take(last) =~= pre);
        assert(walk_found(required, dirs, p1) =~= walk_found(required, dirs, p2));
    }
}

/// The walk over `dirs` depends on `present` only in those directories.
proof fn lemma_walk_agrees(
    required: Seq<Seq<char>>,
    dirs: Seq<Seq<char>>,
    p1: spec_fn(int, Seq<char>) -> bool,
    p2: spec_fn(int, Seq<char>) -> bool,
)
    requires
        forall|k: int, n: Seq<char>| 0 <= k < dirs.len() ==> #[trigger] p1(k, n) == p2(k, n),
    ensures
        walk_found(required, dirs, p1) == walk_found(required, dirs, p2),
    decreases dirs.len(),
{
    if dirs.len() > 0 {
        lemma_walk_agrees(required, dirs.drop_last(), p1, p2);
        assert(walk_found(required, dirs, p1) =~= walk_found(required, dirs, p2));
    }
}

/// The search for markers from the working directory up through its parents.
///
/// The caller looks in one directory at a time: it asks `pending` which markers
/// are still missing and `candidate` where each would be, reports with
/// `found_at` each one that exists there, and moves to the parent while
/// `keep_climbing` says so (telling `climbed` which directory that is), then
/// collects the result with `into_context`.
pub struct MarkerSearch {
    required: Vec<String>,
    found: Vec<(String, String)>,
    depth: usize,
    dir: String,
    dirs: Ghost<Seq<Seq<char>>>,
    reported: Ghost<Set<(int, Seq<char>)>>,
}

/// `present` for a walk in which the markers were reported found as the
/// pairs of `reported` (a directory's index, a marker) say.
pub open spec fn reported_fn(reported: Set<(int, Seq<char>)>) -> spec_fn(int, Seq<char>) -> bool {
    |k: int, n: Seq<char>| reported.contains((k, n))
}

impl MarkerSearch {
    /// Every marker found is a required one, none is found twice, each path
    /// ends with its marker, and the search never climbs more than
    /// `MAX_TRAVERSAL_DEPTH` levels.
    pub closed spec fn wf(&self) -> bool {
        &&& distinct_strings(self.required@)
        &&& distinct_names(self.found@)
        &&& paths_end_with_names(self.found@)
        &&& forall|i: int|
            0 <= i < self.found@.len() ==> contains_name(self.required@, #[trigger] self.found@[i].0@)
        &&& self.depth <= MAX_TRAVERSAL_DEPTH
        &&& self.dirs@.len() == self.depth + 1
        &&& self.dirs@.last() == self.dir@
        &&& forall|p: (int, Seq<char>)| #[trigger] self.reported@.contains(p) ==> 0 <= p.0 < self.dirs@.len()
        &&& entries_map(self.found@) == walk_found(
            names_of(self.required@),
            self.dirs@,
            reported_fn(self.reported@),
        )
    }

    /// The directories searched so far, the starting one first.
    pub closed spec fn searched(&self) -> Seq<Seq<char>> {
        self.dirs@
    }

    /// Where markers were reported found: (a directory's index in
    /// `searched`, a marker).
    pub closed spec fn reported_pairs(&self) -> Set<(int, Seq<char>)> {
        self.reported@
    }

    /// The required markers.
    pub closed spec fn required_list(&self) -> Seq<String> {
        self.required@
    }

    /// The markers found so far, with their paths.
    pub closed spec fn found_map(&self) -> Map<Seq<char>, Seq<char>> {
        entries_map(self.found@)
    }

    /// How many directories above the starting one the search has reached.
    pub closed spec fn level(&self) -> nat {
        self.depth as nat
    }

    /// The directory being searched.
    pub closed spec fn directory(&self) -> Seq<char> {
        self.dir@
    }

    /// A search for the markers in `required`, starting in the directory `start`.
    pub fn new(required: Vec<String>, start: String) -> (s: Self)
        requires
            distinct_strings(required@),
        ensures
            s.wf(),
            s.required_list() == required@,
            s.found_map() == Map::<Seq<char>, Seq<char>>::empty(),
            s.level() == 0,
            s.directory() == start@,
            s.searched() == seq![start@],
            s.reported_pairs() == Set::<(int, Seq<char>)>::empty(),
    {
        let ghost d = seq![start@];
        let s = MarkerSearch {
            required,
            found: Vec::new(),
            depth: 0,
            dir: start,
            dirs: Ghost(d),
            reported: Ghost(Set::empty()),
        };
        assert(s.found_map() =~= Map::<Seq<char>, Seq<char>>::empty());
        assert(d.drop_last() =~= Seq::<Seq<char>>::empty());
        let ghost f = reported_fn(Set::<(int, Seq<char>)>::empty());
        assert(walk_found(names_of(s.required@), d.drop_last(), f) == Map::<Seq<char>, Seq<char>>::empty());
        assert(forall|n: Seq<char>| !#[trigger] f(0, n));
        assert(walk_found(names_of(s.required@), d, reported_fn(Set::empty())) =~= Map::<
            Seq<char>,
            Seq<char>,
        >::empty());
        s
    }

    fn is_found(&self, name: &str) -> (r: bool)
        ensures
            r == self.found_map().contains_key(name@),
    {
        let mut i: usize = 0;
        while i < self.found.len()
            invariant
                i <= self.found@.len(),
                forall|j: int| 0 <= j < i ==> self.found@[j].0@ != name@,
            decreases self.found.len() - i,
        {
            if str_eq(self.found[i].0.as_str(), name) {
                assert(self.found@[i as int].0@ == name@);
                return true;
            }
            i += 1;
        }
        false
    }

    /// The required markers not found yet, each once.
    pub fn pending(&self) -> (p: Vec<String>)
        requires
            self.wf(),
        ensures
            distinct_strings(p@),
            forall|i: int| 0 <= i < p@.len() ==> contains_name(self.required_list(), #[trigger] p@[i]@),
            forall|i: int|
                0 <= i < p@.len() ==> !self.found_map().contains_key(#[trigger] p@[i]@),
            forall|j: int|
                0 <= j < self.required_list().len() && !self.found_map().contains_key(
                    #[trigger] self.required_list()[j]@,
                ) ==> exists|i: int| 0 <= i < p@.len() && p@[i]@ == self.required_list()[j]@,
    {
        let mut p: Vec<String> = Vec::new();
        let mut k: usize = 0;
        let ghost mut idx: Seq<int> = Seq::empty();
        while k < self.required.len()
            invariant
                self.wf(),
                k <= self.required@.len(),
                idx.len() == p@.len(),
                forall|i: int| 0 <= i < idx.len() ==> 0 <= #[trigger] idx[i] < k,
                forall|i: int|
                    0 <= i < idx.len() ==> #[trigger] p@[i]@ == self.required@[idx[i]]@,
                forall|i: int, i2: int| 0 <= i < i2 < idx.len() ==> idx[i] < idx[i2],
                forall|i: int|
                    0 <= i < p@.len() ==> !self.found_map().contains_key(#[trigger] p@[i]@),
                forall|j: int|
                    0 <= j < k && !self.found_map().contains_key(#[trigger] self.required@[j]@)
                        ==> exists|i: int| 0 <= i < p@.len() && p@[i]@ == self.required@[j]@,
            decreases self.required.len() - k,
        {
            let name = &self.required[k];
            let ghost p0 = p@;
            if !self.is_found(name.as_str()) {
                let c = name.clone();
                p.push(c);
                proof {
                    idx = idx.push(k as int);
                }
                assert(p@[p@.len() - 1]@ == self.required@[k as int]@);
            }
            assert forall|j: int|
                0 <= j < k + 1 && !self.found_map().contains_key(#[trigger] self.required@[j]@)
                    implies exists|i: int| 0 <= i < p@.len() && p@[i]@ == self.required@[j]@ by {
                if j < k {
                    let i0 = choose|i: int| 0 <= i < p0.len() && p0[i]@ == self.required@[j]@;
                    assert(p@[i0] == p0[i0]);
                } else {
                    assert(p@[p@.len() - 1]@ == self.required@[j]@);
                }
            }
            k += 1;
        }
        assert forall|i: int, i2: int| 0 <= i < i2 < p@.len() implies #[trigger] p@[i]@
            != #[trigger] p@[i2]@ by {
            assert(idx[i] < idx[i2]);
        }
        assert forall|i: int| 0 <= i < p@.len() implies contains_name(
            self.required_list(),
            #[trigger] p@[i]@,
        ) by {
            assert(0 <= idx[i] < self.required@.len());
            assert(self.required@[idx[i]]@ == p@[i]@);
        }
        p
    }

    /// Where `marker` would be in the directory being searched.
    pub fn candidate(&self, marker: &str) -> (p: String)
        ensures
            p@ == join_path(self.directory(), marker@),
    {
        join_path_of(self.dir.as_str(), marker)
    }

    /// Records that `marker` exists in the directory being searched, at its
    /// `candidate` path.
    pub fn found_at(&mut self, marker: String)
        requires
            old(self).wf(),
            contains_name(old(self).required_list(), marker@),
            !old(self).found_map().contains_key(marker@),
        ensures
            final(self).wf(),
            final(self).required_list() == old(self).required_list(),
            final(self).level() == old(self).level(),
            final(self).directory() == old(self).directory(),
            final(self).found_map() == old(self).found_map().insert(
                marker@,
                join_path(old(self).directory(), marker@),
            ),
            final(self).searched() == old(self).searched(),
            final(self).reported_pairs() == old(self).reported_pairs().insert(
                (old(self).level() as int, marker@),
            ),
    {
        let ghost old_found = self.found@;
        let ghost old_rep = self.reported@;
        let ghost req = names_of(self.required@);
        let ghost dirs = self.dirs@;
        let ghost lvl = self.depth as int;
        proof {
            let j = choose|j: int| 0 <= j < self.required@.len() && #[trigger] self.required@[j]@ == marker@;
            assert(req[j] == marker@);
            assert(req.contains(marker@));
        }
        let ghost m = marker@;
        let path = join_path_of(self.dir.as_str(), marker.as_str());
        let ghost pv = path@;
        proof {
            law_joined_path_ends_with_name(self.dir@, m);
        }
        self.found.push((marker, path));
        proof {
            let f = self.found@;
            assert forall|i: int| 0 <= i < f.len() implies ends_with(#[trigger] f[i].1@, f[i].0@) by {
                if i < old_found.len() {
                    assert(f[i] == old_found[i]);
                }
            }
            assert(f.len() == old_found.len() + 1);
            assert(f[f.len() - 1].0@ == m);
            assert forall|i: int| 0 <= i < old_found.len() implies #[trigger] old_found[i].0@
                != m by {
                if old_found[i].0@ == m {
                    assert(entries_map(old_found).contains_key(m));
                }
            }
            assert forall|k: Seq<char>| #[trigger] entries_map(f).contains_key(k)
                <==> entries_map(old_found).insert(m, pv).contains_key(k) by {
                if entries_map(f).contains_key(k) && k != m {
                    let i = choose|i: int| 0 <= i < f.len() && #[trigger] f[i].0@ == k;
                    assert(i < old_found.len());
                    assert(old_found[i].0@ == k);
                }
                if k == m {
                    assert(f[f.len() - 1].0@ == k);
                }
                if entries_map(old_found).contains_key(k) {
                    let i = choose|i: int|
                        0 <= i < old_found.len() && #[trigger] old_found[i].0@ == k;
                    assert(f[i].0@ == k);
                }
            }
            assert forall|k: Seq<char>| #[trigger] entries_map(f).contains_key(k) implies
                entries_map(f)[k] == entries_map(old_found).insert(m, pv)[k] by {
                let i = choose|i: int| 0 <= i < f.len() && #[trigger] f[i].0@ == k;
                if k == m {
                    assert(f[f.len() - 1].0@ == k);
                    assert(i == f.len() - 1);
                } else {
                    let i0 = choose|i: int|
                        0 <= i < old_found.len() && #[trigger] old_found[i].0@ == k;
                    assert(f[i0].0@ == k);
                    assert(i == i0);
                }
            }
            assert(entries_map(f) =~= entries_map(old_found).insert(m, pv));
        }
        proof {
            let new_rep = old_rep.insert((lvl, m));
            let f1 = reported_fn(old_rep);
            let f2 = reported_fn(new_rep);
            let pre = dirs.drop_last();
            assert forall|k: int, n: Seq<char>| 0 <= k < pre.len() implies #[trigger] f1(k, n) == f2(k, n) by {}
            lemma_walk_agrees(req, pre, f1, f2);
            let w = walk_found(req, pre, f1);
            assert(!w.contains_key(m)) by {
                if w.contains_key(m) {
                    assert(walk_found(req, dirs, f1).contains_key(m));
                }
            }
            assert(walk_found(req, dirs, f2) =~= walk_found(req, dirs, f1).insert(m, pv));
            self.reported = Ghost(new_rep);
        }
    }

    /// Whether to go on to the parent directory: some marker is still missing
    /// and the search has not climbed `MAX_TRAVERSAL_DEPTH` levels yet.
    pub fn keep_climbing(&self) -> (r: bool)
        requires
            self.wf(),
        ensures
            r == (self.level() < MAX_TRAVERSAL_DEPTH && exists|j: int|
                0 <= j < self.required_list().len() && !self.found_map().contains_key(
                    #[trigger] self.required_list()[j]@,
                )),
    {
        if self.depth >= MAX_TRAVERSAL_DEPTH {
            return false;
        }
        let mut k: usize = 0;
        while k < self.required.len()
            invariant
                k <= self.required@.len(),
                self.depth < MAX_TRAVERSAL_DEPTH,
                forall|j: int|
                    0 <= j < k ==> self.found_map().contains_key(#[trigger] self.required@[j]@),
            decreases self.required.len() - k,
        {
            if !self.is_found(self.required[k].as_str()) {
                assert(!self.found_map().contains_key(self.required_list()[k as int]@));
                return true;
            }
            k += 1;
        }
        false
    }

    /// Records that the search moved to the parent directory, `parent`.
    pub fn climbed(&mut self, parent: String)
        requires
            old(self).wf(),
            old(self).level() < MAX_TRAVERSAL_DEPTH,
        ensures
            final(self).wf(),
            final(self).required_list() == old(self).required_list(),
            final(self).found_map() == old(self).found_map(),
            final(self).level() == old(self).level() + 1,
            final(self).directory() == parent@,
            final(self).searched() == old(self).searched().push(parent@),
            final(self).reported_pairs() == old(self).reported_pairs(),
    {
        let ghost req = names_of(self.required@);
        let ghost d2 = self.dirs@.push(parent@);
        let ghost f = reported_fn(self.reported@);
        proof {
            assert(d2.drop_last() =~= self.dirs@);
            assert(walk_found(req, d2, f) =~= walk_found(req, self.dirs@, f));
        }
        self.depth = self.depth + 1;
        self.dir = parent;
        self.dirs = Ghost(d2);
    }

    /// The markers found, with their paths: each a required marker, at a
    /// path that ends with its name.
    pub fn into_context(self) -> (c: DetectionContext)
        requires
            self.wf(),
        ensures
            c@ == self.found_map(),
            c@ == walk_found(names_of(self.required_list()), self.searched(), reported_fn(self.reported_pairs())),
            forall|k: Seq<char>| #[trigger] c@.contains_key(k) ==> contains_name(self.required_list(), k),
            forall|k: Seq<char>| #[trigger] c@.contains_key(k) ==> ends_with(c@[k], k),
    {
        proof {
            let f = self.found@;
            assert forall|k: Seq<char>| #[trigger] entries_map(f).contains_key(k) implies contains_name(
                self.required@,
                k,
            ) && ends_with(entries_map(f)[k], k) by {
                let i = choose|i: int| 0 <= i < f.len() && #[trigger] f[i].0@ == k;
                assert(contains_name(self.required@, f[i].0@));
                assert(ends_with(f[i].1@, f[i].0@));
            }
        }
        DetectionContext { markers: self.found }
    }
}

/// What the prompt modules know of the place and the shell they render for.
pub struct ModuleContext {
    /// Leave tool versions out (`--no-version`).
    pub no_version: bool,
    /// The exit code of the last command, when it was given.
    pub exit_code: Option<i32>,
    /// The project markers found around the working directory.
    pub detection: DetectionContext,
    /// The offset of local time from UTC, in seconds, at the time of rendering.
    pub utc_offset_secs: i32,
}

impl ModuleContext {
    /// The path where `marker` was found, if it was.
    pub fn marker_path(&self, marker: &str) -> (r: Option<&str>)
        ensures
            match r {
                Some(p) => self.detection@.contains_key(marker@) && self.detection@[marker@] == p@,
                None => !self.detection@.contains_key(marker@),
            },
    {
        self.detection.get(marker)
    }
}

impl Default for ModuleContext {
    fn default() -> (c: Self)
        ensures
            !c.no_version,
            c.exit_code is None,
            c.detection@ == Map::<Seq<char>, Seq<char>>::empty(),
            c.utc_offset_secs == 0,
    {
        ModuleContext {
            no_version: false,
            exit_code: None,
            detection: DetectionContext::empty(),
            utc_offset_secs: 0,
        }
    }
}

} // verus!
