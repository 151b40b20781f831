//! The modules that a prompt can name, and the markers they look for.
use vstd::prelude::*;
use crate::detector::{ModuleContext, distinct_strings};
use crate::error::PromptError;
use crate::modules::ModuleOutput;
use crate::modules::bun::{BunModule, bun_renders};
use crate::modules::deno::{DenoModule, deno_renders};
use crate::modules::env::{EnvModule, env_renders};
use crate::modules::git::{GitModule, git_renders};
use crate::modules::go::{GoModule, go_renders};
use crate::modules::node::{NodeModule, node_renders};
use crate::modules::python::{PythonModule, python_renders};
use crate::modules::rust::{RustModule, rust_renders};
use crate::modules::time::{TimeModule, time_renders};
use crate::text::str_eq;

verus! {

/// A module that the registry can hold.
#[derive(Clone, Copy, Debug, PartialEq, Eq, Structural)]
pub enum ModuleRef {
    Bun,
    Deno,
    Env,
    Git,
    Go,
    Node,
    Python,
    Rust,
    Time,
}

/// The markers that module `m` looks for.
pub open spec fn markers_of(m: ModuleRef) -> Seq<Seq<char>> {
    match m {
        ModuleRef::Bun => seq!["bun.lockb"@, "bunfig.toml"@],
        ModuleRef::Deno => seq!["deno.json"@, "deno.jsonc"@],
        ModuleRef::Env => Seq::empty(),
        ModuleRef::Git => seq![".git"@],
        ModuleRef::Go => seq!["go.mod"@],
        ModuleRef::Node => seq!["package.json"@],
        ModuleRef::Python => seq!["requirements.txt"@, "pyproject.toml"@, "setup.py"@],
        ModuleRef::Rust => seq!["Cargo.toml"@],
        ModuleRef::Time => Seq::empty(),
    }
}

/// The views of the strings of `v`.
pub open spec fn strs_view(v: Seq<&'static str>) -> Seq<Seq<char>> {
    v.map_values(|s: &'static str| s@)
}

impl ModuleRef {
    /// The markers that this module looks for.
    pub fn fs_markers(&self) -> (m: Vec<&'static str>)
        ensures
            strs_view(m@) == markers_of(*self),
    {
        let m = match self {
            ModuleRef::Bun => BunModule::new().fs_markers(),
            ModuleRef::Deno => DenoModule::new().fs_markers(),
            ModuleRef::Env => EnvModule::new().fs_markers(),
            ModuleRef::Git => GitModule::new().fs_markers(),
            ModuleRef::Go => GoModule::new().fs_markers(),
            ModuleRef::Node => NodeModule::new().fs_markers(),
            ModuleRef::Python => PythonModule::new().fs_markers(),
            ModuleRef::Rust => RustModule::new().fs_markers(),
            ModuleRef::Time => Vec::new(),
        };
        assert(strs_view(m@) =~= markers_of(*self));
        m
    }

    /// Renders this module: what the module itself renders, with the time
    /// module's text given as a `Text` output.
    pub fn render(&self, format: &str, context: &ModuleContext) -> (r: Result<ModuleOutput, PromptError>)
        ensures
            match *self {
                ModuleRef::Bun => bun_renders(r, *context, format@),
                ModuleRef::Deno => deno_renders(r, *context, format@),
                ModuleRef::Env => env_renders(r, format@),
                ModuleRef::Git => git_renders(r, *context, format@),
                ModuleRef::Go => go_renders(r, *context, format@),
                ModuleRef::Node => node_renders(r, *context, format@),
                ModuleRef::Python => python_renders(r, *context, format@),
                ModuleRef::Rust => rust_renders(r, *context, format@),
                ModuleRef::Time => time_renders(
                    match r {
                        Ok(ModuleOutput::Text(t)) => Ok(t),
                        Ok(_) => Ok(None),
                        Err(e) => Err(e),
                    },
                    *context,
                    format@,
                ) && (r is Ok ==> r matches Ok(ModuleOutput::Text(_))),
            },
    {
        match self {
            ModuleRef::Bun => BunModule::new().render(format, context),
            ModuleRef::Deno => DenoModule::new().render(format, context),
            ModuleRef::Env => EnvModule::new().render(format, context),
            ModuleRef::Git => GitModule::new().render(format, context),
            ModuleRef::Go => GoModule::new().render(format, context),
            ModuleRef::Node => NodeModule::new().render(format, context),
            ModuleRef::Python => PythonModule::new().render(format, context),
            ModuleRef::Rust => RustModule::new().render(format, context),
            ModuleRef::Time => match TimeModule.render(format, context) {
                Ok(text) => Ok(ModuleOutput::Text(text)),
                Err(e) => Err(e),
            },
        }
    }
}

/// Some module of `reg` looks for the marker `m`.
pub open spec fn some_module_wants(reg: Map<Seq<char>, ModuleRef>, m: Seq<char>) -> bool {
    exists|n: Seq<char>| #[trigger] reg.contains_key(n) && markers_of(reg[n]).contains(m)
}

/// One of the first `k` entries of `mods` looks for the marker `m`.
pub open spec fn wanted_before(mods: Seq<(String, ModuleRef)>, k: int, m: Seq<char>) -> bool {
    exists|j: int| 0 <= j < k && #[trigger] markers_of(mods[j].1).contains(m)
}

/// The modules registered under their names.
pub struct ModuleRegistry {
    modules: Vec<(String, ModuleRef)>,
}

/// No name is registered twice.
pub open spec fn distinct_module_names(m: Seq<(String, ModuleRef)>) -> bool {
    forall|i: int, j: int| 0 <= i < j < m.len() ==> #[trigger] m[i].0@ != #[trigger] m[j].0@
}

/// The index of the entry named `n` in `m`, or the number of entries.
pub open spec fn module_index(m: Seq<(String, ModuleRef)>, n: Seq<char>, i: int) -> int
    decreases m.len() - i,
{
    if i < 0 || i >= m.len() {
        m.len() as int
    } else if m[i].0@ == n {
        i
    } else {
        module_index(m, n, i + 1)
    }
}

proof fn lemma_module_index(m: Seq<(String, ModuleRef)>, n: Seq<char>, i: int)
    requires
        0 <= i <= m.len(),
    ensures
        i <= module_index(m, n, i) <= m.len(),
        module_index(m, n, i) < m.len() ==> m[module_index(m, n, i)].0@ == n,
        forall|k: int| i <= k < module_index(m, n, i) ==> #[trigger] m[k].0@ != n,
    decreases m.len() - i,
{
    if i < m.len() && m[i].0@ != n {
        lemma_module_index(m, n, i + 1);
    }
}

impl View for ModuleRegistry {
    type V = Map<Seq<char>, ModuleRef>;

    closed spec fn view(&self) -> Map<Seq<char>, ModuleRef> {
        Map::new(
            |n: Seq<char>| module_index(self.modules@, n, 0) < self.modules@.len(),
            |n: Seq<char>| self.modules@[module_index(self.modules@, n, 0)].1,
        )
    }
}

impl ModuleRegistry {
    #[verifier::type_invariant]
    spec fn names_distinct(&self) -> bool {
        distinct_module_names(self.modules@)
    }

    /// An empty registry.
    pub fn new() -> (r: Self)
        ensures
            r@ == Map::<Seq<char>, ModuleRef>::empty(),
    {
        let r = ModuleRegistry { modules: Vec::new() };
        assert(r@ =~= Map::<Seq<char>, ModuleRef>::empty());
        r
    }

    fn index_of(&self, name: &str) -> (i: usize)
        ensures
            i == module_index(self.modules@, name@, 0),
    {
        let mut i: usize = 0;
        while i < self.modules.len() && !str_eq(self.modules[i].0.as_str(), name)
            invariant
                i <= self.modules@.len(),
                module_index(self.modules@, name@, i as int) == module_index(self.modules@, name@, 0),
            decreases self.modules.len() - i,
        {
            i += 1;
        }
        i
    }

    /// Registers `module` under `name`, in place of the module that had that name.
    pub fn register(&mut self, name: &str, module: ModuleRef)
        ensures
            final(self)@ == old(self)@.insert(name@, module),
    {
        proof {
            use_type_invariant(&*self);
        }
        let i = self.index_of(name);
        let ghost old_m = self.modules@;
        let mut modules: Vec<(String, ModuleRef)> = Vec::new();
        std::mem::swap(&mut modules, &mut self.modules);
        proof {
            lemma_module_index(old_m, name@, 0);
        }
        if i < modules.len() {
            modules.set(i, (String::from_str(name), module));
            let ghost m = modules@;
            proof {
                assert forall|a: int, b: int| 0 <= a < b < m.len() implies #[trigger] m[a].0@
                    != #[trigger] m[b].0@ by {
                    assert(old_m[a].0@ != old_m[b].0@);
                }
                lemma_module_index(m, name@, 0);
                let x = module_index(m, name@, 0);
                assert(m[i as int].0@ == name@);
                if x < i {
                    assert(m[x] == old_m[x]);
                }
                if x > i {
                    assert(m[i as int].0@ != name@);
                }
                assert(x == i);
            }
            self.modules = modules;
            proof {
                let v = self@;
                let ov = old(self)@.insert(name@, module);
                assert forall|n: Seq<char>| #[trigger] v.contains_key(n) == ov.contains_key(n) && (
                v.contains_key(n) ==> v[n] == ov[n]) by {
                    if n != name@ {
                        lemma_index_same_outside(old_m, m, n, i as int, 0);
                        lemma_module_index(old_m, n, 0);
                        let x = module_index(old_m, n, 0);
                        if x < old_m.len() {
                            assert(x != i);
                            assert(m[x] == old_m[x]);
                        }
                    }
                }
                assert(v =~= ov);
            }
        } else {
            modules.push((String::from_str(name), module));
            let ghost m = modules@;
            proof {
                assert forall|a: int, b: int| 0 <= a < b < m.len() implies #[trigger] m[a].0@
                    != #[trigger] m[b].0@ by {
                    if b < old_m.len() {
                        assert(old_m[a].0@ != old_m[b].0@);
                    } else {
                        assert(m[a] == old_m[a]);
                    }
                }
                assert(m[old_m.len() as int].0@ == name@);
            }
            self.modules = modules;
            proof {
                let v = self@;
                let ov = old(self)@.insert(name@, module);
                assert forall|n: Seq<char>| #[trigger] v.contains_key(n) == ov.contains_key(n) && (
                v.contains_key(n) ==> v[n] == ov[n]) by {
                    lemma_index_push(old_m, m, n, 0);
                    lemma_module_index(old_m, n, 0);
                    let x = module_index(old_m, n, 0);
                    if x < old_m.len() {
                        assert(m[x] == old_m[x]);
                    }
                }
                assert(v =~= ov);
            }
        }
    }

    /// The module registered under `name`.
    pub fn get(&self, name: &str) -> (r: Option<ModuleRef>)
        ensures
            match r {
                Some(m) => self@.contains_key(name@) && self@[name@] == m,
                None => !self@.contains_key(name@),
            },
    {
        let i = self.index_of(name);
        if i < self.modules.len() {
            Some(self.modules[i].1)
        } else {
            None
        }
    }

    /// Every marker that some registered module looks for, each once.
    pub fn required_markers(&self) -> (r: Vec<String>)
        ensures
            distinct_strings(r@),
            forall|i: int| 0 <= i < r@.len() ==> some_module_wants(self@, #[trigger] r@[i]@),
            forall|n: Seq<char>, m: Seq<char>|
                #[trigger] self@.contains_key(n) && #[trigger] markers_of(self@[n]).contains(m)
                    ==> exists|i: int| 0 <= i < r@.len() && r@[i]@ == m,
    {
        proof {
            use_type_invariant(self);
        }
        let mut r: Vec<String> = Vec::new();
        let mut k: usize = 0;
        while k < self.modules.len()
            invariant
                k <= self.modules@.len(),
                distinct_module_names(self.modules@),
                distinct_strings(r@),
                forall|i: int| 0 <= i < r@.len() ==> wanted_before(self.modules@, k as int, #[trigger] r@[i]@),
                forall|j: int, m: Seq<char>|
                    0 <= j < k && #[trigger] markers_of(self.modules@[j].1).contains(m) ==> exists|i: int|
                        0 <= i < r@.len() && r@[i]@ == m,
            decreases self.modules.len() - k,
        {
            let markers = self.modules[k].1.fs_markers();
            let mut q: usize = 0;
            while q < markers.len()
                invariant
                    k < self.modules@.len(),
                    q <= markers@.len(),
                    strs_view(markers@) == markers_of(self.modules@[k as int].1),
                    distinct_strings(r@),
                    forall|i: int|
                        0 <= i < r@.len() ==> wanted_before(self.modules@, k + 1, #[trigger] r@[i]@),
                    forall|j: int, m: Seq<char>|
                        0 <= j < k && #[trigger] markers_of(self.modules@[j].1).contains(m) ==> exists|i: int|
                            0 <= i < r@.len() && r@[i]@ == m,
                    forall|p: int| 0 <= p < q ==> exists|i: int| 0 <= i < r@.len() && r@[i]@ == #[trigger] markers@[p]@,
                decreases markers.len() - q,
            {
                let marker = markers[q];
                assert(strs_view(markers@)[q as int] == marker@);
                let mut present = false;
                let mut t: usize = 0;
                while t < r.len()
                    invariant
                        t <= r@.len(),
                        present ==> exists|i: int| 0 <= i < r@.len() && r@[i]@ == marker@,
                        !present ==> forall|i: int| 0 <= i < t ==> r@[i]@ != marker@,
                    decreases r.len() - t,
                {
                    if str_eq(r[t].as_str(), marker) {
                        present = true;
                    }
                    t += 1;
                }
                if !present {
                    let ghost before = r@;
                    r.push(String::from_str(marker));
                    assert(r@[r@.len() - 1]@ == marker@);
                    assert forall|a: int, b: int| 0 <= a < b < r@.len() implies #[trigger] r@[a]@
                        != #[trigger] r@[b]@ by {
                        if b < before.len() {
                            assert(before[a]@ != before[b]@);
                        }
                    }
                    assert forall|i: int| 0 <= i < r@.len() implies wanted_before(
                        self.modules@,
                        k + 1,
                        #[trigger] r@[i]@,
                    ) by {
                        if i < before.len() {
                            assert(r@[i] == before[i]);
                        } else {
                            assert(markers_of(self.modules@[k as int].1)[q as int] == r@[i]@);
                            assert(markers_of(self.modules@[k as int].1).contains(r@[i]@));
                        }
                    }
                    assert forall|j: int, m: Seq<char>|
                        0 <= j < k && #[trigger] markers_of(self.modules@[j].1).contains(m) implies exists|i: int|
                            0 <= i < r@.len() && r@[i]@ == m by {
                        let i0 = choose|i: int| 0 <= i < before.len() && before[i]@ == m;
                        assert(r@[i0] == before[i0]);
                    }
                    assert forall|p: int| 0 <= p < q + 1 implies exists|i: int|
                        0 <= i < r@.len() && r@[i]@ == #[trigger] markers@[p]@ by {
                        if p < q {
                            let i0 = choose|i: int| 0 <= i < before.len() && before[i]@ == markers@[p]@;
                            assert(r@[i0] == before[i0]);
                        } else {
                            assert(r@[r@.len() - 1]@ == markers@[p]@);
                        }
                    }
                }
                q += 1;
            }
            assert forall|j: int, m: Seq<char>|
                0 <= j < k + 1 && #[trigger] markers_of(self.modules@[j].1).contains(m) implies exists|i: int|
                    0 <= i < r@.len() && r@[i]@ == m by {
                if j == k {
                    let p = choose|p: int| 0 <= p < markers_of(self.modules@[j].1).len() && markers_of(self.modules@[j].1)[p] == m;
                    assert(strs_view(markers@)[p] == markers@[p]@);
                    assert(exists|i: int| 0 <= i < r@.len() && r@[i]@ == #[trigger] markers@[p]@);
                }
            }
            k += 1;
        }
        proof {
            let mm = self.modules@;
            assert forall|i: int| 0 <= i < r@.len() implies some_module_wants(self@, #[trigger] r@[i]@) by {
                let j = choose|j: int| 0 <= j < mm.len() && #[trigger] markers_of(mm[j].1).contains(r@[i]@);
                let n = mm[j].0@;
                lemma_module_index(mm, n, 0);
                let x = module_index(mm, n, 0);
                if x < j {
                    assert(mm[x].0@ != mm[j].0@);
                }
                assert(x == j);
                assert(self@.contains_key(n));
            }
            assert forall|n: Seq<char>, m: Seq<char>|
                #[trigger] self@.contains_key(n) && #[trigger] markers_of(self@[n]).contains(m) implies exists|i: int|
                    0 <= i < r@.len() && r@[i]@ == m by {
                lemma_module_index(mm, n, 0);
                let x = module_index(mm, n, 0);
                assert(self@[n] == mm[x].1);
                assert(markers_of(mm[x].1).contains(m));
            }
        }
        r
    }
}

proof fn lemma_index_same_outside(
    old_m: Seq<(String, ModuleRef)>,
    m: Seq<(String, ModuleRef)>,
    n: Seq<char>,
    k: int,
    i: int,
)
    requires
        m.len() == old_m.len(),
        0 <= k < m.len(),
        0 <= i <= m.len(),
        forall|j: int| 0 <= j < m.len() && j != k ==> m[j] == old_m[j],
        m[k].0@ == old_m[k].0@,
    ensures
        module_index(m, n, i) == module_index(old_m, n, i),
    decreases m.len() - i,
{
    if i < m.len() {
        assert(m[i].0@ == old_m[i].0@);
        lemma_index_same_outside(old_m, m, n, k, i + 1);
    }
}

proof fn lemma_index_push(old_m: Seq<(String, ModuleRef)>, m: Seq<(String, ModuleRef)>, n: Seq<char>, i: int)
    requires
        m.len() == old_m.len() + 1,
        0 <= i <= old_m.len(),
        forall|j: int| 0 <= j < old_m.len() ==> m[j] == old_m[j],
    ensures
        module_index(old_m, n, i) < old_m.len() ==> module_index(m, n, i) == module_index(old_m, n, i),
        module_index(old_m, n, i) == old_m.len() ==> module_index(m, n, i) == (if m[old_m.len() as int].0@
            == n {
            old_m.len() as int
        } else {
            m.len() as int
        }),
    decreases old_m.len() - i,
{
    if i < old_m.len() {
        assert(m[i] == old_m[i]);
        lemma_index_push(old_m, m, n, i + 1);
    } else {
        assert(module_index(m, n, i + 1) == m.len());
    }
}

impl Default for ModuleRegistry {
    fn default() -> (r: Self)
        ensures
            r@ == Map::<Seq<char>, ModuleRef>::empty(),
    {
        ModuleRegistry::new()
    }
}

/// A registered module is what a lookup of its name finds, whatever was
/// registered under that name before.
pub proof fn law_get_after_register(before: Map<Seq<char>, ModuleRef>, name: Seq<char>, module: ModuleRef, other: Seq<char>)
    ensures
        before.insert(name, module).contains_key(name),
        before.insert(name, module)[name] == module,
        other != name ==> before.insert(name, module).contains_key(other) == before.contains_key(other),
        other != name && before.contains_key(other) ==> before.insert(name, module)[other] == before[other],
{
}

} // verus!
