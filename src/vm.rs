use crate::bif::BifRegistry;
use crate::exports::{EntryPoint, ExportsTable, ModuleHandle};
use crate::module::{LoadError, Module, MFA};
use crate::registry::Registry;
use vstd::prelude::*;

verus! {

/// The entry point of function `f` of arity `arity` in module `h`.
pub open spec fn entry_for(h: ModuleHandle, f: u32, arity: u32) -> EntryPoint {
    EntryPoint { module: h, offset: h.module.funs.entries()[(f, arity)] }
}

/// The error, if any, that installing `image` gives.
pub open spec fn install_error(image: Module) -> Option<LoadError> {
    if !image.well_formed() {
        Some(LoadError::DecodeError)
    } else if !image.exports_resolved() {
        Some(LoadError::UnresolvedExport)
    } else {
        None
    }
}

/// The error, if any, that loading `image` gives when its `on_load`
/// function, if it has one, succeeded exactly when `on_load_ok`.
pub open spec fn load_error(image: Module, on_load_ok: bool) -> Option<LoadError> {
    match install_error(image) {
        Some(e) => Some(e),
        None => if image.on_load is Some && !on_load_ok {
            Some(LoadError::OnLoadFailure)
        } else {
            None
        },
    }
}

/// The code of one virtual machine: its resident modules, the exports
/// table that calls between modules go through, and its native overrides.
pub struct CodeServer {
    registry: Registry,
    exports: ExportsTable,
    bifs: BifRegistry,
}

impl CodeServer {
    /// The resident module named `name`.
    pub closed spec fn module_named(&self, name: u32) -> Option<ModuleHandle> {
        self.registry.get(name)
    }

    /// What a call of `mfa` resolves to.
    pub closed spec fn target(&self, mfa: MFA) -> Option<EntryPoint> {
        self.exports.get(mfa)
    }

    /// Whether a native function answers calls of `mfa`.
    pub closed spec fn overridden(&self, mfa: MFA) -> bool {
        self.bifs.has(mfa)
    }

    /// The generation that the next installed module gets.
    pub closed spec fn next_generation(&self) -> u64 {
        self.registry.next_generation()
    }

    /// How many more modules can be installed.
    pub closed spec fn installs_left(&self) -> nat {
        (u64::MAX - self.registry.next_generation()) as nat
    }

    /// What `mfa` resolves to, if anything, is an export of the resident
    /// module of its name, with no native override.
    pub closed spec fn sound_at(&self, mfa: MFA) -> bool {
        self.exports.get(mfa) matches Some(ep) ==> {
            &&& self.registry.get(mfa.0) == Some(ep.module)
            &&& !self.bifs.has(mfa)
            &&& ep.module.module.exports_fn(mfa.1, mfa.2)
            &&& ep == entry_for(ep.module, mfa.1, mfa.2)
        }
    }

    /// Every export of the resident module named `name` that no native
    /// function overrides resolves to that module.
    pub closed spec fn complete_for(&self, name: u32) -> bool {
        self.registry.get(name) matches Some(h) ==> forall|i: int|
            #![trigger h.module.exports@[i]]
            0 <= i < h.module.exports@.len() && !self.bifs.has(
                MFA(name, h.module.exports@[i].0, h.module.exports@[i].1),
            ) ==> self.exports.get(MFA(name, h.module.exports@[i].0, h.module.exports@[i].1))
                == Some(entry_for(h, h.module.exports@[i].0, h.module.exports@[i].1))
    }

    /// The registry and the exports table agree.
    pub closed spec fn coherent(&self) -> bool {
        &&& self.registry.wf()
        &&& forall|mfa: MFA| #[trigger] self.sound_at(mfa)
        &&& forall|name: u32| #[trigger] self.complete_for(name)
    }

    /// A machine with no code loaded, whose native functions are `bifs`.
    pub fn new(bifs: BifRegistry) -> (r: Self)
        ensures
            r.coherent(),
            r.installs_left() == u64::MAX,
            forall|name: u32| #[trigger] r.module_named(name) is None,
            forall|mfa: MFA| #[trigger] r.target(mfa) is None,
            forall|mfa: MFA| #[trigger] r.overridden(mfa) == bifs.has(mfa),
    {
        CodeServer { registry: Registry::new(), exports: ExportsTable::new(), bifs }
    }

    /// Whether `n` more modules can be installed.
    pub fn can_install(&self, n: usize) -> (r: bool)
        ensures
            r == (self.installs_left() >= n),
    {
        self.registry.generations_left() >= n as u64
    }

    /// The resident module named `name`, if any.
    pub fn lookup_module(&self, name: u32) -> (r: Option<ModuleHandle>)
        ensures
            r == self.module_named(name),
    {
        self.registry.lookup(name)
    }

    /// What a call of `mfa` resolves to; `None` when nothing is exported
    /// under it.
    pub fn resolve(&self, mfa: MFA) -> (r: Option<EntryPoint>)
        ensures
            r == self.target(mfa),
    {
        self.exports.resolve(mfa)
    }

    /// Installs `image` and takes the exports of its name out of the table,
    /// leaving them to be published.
    fn stage(&mut self, image: Module) -> (r: Result<ModuleHandle, LoadError>)
        requires
            old(self).registry.wf(),
            forall|mfa: MFA| #[trigger] old(self).sound_at(mfa),
            old(self).installs_left() > 0,
        ensures
            final(self).registry.wf(),
            forall|mfa: MFA| #[trigger] final(self).sound_at(mfa),
            final(self).bifs == old(self).bifs,
            install_error(image) matches Some(e) ==> r == Err::<ModuleHandle, LoadError>(e),
            install_error(image) is None ==> r is Ok,
            r is Err ==> *final(self) == *old(self),
            r matches Ok(h) ==> {
                &&& *h.module == image
                &&& h.generation == old(self).registry.next_generation()
                &&& final(self).installs_left() == old(self).installs_left() - 1
                &&& final(self).registry.get(image.name) == Some(h)
                &&& forall|n: u32|
                    n != image.name ==> #[trigger] final(self).registry.get(n)
                        == old(self).registry.get(n)
                &&& forall|mfa: MFA|
                    #[trigger] final(self).exports.get(mfa) == if mfa.0 == image.name {
                        None
                    } else {
                        old(self).exports.get(mfa)
                    }
                &&& forall|n: u32|
                    n != image.name && #[trigger] old(self).complete_for(n)
                        ==> final(self).complete_for(n)
            },
    {
        let name = image.name;
        let r = self.registry.install_or_replace(image);
        if r.is_ok() {
            self.exports.purge_module(name);
            proof {
                assert forall|mfa: MFA| #[trigger] self.sound_at(mfa) by {
                    if mfa.0 != name {
                        assert(old(self).sound_at(mfa));
                    }
                }
                assert forall|n: u32|
                    n != name && #[trigger] old(self).complete_for(n) implies self.complete_for(
                        n,
                    ) by {
                    assert(self.registry.get(n) == old(self).registry.get(n));
                }
            }
        }
        r
    }

    /// Publishes the exports of `h`, the resident module of its name,
    /// leaving out those that a native function overrides.
    fn publish(&mut self, h: &ModuleHandle)
        requires
            old(self).registry.wf(),
            old(self).registry.get(h.module.name) == Some(*h),
            forall|mfa: MFA| #[trigger] old(self).sound_at(mfa),
        ensures
            final(self).registry == old(self).registry,
            final(self).bifs == old(self).bifs,
            forall|mfa: MFA| #[trigger] final(self).sound_at(mfa),
            final(self).complete_for(h.module.name),
            forall|n: u32|
                n != h.module.name && #[trigger] old(self).complete_for(n) ==> final(self).complete_for(n),
            forall|mfa: MFA|
                mfa.0 != h.module.name ==> #[trigger] final(self).exports.get(mfa) == old(self).exports.get(mfa),
    {
        let name = h.module.name;
        let exports = &h.module.exports;
        let mut i: usize = 0;
        while i < exports.len()
            invariant
                name == h.module.name,
                exports@ == h.module.exports@,
                i <= exports@.len(),
                self.registry == old(self).registry,
                self.bifs == old(self).bifs,
                self.registry.wf(),
                self.registry.get(name) == Some(*h),
                forall|mfa: MFA| #[trigger] self.sound_at(mfa),
                forall|mfa: MFA|
                    mfa.0 != name ==> #[trigger] self.exports.get(mfa) == old(self).exports.get(
                        mfa,
                    ),
                forall|j: int|
                    #![trigger exports@[j]]
                    0 <= j < i && !self.bifs.has(MFA(name, exports@[j].0, exports@[j].1))
                        ==> self.exports.get(MFA(name, exports@[j].0, exports@[j].1)) == Some(
                        entry_for(*h, exports@[j].0, exports@[j].1),
                    ),
            decreases exports@.len() - i,
        {
            let e = exports[i];
            let mfa = MFA(name, e.0, e.1);
            if !self.bifs.is_override(&mfa) {
                match h.module.funs.get(e.0, e.1) {
                    Some(offset) => {
                        let ghost before = *self;
                        let ep = EntryPoint { module: h.clone(), offset };
                        self.exports.register(mfa, ep);
                        proof {
                            assert(h.module.exports_fn(e.0, e.1)) by {
                                assert(exports@[i as int] == e);
                            }
                            assert forall|k: MFA| #[trigger] self.sound_at(k) by {
                                if k != mfa {
                                    assert(before.sound_at(k));
                                }
                            }
                        }
                    },
                    None => {},
                }
            }
            proof {
                self.registry.lemma_resident(name);
                assert(resident_exports_resolved(*h, i as int));
            }
            i = i + 1;
        }
        proof {
            assert forall|n: u32|
                n != name && #[trigger] old(self).complete_for(n) implies self.complete_for(n) by {
            }
        }
    }

    /// Loads one module: checks `image`, makes it the resident module of its
    /// name and publishes its exports. `on_load_ok` is the outcome of the
    /// image's `on_load` function, run by the caller before the module is
    /// visible; it is not read when the image has none. When the function
    /// failed, nothing changes and any earlier module of the name stays.
    pub fn install_module(&mut self, image: Module, on_load_ok: bool) -> (r: Result<
        ModuleHandle,
        LoadError,
    >)
        requires
            old(self).coherent(),
            old(self).installs_left() > 0,
        ensures
            final(self).coherent(),
            install_error(image) matches Some(e) ==> r == Err::<ModuleHandle, LoadError>(e),
            install_error(image) is None && image.on_load is Some && !on_load_ok ==> r == Err::<
                ModuleHandle,
                LoadError,
            >(LoadError::OnLoadFailure),
            install_error(image) is None && (image.on_load is None || on_load_ok) ==> r is Ok,
            r is Err ==> *final(self) == *old(self),
            forall|mfa: MFA| #[trigger] final(self).overridden(mfa) == old(self).overridden(mfa),
            r matches Ok(h) ==> {
                &&& *h.module == image
                &&& h.generation == old(self).next_generation()
                &&& final(self).installs_left() == old(self).installs_left() - 1
                &&& final(self).module_named(image.name) == Some(h)
                &&& forall|n: u32|
                    n != image.name ==> #[trigger] final(self).module_named(n)
                        == old(self).module_named(n)
                &&& forall|mfa: MFA|
                    mfa.0 != image.name ==> #[trigger] final(self).target(mfa) == old(self).target(mfa)
            },
    {
        if image.validate().is_ok() && image.on_load.is_some() && !on_load_ok {
            return Err(LoadError::OnLoadFailure);
        }
        let r = self.stage(image);
        match r {
            Ok(h) => {
                let ghost staged = *self;
                self.publish(&h);
                proof {
                    assert forall|n: u32| #[trigger] self.complete_for(n) by {
                        if n != h.module.name {
                            assert(old(self).complete_for(n));
                            assert(staged.complete_for(n));
                        }
                    }
                }
                Ok(h)
            },
            Err(e) => Err(e),
        }
    }

    /// Loads a batch of modules: first installs each image, in order, then
    /// publishes the exports of every module so installed, so that calls
    /// between modules of the batch resolve. `on_load_ok[i]` is the outcome
    /// of the `on_load` function of `images[i]`, run by the caller before the
    /// batch; it is not read for an image that has none. An image that fails
    /// its check or its `on_load` function is left out, and nothing of it
    /// becomes visible; the others stay installed. The result tells, for each
    /// image, its handle or why it was left out.
    pub fn finish_loading_modules(&mut self, images: Vec<Module>, on_load_ok: Vec<bool>) -> (r: Vec<
        Result<ModuleHandle, LoadError>,
    >)
        requires
            old(self).coherent(),
            old(self).installs_left() >= images@.len(),
            on_load_ok@.len() == images@.len(),
        ensures
            final(self).coherent(),
            r@.len() == images@.len(),
            forall|mfa: MFA| #[trigger] final(self).overridden(mfa) == old(self).overridden(mfa),
            forall|i: int|
                0 <= i < images@.len() ==> match load_error(#[trigger] images@[i], on_load_ok@[i]) {
                    Some(e) => r@[i] == Err::<ModuleHandle, LoadError>(e),
                    None => r@[i] is Ok && *r@[i]->Ok_0.module == images@[i],
                },
            forall|i: int|
                #![trigger images@[i]]
                0 <= i < images@.len() && r@[i] is Ok && last_of_name(images@, r@, i)
                    ==> final(self).module_named(images@[i].name) == Some(r@[i]->Ok_0),
            forall|n: u32|
                !installed_name(images@, r@, n) ==> #[trigger] final(self).module_named(n)
                    == old(self).module_named(n),
            forall|mfa: MFA|
                !installed_name(images@, r@, mfa.0) ==> #[trigger] final(self).target(mfa) == old(self).target(mfa),
    {
        let ghost orig = images@;
        let out = self.stage_batch(images, &on_load_ok);
        self.publish_batch(&out, Ghost(orig));
        out
    }

    /// Installs each of `images` in order, leaving the exports of the
    /// installed names to be published.
    #[verifier::rlimit(60)]
    fn stage_batch(&mut self, images: Vec<Module>, hooks: &Vec<bool>) -> (r: Vec<
        Result<ModuleHandle, LoadError>,
    >)
        requires
            hooks@.len() == images@.len(),
            old(self).registry.wf(),
            forall|mfa: MFA| #[trigger] old(self).sound_at(mfa),
            forall|n: u32| #[trigger] old(self).complete_for(n),
            old(self).installs_left() >= images@.len(),
        ensures
            final(self).registry.wf(),
            final(self).bifs == old(self).bifs,
            forall|mfa: MFA| #[trigger] final(self).sound_at(mfa),
            r@.len() == images@.len(),
            forall|n: u32| !installed_name(images@, r@, n) ==> #[trigger] final(self).complete_for(n),
            forall|j: int|
                0 <= j < images@.len() ==> match load_error(#[trigger] images@[j], hooks@[j]) {
                    Some(e) => r@[j] == Err::<ModuleHandle, LoadError>(e),
                    None => r@[j] is Ok && *r@[j]->Ok_0.module == images@[j],
                },
            forall|j: int|
                #![trigger images@[j]]
                0 <= j < images@.len() && r@[j] is Ok && last_of_name(images@, r@, j)
                    ==> final(self).registry.get(images@[j].name) == Some(r@[j]->Ok_0),
            forall|n: u32|
                !installed_name(images@, r@, n) ==> #[trigger] final(self).registry.get(n)
                    == old(self).registry.get(n),
            forall|mfa: MFA|
                !installed_name(images@, r@, mfa.0) ==> #[trigger] final(self).exports.get(mfa)
                    == old(self).exports.get(mfa),
    {
        let ghost orig = images@;
        let total = images.len();
        let mut images = images;
        let mut out: Vec<Result<ModuleHandle, LoadError>> = Vec::new();
        let mut i: usize = 0;
        while images.len() > 0
            invariant
                total == orig.len(),
                hooks@.len() == orig.len(),
                images@ == orig.skip(i as int),
                i <= orig.len(),
                out@.len() == i,
                self.registry.wf(),
                self.bifs == old(self).bifs,
                self.installs_left() >= orig.len() - i,
                forall|mfa: MFA| #[trigger] self.sound_at(mfa),
                forall|n: u32|
                    !installed_name(orig.take(i as int), out@, n) ==> #[trigger] self.complete_for(n),
                forall|j: int|
                    0 <= j < i ==> match load_error(#[trigger] orig[j], hooks@[j]) {
                        Some(e) => out@[j] == Err::<ModuleHandle, LoadError>(e),
                        None => out@[j] is Ok && *out@[j]->Ok_0.module == orig[j],
                    },
                forall|j: int|
                    #![trigger orig[j]]
                    0 <= j < i && out@[j] is Ok && last_of_name(orig.take(i as int), out@, j)
                        ==> self.registry.get(orig[j].name) == Some(out@[j]->Ok_0),
                forall|n: u32|
                    !installed_name(orig.take(i as int), out@, n) ==> #[trigger] self.registry.get(n)
                        == old(self).registry.get(n),
                forall|mfa: MFA|
                    !installed_name(orig.take(i as int), out@, mfa.0) ==> #[trigger] self.exports.get(
                        mfa,
                    ) == old(self).exports.get(mfa),
            decreases orig.len() - i,
        {
            proof {
                assert(orig.skip(i as int).len() > 0);
            }
            let image = images.remove(0);
            proof {
                assert(images@ =~= orig.skip(i + 1));
                assert(image == orig[i as int]);
            }
            let ghost before = *self;
            let ghost out_before = out@;
            let hook_ok = hooks[i];
            let res = if image.validate().is_ok() && image.on_load.is_some() && !hook_ok {
                Err(LoadError::OnLoadFailure)
            } else {
                self.stage(image)
            };
            out.push(res);
            proof {
                assert(out@.drop_last() =~= out_before);
                lemma_batch_step(orig, out_before, out@, i as int);
                assert forall|n: u32|
                    !installed_name(orig.take(i + 1), out@, n) implies #[trigger] self.complete_for(n) by {
                    assert(before.complete_for(n));
                }
                assert forall|n: u32|
                    !installed_name(orig.take(i + 1), out@, n) implies #[trigger] self.registry.get(n)
                        == old(self).registry.get(n) by {
                    assert(before.registry.get(n) == old(self).registry.get(n));
                }
                assert forall|mfa: MFA|
                    !installed_name(orig.take(i + 1), out@, mfa.0) implies #[trigger] self.exports.get(
                        mfa,
                    ) == old(self).exports.get(mfa) by {
                    assert(before.exports.get(mfa) == old(self).exports.get(mfa));
                }
                assert forall|j: int|
                    #![trigger orig[j]]
                    0 <= j < i + 1 && out@[j] is Ok && last_of_name(orig.take(i + 1), out@, j)
                    implies self.registry.get(orig[j].name) == Some(out@[j]->Ok_0) by {
                    if j < i {
                        assert(out@[j] == out_before[j]);
                        assert(last_of_name(orig.take(i as int), out_before, j));
                        assert(before.registry.get(orig[j].name) == Some(out@[j]->Ok_0));
                    }
                }
                assert forall|j: int|
                    0 <= j < i + 1 implies match load_error(#[trigger] orig[j], hooks@[j]) {
                        Some(e) => out@[j] == Err::<ModuleHandle, LoadError>(e),
                        None => out@[j] is Ok && *out@[j]->Ok_0.module == orig[j],
                    } by {
                    if j < i {
                        assert(out@[j] == out_before[j]);
                    }
                }
            }
            i = i + 1;
        }
        proof {
            assert(orig.take(i as int) =~= orig);
        }
        out
    }

    /// Publishes the exports of every module that `results` installed.
    fn publish_batch(&mut self, results: &Vec<Result<ModuleHandle, LoadError>>, Ghost(images): Ghost<Seq<Module>>)
        requires
            old(self).registry.wf(),
            forall|mfa: MFA| #[trigger] old(self).sound_at(mfa),
            results@.len() == images.len(),
            forall|j: int|
                0 <= j < images.len() && (#[trigger] results@[j]) is Ok ==> (results@[j]->Ok_0).module.name
                    == images[j].name,
            forall|n: u32| !installed_name(images, results@, n) ==> #[trigger] old(self).complete_for(n),
        ensures
            final(self).registry == old(self).registry,
            final(self).bifs == old(self).bifs,
            final(self).coherent(),
            forall|mfa: MFA|
                !installed_name(images, results@, mfa.0) ==> #[trigger] final(self).exports.get(mfa)
                    == old(self).exports.get(mfa),
    {
        let mut k: usize = 0;
        proof {
            assert(images.skip(0) =~= images);
            assert(results@.skip(0) =~= results@);
        }
        while k < results.len()
            invariant
                k <= results@.len(),
                results@.len() == images.len(),
                forall|j: int|
                    0 <= j < images.len() && (#[trigger] results@[j]) is Ok ==> (
                    results@[j]->Ok_0).module.name == images[j].name,
                self.registry == old(self).registry,
                self.bifs == old(self).bifs,
                self.registry.wf(),
                forall|mfa: MFA| #[trigger] self.sound_at(mfa),
                forall|n: u32|
                    !installed_name(images.skip(k as int), results@.skip(k as int), n) ==> #[trigger] self.complete_for(n),
                forall|mfa: MFA|
                    !installed_name(images, results@, mfa.0) ==> #[trigger] self.exports.get(mfa)
                        == old(self).exports.get(mfa),
            decreases results@.len() - k,
        {
            let ghost before = *self;
            proof {
                if results@[k as int] is Ok {
                    assert(results@[k as int]->Ok_0.module.name == images[k as int].name);
                }
            }
            match &results[k] {
                Ok(h) => {
                    let name = h.module.name;
                    match self.registry.lookup(name) {
                        Some(cur) => {
                            proof {
                                self.registry.lemma_resident(name);
                            }
                            self.publish(&cur);
                            assert(self.complete_for(name));
                        },
                        None => {
                            assert(self.complete_for(name));
                        },
                    }
                    proof {
                        reveal(installed_name);
                        assert(results@[k as int] is Ok && images[k as int].name == name);
                        assert(installed_name(images, results@, name));
                        assert(name == images[k as int].name);
                        assert(self.complete_for(images[k as int].name));
                        assert(forall|n: u32| n != name && #[trigger] before.complete_for(n) ==> self.complete_for(n));
                    }
                },
                Err(_) => {},
            }
            proof {
                lemma_skip_step(images, results@, k as int);
                assert forall|n: u32|
                    !installed_name(images.skip(k as int + 1), results@.skip(k as int + 1), n)
                    implies #[trigger] self.complete_for(n) by {
                    let kk = k as int;
                    assert(installed_name(images.skip(kk), results@.skip(kk), n) <==> (installed_name(
                        images.skip(kk + 1),
                        results@.skip(kk + 1),
                        n,
                    ) || (results@[kk] is Ok && images[kk].name == n)));
                    if !(results@[k as int] is Ok && images[k as int].name == n) {
                        assert(!installed_name(images.skip(k as int), results@.skip(k as int), n));
                        assert(before.complete_for(n));
                    }
                }
            }
            k = k + 1;
        }
        proof {
            reveal(installed_name);
            assert forall|n: u32| #[trigger] self.complete_for(n) by {
                assert(!installed_name(images.skip(k as int), results@.skip(k as int), n));
            }
        }
    }
}

/// Every export of a resident module has a body to resolve to.
pub proof fn law_resident_exports_resolvable(s: CodeServer, name: u32)
    requires
        s.coherent(),
        s.module_named(name) is Some,
    ensures
        s.module_named(name)->Some_0.module.name == name,
        s.module_named(name)->Some_0.module.exports_resolved(),
        s.module_named(name)->Some_0.generation < s.next_generation(),
{
    s.registry.lemma_resident(name);
}

/// A function reference with a native override never resolves to bytecode,
/// whatever was installed before.
pub proof fn law_override_wins(s: CodeServer, mfa: MFA)
    requires
        s.coherent(),
        s.overridden(mfa),
    ensures
        s.target(mfa) is None,
{
    assert(s.sound_at(mfa));
}

/// A call resolves only into the module now resident under the called
/// module's name, never into one it superseded, and lands on the body of
/// the called function there.
pub proof fn law_resolves_to_resident(s: CodeServer, mfa: MFA)
    requires
        s.coherent(),
        s.target(mfa) is Some,
    ensures
        s.module_named(mfa.0) == Some(s.target(mfa)->Some_0.module),
        s.target(mfa)->Some_0.module.module.exports_fn(mfa.1, mfa.2),
        s.target(mfa)->Some_0 == entry_for(s.target(mfa)->Some_0.module, mfa.1, mfa.2),
{
    assert(s.sound_at(mfa));
}

/// Each export of a resident module that no native function overrides
/// resolves to that module.
pub proof fn law_exports_resolve(s: CodeServer, name: u32, f: u32, arity: u32)
    requires
        s.coherent(),
        s.module_named(name) is Some,
        s.module_named(name)->Some_0.module.exports_fn(f, arity),
        !s.overridden(MFA(name, f, arity)),
    ensures
        s.target(MFA(name, f, arity)) == Some(entry_for(s.module_named(name)->Some_0, f, arity)),
{
    let h = s.module_named(name)->Some_0;
    assert(s.complete_for(name));
    let i = choose|i: int|
        0 <= i < h.module.exports@.len() && h.module.exports@[i].0 == f && h.module.exports@[i].1
            == arity;
    assert(h.module.exports@[i].0 == f);
}

/// Whether some image of `images` named `n` was installed.
#[verifier::opaque]
pub open spec fn installed_name(
    images: Seq<Module>,
    results: Seq<Result<ModuleHandle, LoadError>>,
    n: u32,
) -> bool {
    exists|j: int| 0 <= j < images.len() && #[trigger] results[j] is Ok && images[j].name == n
}

/// The images from the `k`-th on install a name if the `k`-th does or those
/// after it do.
proof fn lemma_skip_step(images: Seq<Module>, results: Seq<Result<ModuleHandle, LoadError>>, k: int)
    requires
        0 <= k < images.len(),
        results.len() == images.len(),
    ensures
        forall|n: u32|
            #[trigger] installed_name(images.skip(k), results.skip(k), n) <==> (installed_name(
                images.skip(k + 1),
                results.skip(k + 1),
                n,
            ) || (results[k] is Ok && images[k].name == n)),
{
    reveal(installed_name);
    assert forall|n: u32|
        #[trigger] installed_name(images.skip(k), results.skip(k), n) <==> (installed_name(
            images.skip(k + 1),
            results.skip(k + 1),
            n,
        ) || (results[k] is Ok && images[k].name == n)) by {
        if installed_name(images.skip(k), results.skip(k), n) {
            let j = choose|j: int|
                0 <= j < images.skip(k).len() && #[trigger] results.skip(k)[j] is Ok
                    && images.skip(k)[j].name == n;
            assert(results.skip(k)[j] == results[k + j]);
            assert(images.skip(k)[j] == images[k + j]);
            if j > 0 {
                assert(results.skip(k + 1)[j - 1] == results[k + j]);
                assert(images.skip(k + 1)[j - 1] == images[k + j]);
            }
        }
        if installed_name(images.skip(k + 1), results.skip(k + 1), n) {
            let j = choose|j: int|
                0 <= j < images.skip(k + 1).len() && #[trigger] results.skip(k + 1)[j] is Ok
                    && images.skip(k + 1)[j].name == n;
            assert(results.skip(k + 1)[j] == results[k + 1 + j]);
            assert(images.skip(k + 1)[j] == images[k + 1 + j]);
            assert(results.skip(k)[j + 1] == results[k + 1 + j]);
            assert(images.skip(k)[j + 1] == images[k + 1 + j]);
        }
        if results[k] is Ok && images[k].name == n {
            assert(results.skip(k)[0] == results[k]);
            assert(images.skip(k)[0] == images[k]);
        }
    }
}

/// One more image installed keeps the earlier records and adds its own.
proof fn lemma_batch_step(
    images: Seq<Module>,
    before: Seq<Result<ModuleHandle, LoadError>>,
    after: Seq<Result<ModuleHandle, LoadError>>,
    i: int,
)
    requires
        0 <= i < images.len(),
        before.len() == i,
        after.len() == i + 1,
        after.drop_last() == before,
    ensures
        forall|n: u32|
            #[trigger] installed_name(images.take(i), before, n) ==> installed_name(images.take(i + 1), after, n),
        forall|n: u32|
            !(#[trigger] installed_name(images.take(i + 1), after, n)) ==> !installed_name(images.take(i), before, n)
                && (after[i] is Ok ==> images[i].name != n),
        forall|j: int|
            0 <= j < i && #[trigger] last_of_name(images.take(i + 1), after, j) ==> last_of_name(
                images.take(i),
                before,
                j,
            ) && (after[i] is Ok ==> images[i].name != images[j].name),
        last_of_name(images.take(i + 1), after, i),
{
    reveal(installed_name);
    reveal(last_of_name);
    assert forall|j: int|
        0 <= j < i && #[trigger] last_of_name(images.take(i + 1), after, j) implies last_of_name(
            images.take(i),
            before,
            j,
        ) && (after[i] is Ok ==> images[i].name != images[j].name) by {
        assert(images.take(i + 1)[i] == images[i]);
        assert(images.take(i + 1)[j] == images[j]);
        assert forall|m: int| j < m < images.take(i).len() && #[trigger] before[m] is Ok implies images.take(i)[m].name != images.take(i)[j].name by {
            assert(after[m] == before[m]);
            assert(images.take(i + 1)[m] == images[m]);
        }
    }

    assert forall|n: u32| #[trigger] installed_name(images.take(i), before, n) implies installed_name(images.take(i + 1), after, n) by {
        let j = choose|j: int| 0 <= j < i && #[trigger] before[j] is Ok && images.take(i)[j].name == n;
        assert(after[j] == before[j]);
        assert(images.take(i + 1)[j] == images[j]);
    }
    assert forall|n: u32| after[i] is Ok && images[i].name == n implies #[trigger] installed_name(images.take(i + 1), after, n) by {
        assert(images.take(i + 1)[i] == images[i]);
    }
}

/// Whether no image after the `i`-th with the same name was installed.
#[verifier::opaque]
pub open spec fn last_of_name(
    images: Seq<Module>,
    results: Seq<Result<ModuleHandle, LoadError>>,
    i: int,
) -> bool {
    forall|j: int|
        i < j < images.len() && #[trigger] results[j] is Ok ==> images[j].name != images[i].name
}


/// Export `i` of the resident module `h` has a body.
spec fn resident_exports_resolved(h: ModuleHandle, i: int) -> bool {
    0 <= i < h.module.exports@.len() ==> h.module.funs.entries().contains_key(
        (h.module.exports@[i].0, h.module.exports@[i].1),
    )
}

} // verus!
