use crate::exports::ModuleHandle;
use crate::module::{LoadError, Module};
use std::sync::Arc;
use vstd::prelude::*;

verus! {

/// The last module named `name` in `s`.
pub open spec fn last_module(s: Seq<ModuleHandle>, name: u32) -> Option<ModuleHandle>
    decreases s.len(),
{
    if s.len() == 0 {
        None
    } else if s.last().module.name == name {
        Some(s.last())
    } else {
        last_module(s.drop_last(), name)
    }
}

/// What a resident module satisfies.
pub open spec fn resident_ok(h: ModuleHandle, name: u32, next_generation: u64) -> bool {
    &&& h.module.name == name
    &&& h.module.well_formed()
    &&& h.module.exports_resolved()
    &&& h.generation < next_generation
}

/// The modules now resident, at most one for each name.
pub struct Registry {
    modules: Vec<ModuleHandle>,
    next_generation: u64,
}

impl Registry {
    /// The resident module named `name`.
    pub closed spec fn get(&self, name: u32) -> Option<ModuleHandle> {
        last_module(self.modules@, name)
    }

    /// The generation that the next install gets.
    pub closed spec fn next_generation(&self) -> u64 {
        self.next_generation
    }

    pub closed spec fn wf(&self) -> bool {
        forall|name: u32|
            #[trigger] self.get(name) matches Some(h) ==> resident_ok(
                h,
                name,
                self.next_generation,
            )
    }

    /// A resident module is valid, carries its name and an earlier
    /// generation.
    pub proof fn lemma_resident(&self, name: u32)
        requires
            self.wf(),
            self.get(name) is Some,
        ensures
            resident_ok(self.get(name)->Some_0, name, self.next_generation()),
    {
    }

    /// A registry with no modules.
    pub fn new() -> (r: Self)
        ensures
            r.wf(),
            r.next_generation() == 0,
            forall|name: u32| #[trigger] r.get(name) is None,
    {
        Registry { modules: Vec::new(), next_generation: 0 }
    }

    /// How many more installs the generation counter allows.
    pub fn generations_left(&self) -> (r: u64)
        ensures
            r == u64::MAX - self.next_generation(),
    {
        u64::MAX - self.next_generation
    }

    /// The resident module named `name`, if any.
    pub fn lookup(&self, name: u32) -> (r: Option<ModuleHandle>)
        ensures
            r == self.get(name),
    {
        let mut i: usize = self.modules.len();
        proof {
            assert(self.modules@.take(i as int) =~= self.modules@);
        }
        while i > 0
            invariant
                i <= self.modules@.len(),
                last_module(self.modules@.take(i as int), name) == self.get(name),
            decreases i,
        {
            proof {
                assert(self.modules@.take(i as int).drop_last() =~= self.modules@.take(i - 1));
            }
            if self.modules[i - 1].module.name == name {
                return Some(self.modules[i - 1].clone());
            }
            i = i - 1;
        }
        proof {
            assert(self.modules@.take(0) =~= Seq::<ModuleHandle>::empty());
        }
        None
    }

    /// Drops the module named `name`.
    fn remove(&mut self, name: u32)
        requires
            old(self).wf(),
        ensures
            final(self).wf(),
            final(self).next_generation() == old(self).next_generation(),
            forall|n: u32|
                #[trigger] final(self).get(n) == if n == name {
                    None
                } else {
                    old(self).get(n)
                },
    {
        let ghost old_modules = self.modules@;
        let mut kept: Vec<ModuleHandle> = Vec::new();
        let mut i: usize = 0;
        while i < self.modules.len()
            invariant
                self.modules@ == old_modules,
                i <= old_modules.len(),
                forall|n: u32|
                    #[trigger] last_module(kept@, n) == if n == name {
                        None
                    } else {
                        last_module(old_modules.take(i as int), n)
                    },
            decreases old_modules.len() - i,
        {
            let ghost before = kept@;
            proof {
                assert(old_modules.take(i + 1).drop_last() =~= old_modules.take(i as int));
            }
            if self.modules[i].module.name != name {
                kept.push(self.modules[i].clone());
                proof {
                    assert(kept@.drop_last() =~= before);
                }
            }
            proof {
                let t = old_modules.take(i + 1);
                assert(t.last() == old_modules[i as int]);
                assert forall|n: u32|
                    #[trigger] last_module(kept@, n) == if n == name {
                        None
                    } else {
                        last_module(t, n)
                    } by {
                    assert(last_module(before, n) == if n == name {
                        None
                    } else {
                        last_module(old_modules.take(i as int), n)
                    });
                }
            }
            i = i + 1;
        }
        proof {
            assert(old_modules.take(old_modules.len() as int) =~= old_modules);
        }
        self.modules = kept;
        proof {
            assert forall|n: u32|
                #[trigger] self.get(n) matches Some(h) ==> resident_ok(
                    h,
                    n,
                    self.next_generation,
                ) by {
                if n != name {
                    assert(old(self).get(n) == self.get(n));
                }
            }
        }
    }

    /// Checks `image` and makes it the resident module of its name, in
    /// place of any earlier one. Nothing changes when the check fails.
    pub fn install_or_replace(&mut self, image: Module) -> (r: Result<ModuleHandle, LoadError>)
        requires
            old(self).wf(),
            old(self).next_generation() < u64::MAX,
        ensures
            final(self).wf(),
            !image.well_formed() ==> r == Err::<ModuleHandle, LoadError>(LoadError::DecodeError),
            image.well_formed() && !image.exports_resolved() ==> r == Err::<
                ModuleHandle,
                LoadError,
            >(LoadError::UnresolvedExport),
            r is Err ==> *final(self) == *old(self),
            image.well_formed() && image.exports_resolved() ==> r is Ok,
            r matches Ok(h) ==> {
                &&& *h.module == image
                &&& h.generation == old(self).next_generation()
                &&& final(self).next_generation() == old(self).next_generation() + 1
                &&& final(self).get(image.name) == Some(h)
                &&& forall|n: u32|
                    n != image.name ==> #[trigger] final(self).get(n) == old(self).get(n)
            },
    {
        match image.validate() {
            Err(e) => Err(e),
            Ok(()) => {
                let name = image.name;
                self.remove(name);
                let ghost mid = self.modules@;
                let ghost mid_reg = *self;
                let h = ModuleHandle { module: Arc::new(image), generation: self.next_generation };
                self.modules.push(h.clone());
                self.next_generation = self.next_generation + 1;
                proof {
                    assert(self.modules@.drop_last() =~= mid);
                    assert forall|n: u32|
                        #[trigger] self.get(n) == if n == name {
                            Some(h)
                        } else {
                            old(self).get(n)
                        } by {
                        assert(mid_reg.get(n) == if n == name {
                            None
                        } else {
                            old(self).get(n)
                        });
                    }
                }
                Ok(h)
            },
        }
    }
}

} // verus!
