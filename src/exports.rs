use crate::module::{Module, MFA};
use std::sync::Arc;
use vstd::prelude::*;

verus! {

/// A resident module, shared by whoever holds it: the registry, the
/// exports table and any call in flight.
pub struct ModuleHandle {
    pub module: Arc<Module>,
    /// Install number; tells apart the versions of one module name.
    pub generation: u64,
}

/// Relies on `Arc::clone`: a second pointer to the same module.
#[verifier::external_body]
fn share(m: &Arc<Module>) -> (r: Arc<Module>)
    ensures
        r == *m,
{
    Arc::clone(m)
}

impl Clone for ModuleHandle {
    fn clone(&self) -> (r: Self)
        ensures
            r == *self,
    {
        ModuleHandle { module: share(&self.module), generation: self.generation }
    }
}

/// A call target: a module and the instruction offset of a function in it.
pub struct EntryPoint {
    pub module: ModuleHandle,
    pub offset: u32,
}

impl Clone for EntryPoint {
    fn clone(&self) -> (r: Self)
        ensures
            r == *self,
    {
        EntryPoint { module: self.module.clone(), offset: self.offset }
    }
}

/// The target that the last entry for `k` in `s` records.
pub open spec fn last_target(s: Seq<(MFA, EntryPoint)>, k: MFA) -> Option<EntryPoint>
    decreases s.len(),
{
    if s.len() == 0 {
        None
    } else if s.last().0 == k {
        Some(s.last().1)
    } else {
        last_target(s.drop_last(), k)
    }
}

/// The map from function reference to entry point that every call between
/// modules goes through.
pub struct ExportsTable {
    entries: Vec<(MFA, EntryPoint)>,
}

/// `after` is `before` with `k` mapped to `ep`.
pub open spec fn registered(before: ExportsTable, after: ExportsTable, k: MFA, ep: EntryPoint) -> bool {
    forall|x: MFA|
        #[trigger] after.get(x) == if x == k {
            Some(ep)
        } else {
            before.get(x)
        }
}

impl ExportsTable {
    /// The entry point that `k` resolves to.
    pub closed spec fn get(&self, k: MFA) -> Option<EntryPoint> {
        last_target(self.entries@, k)
    }

    /// A table that resolves nothing.
    pub fn new() -> (r: Self)
        ensures
            forall|k: MFA| #[trigger] r.get(k) is None,
    {
        ExportsTable { entries: Vec::new() }
    }

    /// Maps `mfa` to `ep`, replacing what it mapped to before.
    pub fn register(&mut self, mfa: MFA, ep: EntryPoint)
        ensures
            registered(*old(self), *final(self), mfa, ep),
    {
        self.entries.push((mfa, ep));
        proof {
            assert(self.entries@.drop_last() =~= old(self).entries@);
        }
    }

    /// The entry point that `mfa` resolves to; `None` when nothing is
    /// registered for it.
    pub fn resolve(&self, mfa: MFA) -> (r: Option<EntryPoint>)
        ensures
            r == self.get(mfa),
    {
        let mut i: usize = self.entries.len();
        proof {
            assert(self.entries@.take(i as int) =~= self.entries@);
        }
        while i > 0
            invariant
                i <= self.entries@.len(),
                last_target(self.entries@.take(i as int), mfa) == self.get(mfa),
            decreases i,
        {
            proof {
                assert(self.entries@.take(i as int).drop_last() =~= self.entries@.take(i - 1));
            }
            if self.entries[i - 1].0 == mfa {
                return Some(self.entries[i - 1].1.clone());
            }
            i = i - 1;
        }
        proof {
            assert(self.entries@.take(0) =~= Seq::<(MFA, EntryPoint)>::empty());
        }
        None
    }

    /// Drops every entry of module `name`.
    pub fn purge_module(&mut self, name: u32)
        ensures
            forall|k: MFA|
                #[trigger] final(self).get(k) == if k.0 == name {
                    None
                } else {
                    old(self).get(k)
                },
    {
        let ghost old_entries = self.entries@;
        let mut kept: Vec<(MFA, EntryPoint)> = Vec::new();
        let mut i: usize = 0;
        while i < self.entries.len()
            invariant
                self.entries@ == old_entries,
                i <= old_entries.len(),
                forall|k: MFA|
                    #[trigger] last_target(kept@, k) == if k.0 == name {
                        None
                    } else {
                        last_target(old_entries.take(i as int), k)
                    },
            decreases old_entries.len() - i,
        {
            let ghost before = kept@;
            proof {
                assert(old_entries.take(i + 1).drop_last() =~= old_entries.take(i as int));
            }
            if self.entries[i].0.0 != name {
                let e = (self.entries[i].0, self.entries[i].1.clone());
                kept.push(e);
                proof {
                    assert(kept@.drop_last() =~= before);
                }
            }
            proof {
                let t = old_entries.take(i + 1);
                assert(t.last() == old_entries[i as int]);
                assert forall|k: MFA|
                    #[trigger] last_target(kept@, k) == if k.0 == name {
                        None
                    } else {
                        last_target(t, k)
                    } by {
                    assert(last_target(before, k) == if k.0 == name {
                        None
                    } else {
                        last_target(old_entries.take(i as int), k)
                    });
                }
            }
            i = i + 1;
        }
        proof {
            assert(old_entries.take(old_entries.len() as int) =~= old_entries);
        }
        self.entries = kept;
    }
}

/// Registering the same target twice for a reference leaves it resolving to
/// that target, as registering it once does.
pub proof fn law_register_idempotent(
    t0: ExportsTable,
    t1: ExportsTable,
    t2: ExportsTable,
    k: MFA,
    ep: EntryPoint,
)
    requires
        registered(t0, t1, k, ep),
        registered(t1, t2, k, ep),
    ensures
        t2.get(k) == Some(ep),
        forall|x: MFA| #[trigger] t2.get(x) == t1.get(x),
{
    assert(t2.get(k) == Some(ep));
}

} // verus!
