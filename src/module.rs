use vstd::prelude::*;

verus! {

/// A function reference: module atom, function atom and arity.
#[derive(Debug, Copy, Clone, PartialEq, Eq, Hash, Ord, PartialOrd, Structural)]
pub struct MFA(pub u32, pub u32, pub u32);

/// A closure template of a module.
#[derive(Debug, Copy, Clone, PartialEq, Eq, Structural)]
pub struct Lambda {
    /// Atom of the function that defines the closure.
    pub name: u32,
    pub arity: u32,
    /// Instruction offset of the closure's body.
    pub offset: u32,
    /// Position of the template in its module's closure table.
    pub index: u32,
    /// Number of captured free variables.
    pub nfree: u32,
    /// Tells apart structurally equal closures of different code versions.
    pub ouniq: u32,
}

/// The functions of a module: `(function atom, arity)` to instruction offset.
#[verifier::external_body]
pub struct FunTable {
    map: hashbrown::HashMap<(u32, u32), u32>,
}

/// A table of no functions.
pub open spec fn no_funs() -> Map<(u32, u32), u32> {
    Map::empty()
}

/// What a function table holds.
pub uninterp spec fn fun_entries(t: FunTable) -> Map<(u32, u32), u32>;

/// Relies on `hashbrown::HashMap::new`: an empty map.
#[verifier::external_body]
fn fun_table_new() -> (r: FunTable)
    ensures
        fun_entries(r) == no_funs(),
{
    FunTable { map: hashbrown::HashMap::new() }
}

/// Relies on `hashbrown::HashMap::insert`: the key maps to the value, which
/// replaces any earlier one.
#[verifier::external_body]
fn fun_table_insert(t: &mut FunTable, key: (u32, u32), offset: u32)
    ensures
        fun_entries(*final(t)) == fun_entries(*old(t)).insert(key, offset),
{
    t.map.insert(key, offset);
}

/// Relies on `hashbrown::HashMap::get`: the value the key maps to, if any.
#[verifier::external_body]
fn fun_table_get(t: &FunTable, key: (u32, u32)) -> (r: Option<u32>)
    ensures
        r == (if fun_entries(*t).contains_key(key) {
            Some(fun_entries(*t)[key])
        } else {
            None
        }),
{
    t.map.get(&key).copied()
}

impl FunTable {
    pub closed spec fn entries(&self) -> Map<(u32, u32), u32> {
        fun_entries(*self)
    }

    /// A table with no functions.
    pub fn new() -> (r: Self)
        ensures
            r.entries() == no_funs(),
    {
        fun_table_new()
    }

    /// Records that function `f` of arity `arity` starts at `offset`.
    pub fn insert(&mut self, f: u32, arity: u32, offset: u32)
        ensures
            final(self).entries() == old(self).entries().insert((f, arity), offset),
    {
        fun_table_insert(self, (f, arity), offset)
    }

    /// Where function `f` of arity `arity` starts, if the table has it.
    pub fn get(&self, f: u32, arity: u32) -> (r: Option<u32>)
        ensures
            r == (if self.entries().contains_key((f, arity)) {
                Some(self.entries()[(f, arity)])
            } else {
                None
            }),
    {
        fun_table_get(self, (f, arity))
    }
}

/// A decoded module. Once installed it is never changed, only superseded.
pub struct Module {
    /// Outside functions it calls, resolved at call time.
    pub imports: Vec<MFA>,
    /// What it exports, each as `MFA(function, arity, label)`.
    pub exports: Vec<MFA>,
    /// Its constant literals, as boxed term words.
    pub literals: Vec<u64>,
    /// Its closure templates, by closure index.
    pub lambdas: Vec<Lambda>,
    /// `(function, arity)` to instruction offset.
    pub funs: FunTable,
    /// The decoded instruction stream.
    pub instructions: Vec<u64>,
    /// Line information, for debugging only.
    pub lines: Vec<u32>,
    /// Atom of the module's name.
    pub name: u32,
    /// Atom of the function to run once the module is loaded.
    pub on_load: Option<u32>,
}

/// Why a module was not installed.
#[derive(Debug, Copy, Clone, PartialEq, Eq, Structural)]
pub enum LoadError {
    /// The image is malformed: a closure template out of its place.
    DecodeError,
    /// An export has no function body.
    UnresolvedExport,
    /// The module's `on_load` function failed.
    OnLoadFailure,
}

/// Whether export `e` names a function of `funs`.
pub open spec fn export_resolved(funs: Map<(u32, u32), u32>, e: MFA) -> bool {
    funs.contains_key((e.0, e.1))
}

impl Module {
    /// Every closure template sits at the index it carries.
    pub open spec fn well_formed(&self) -> bool {
        forall|i: int| 0 <= i < self.lambdas@.len() ==> self.lambdas@[i].index == i
    }

    /// Every export has a body.
    pub open spec fn exports_resolved(&self) -> bool {
        forall|i: int|
            0 <= i < self.exports@.len() ==> export_resolved(self.funs.entries(), self.exports@[i])
    }

    /// Whether function `f` of arity `arity` is among the exports.
    pub open spec fn exports_fn(&self, f: u32, arity: u32) -> bool {
        exists|i: int|
            0 <= i < self.exports@.len() && self.exports@[i].0 == f && self.exports@[i].1 == arity
    }

    /// Checks that the closure templates sit at their indices.
    pub fn check_lambdas(&self) -> (r: bool)
        ensures
            r == self.well_formed(),
    {
        let mut i: usize = 0;
        while i < self.lambdas.len()
            invariant
                i <= self.lambdas@.len(),
                forall|j: int| 0 <= j < i ==> self.lambdas@[j].index == j,
            decreases self.lambdas@.len() - i,
        {
            if self.lambdas[i].index as usize != i {
                return false;
            }
            i = i + 1;
        }
        true
    }

    /// Checks that every export has a body.
    pub fn check_exports(&self) -> (r: bool)
        ensures
            r == self.exports_resolved(),
    {
        let mut i: usize = 0;
        while i < self.exports.len()
            invariant
                i <= self.exports@.len(),
                forall|j: int|
                    0 <= j < i ==> export_resolved(self.funs.entries(), self.exports@[j]),
            decreases self.exports@.len() - i,
        {
            let e = self.exports[i];
            if self.funs.get(e.0, e.1).is_none() {
                return false;
            }
            i = i + 1;
        }
        true
    }

    /// Checks the image before it is installed.
    pub fn validate(&self) -> (r: Result<(), LoadError>)
        ensures
            r == (if !self.well_formed() {
                Err(LoadError::DecodeError)
            } else if !self.exports_resolved() {
                Err(LoadError::UnresolvedExport)
            } else {
                Ok(())
            }),
    {
        if !self.check_lambdas() {
            Err(LoadError::DecodeError)
        } else if !self.check_exports() {
            Err(LoadError::UnresolvedExport)
        } else {
            Ok(())
        }
    }
}

} // verus!
