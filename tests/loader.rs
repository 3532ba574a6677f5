use enigma_loader::bif::BifRegistry;
use enigma_loader::exports::ExportsTable;
use enigma_loader::module::{FunTable, Lambda, LoadError, Module, MFA};
use enigma_loader::registry::Registry;
use enigma_loader::vm::CodeServer;

const MATH: u32 = 1;
const ADD: u32 = 2;
const SUB: u32 = 3;
const MUL: u32 = 4;
const APP: u32 = 5;
const MAIN: u32 = 6;
const LIB: u32 = 7;
const HELPER: u32 = 8;
const INIT: u32 = 9;

fn image(name: u32, funs: &[(u32, u32, u32)], exports: &[(u32, u32)]) -> Module {
    let mut table = FunTable::new();
    for &(f, arity, offset) in funs {
        table.insert(f, arity, offset);
    }
    Module {
        imports: Vec::new(),
        exports: exports.iter().map(|&(f, a)| MFA(f, a, 0)).collect(),
        literals: Vec::new(),
        lambdas: Vec::new(),
        funs: table,
        instructions: Vec::new(),
        lines: Vec::new(),
        name,
        on_load: None,
    }
}

fn math() -> Module {
    image(MATH, &[(ADD, 2, 10), (SUB, 2, 20)], &[(ADD, 2), (SUB, 2)])
}

fn offset_of(server: &CodeServer, mfa: MFA) -> Option<(u32, u32, u64)> {
    server
        .resolve(mfa)
        .map(|ep| (ep.module.module.name, ep.offset, ep.module.generation))
}

#[test]
fn math_example_resolves_exports_only() {
    let mut server = CodeServer::new(BifRegistry::new(Vec::new()));
    assert!(server.install_module(math(), true).is_ok());
    assert_eq!(Some((MATH, 10, 0)), offset_of(&server, MFA(MATH, ADD, 2)));
    assert_eq!(Some((MATH, 20, 0)), offset_of(&server, MFA(MATH, SUB, 2)));
    assert_eq!(None, offset_of(&server, MFA(MATH, MUL, 2)));
    assert_eq!(None, offset_of(&server, MFA(MATH, ADD, 3)));
}

#[test]
fn installed_module_exports_have_bodies() {
    let mut registry = Registry::new();
    let h = registry.install_or_replace(math()).ok().unwrap();
    let found = registry.lookup(MATH).unwrap();
    assert_eq!(h.generation, found.generation);
    for e in found.module.exports.iter() {
        assert!(found.module.funs.get(e.0, e.1).is_some());
    }
    assert!(registry.lookup(APP).is_none());
}

#[test]
fn register_twice_keeps_target() {
    let mut server = CodeServer::new(BifRegistry::new(Vec::new()));
    server.install_module(math(), true).ok().unwrap();
    let ep = server.resolve(MFA(MATH, ADD, 2)).unwrap();
    let mut table = ExportsTable::new();
    table.register(MFA(MATH, ADD, 2), ep.clone());
    table.register(MFA(MATH, ADD, 2), ep.clone());
    let got = table.resolve(MFA(MATH, ADD, 2)).unwrap();
    assert_eq!(10, got.offset);
    assert_eq!(MATH, got.module.module.name);
    assert!(table.resolve(MFA(MATH, SUB, 2)).is_none());
}

#[test]
fn native_override_is_never_resolved() {
    let bifs = BifRegistry::new(vec![MFA(MATH, ADD, 2)]);
    assert!(bifs.is_override(&MFA(MATH, ADD, 2)));
    assert!(!bifs.is_override(&MFA(MATH, SUB, 2)));
    let mut server = CodeServer::new(bifs);
    server.install_module(math(), true).ok().unwrap();
    server.install_module(math(), true).ok().unwrap();
    assert_eq!(None, offset_of(&server, MFA(MATH, ADD, 2)));
    assert_eq!(Some((MATH, 20, 1)), offset_of(&server, MFA(MATH, SUB, 2)));
}

#[test]
fn hot_reload_republishes_new_version() {
    let mut server = CodeServer::new(BifRegistry::new(Vec::new()));
    server.install_module(math(), true).ok().unwrap();
    let old = server.resolve(MFA(MATH, ADD, 2)).unwrap();
    let v2 = image(MATH, &[(ADD, 2, 30), (MUL, 2, 40)], &[(ADD, 2), (MUL, 2)]);
    server.install_module(v2, true).ok().unwrap();
    assert_eq!(Some((MATH, 30, 1)), offset_of(&server, MFA(MATH, ADD, 2)));
    assert_eq!(Some((MATH, 40, 1)), offset_of(&server, MFA(MATH, MUL, 2)));
    assert_eq!(None, offset_of(&server, MFA(MATH, SUB, 2)));
    assert_eq!(Some(10), old.module.module.funs.get(ADD, 2));
    assert_eq!(10, old.offset);
    assert_eq!(0, old.module.generation);
}

#[test]
fn batch_forward_reference_in_either_order() {
    for swap in [false, true] {
        let mut server = CodeServer::new(BifRegistry::new(Vec::new()));
        let mut app = image(APP, &[(MAIN, 0, 5)], &[(MAIN, 0)]);
        app.imports.push(MFA(LIB, HELPER, 1));
        let lib = image(LIB, &[(HELPER, 1, 7)], &[(HELPER, 1)]);
        let batch = if swap { vec![lib, app] } else { vec![app, lib] };
        let results = server.finish_loading_modules(batch, vec![true, true]);
        assert!(results.iter().all(|r| r.is_ok()));
        assert_eq!(Some(5), offset_of(&server, MFA(APP, MAIN, 0)).map(|t| t.1));
        assert_eq!(Some(7), offset_of(&server, MFA(LIB, HELPER, 1)).map(|t| t.1));
    }
}

#[test]
fn batch_partial_failure_keeps_siblings() {
    let mut server = CodeServer::new(BifRegistry::new(Vec::new()));
    let a = image(APP, &[(MAIN, 0, 5)], &[(MAIN, 0)]);
    let mut b = image(LIB, &[(HELPER, 1, 7)], &[(HELPER, 1)]);
    b.lambdas.push(Lambda { name: HELPER, arity: 0, offset: 1, index: 3, nfree: 0, ouniq: 0 });
    let results = server.finish_loading_modules(vec![a, b], vec![true, true]);
    assert!(results[0].is_ok());
    assert_eq!(Some(LoadError::DecodeError), results[1].as_ref().err().copied());
    assert!(server.lookup_module(APP).is_some());
    assert!(server.lookup_module(LIB).is_none());
    assert_eq!(Some(5), offset_of(&server, MFA(APP, MAIN, 0)).map(|t| t.1));
    assert_eq!(None, offset_of(&server, MFA(LIB, HELPER, 1)));
}

#[test]
fn unresolved_export_is_rejected() {
    let mut server = CodeServer::new(BifRegistry::new(Vec::new()));
    let bad = image(MATH, &[(ADD, 2, 10)], &[(ADD, 2), (SUB, 2)]);
    assert_eq!(Some(LoadError::UnresolvedExport), server.install_module(bad, true).err());
    assert!(server.lookup_module(MATH).is_none());
    assert_eq!(None, offset_of(&server, MFA(MATH, ADD, 2)));
}

#[test]
fn failed_on_load_hides_module() {
    let mut server = CodeServer::new(BifRegistry::new(Vec::new()));
    server.install_module(math(), true).ok().unwrap();
    let mut v2 = image(MATH, &[(ADD, 2, 30)], &[(ADD, 2)]);
    v2.on_load = Some(INIT);
    assert_eq!(Some(LoadError::OnLoadFailure), server.install_module(v2, false).err());
    assert_eq!(0, server.lookup_module(MATH).unwrap().generation);
    assert_eq!(Some((MATH, 10, 0)), offset_of(&server, MFA(MATH, ADD, 2)));

    let mut fresh = image(APP, &[(MAIN, 0, 5)], &[(MAIN, 0)]);
    fresh.on_load = Some(INIT);
    assert!(server.install_module(fresh, false).is_err());
    assert!(server.lookup_module(APP).is_none());
    assert_eq!(None, offset_of(&server, MFA(APP, MAIN, 0)));

    let mut ok = image(APP, &[(MAIN, 0, 5)], &[(MAIN, 0)]);
    ok.on_load = Some(INIT);
    assert!(server.install_module(ok, true).is_ok());
    assert_eq!(Some(5), offset_of(&server, MFA(APP, MAIN, 0)).map(|t| t.1));
}

#[test]
fn lambdas_out_of_place_are_a_decode_error() {
    let mut m = math();
    m.lambdas.push(Lambda { name: ADD, arity: 1, offset: 3, index: 0, nfree: 1, ouniq: 9 });
    assert_eq!(Ok(()), m.validate());
    m.lambdas.push(Lambda { name: ADD, arity: 1, offset: 3, index: 0, nfree: 1, ouniq: 9 });
    assert_eq!(Err(LoadError::DecodeError), m.validate());
}

#[test]
fn batch_failed_on_load_hides_module() {
    let mut server = CodeServer::new(BifRegistry::new(Vec::new()));
    server.install_module(math(), true).ok().unwrap();
    let mut v2 = image(MATH, &[(ADD, 2, 30)], &[(ADD, 2)]);
    v2.on_load = Some(INIT);
    let mut hooked = image(LIB, &[(HELPER, 1, 7)], &[(HELPER, 1)]);
    hooked.on_load = Some(INIT);
    let plain = image(APP, &[(MAIN, 0, 5)], &[(MAIN, 0)]);
    let results = server.finish_loading_modules(vec![v2, hooked, plain], vec![false, true, false]);
    assert_eq!(Some(LoadError::OnLoadFailure), results[0].as_ref().err().copied());
    assert!(results[1].is_ok());
    assert!(results[2].is_ok());
    assert_eq!(0, server.lookup_module(MATH).unwrap().generation);
    assert_eq!(Some((MATH, 10, 0)), offset_of(&server, MFA(MATH, ADD, 2)));
    assert_eq!(Some(7), offset_of(&server, MFA(LIB, HELPER, 1)).map(|t| t.1));
    assert_eq!(Some(5), offset_of(&server, MFA(APP, MAIN, 0)).map(|t| t.1));
}

#[test]
fn new_version_gets_next_generation() {
    let mut server = CodeServer::new(BifRegistry::new(Vec::new()));
    let v1 = server.install_module(math(), true).ok().unwrap();
    let v2 = server.install_module(math(), true).ok().unwrap();
    assert_eq!(0, v1.generation);
    assert_eq!(1, v2.generation);
    assert_eq!(1, server.lookup_module(MATH).unwrap().generation);
}
