use stoolap::zk::cairo::{
    parse_cairo_version, parse_compile_error, CairoProgram, CairoProgramHash, CairoProgramRegistry,
    CompileError, RegistryError,
};

fn registry_contains(registry: &CairoProgramRegistry, hash: &CairoProgramHash) -> bool {
    registry.get(hash).is_some()
}

#[test]
fn test_cairo_program_hash() {
    let source = "fn main() { return (); }";
    let hash1 = CairoProgram::compute_hash(source);
    let hash2 = CairoProgram::compute_hash(source);
    assert_eq!(hash1, hash2, "Same source should produce same hash");
    let hash3 = CairoProgram::compute_hash("fn main() { return 1; }");
    assert_ne!(hash1, hash3, "Different source should produce different hash");
}

#[test]
fn test_cairo_program_from_source() {
    let source = "fn main() { return (); }".to_string();
    let program = CairoProgram::from_source(source.clone(), 2);
    assert_eq!(program.source, source);
    assert_eq!(program.version, 2);
    assert!(!program.is_compiled(), "Should not be compiled (stub)");
}

#[test]
fn test_cairo_program_version_parsing() {
    assert_eq!(parse_cairo_version("2.6.0").unwrap(), 20600);
    assert_eq!(parse_cairo_version("2.6").unwrap(), 20600);
    assert_eq!(parse_cairo_version("3.0.0").unwrap(), 30000);
    assert!(parse_cairo_version("invalid").is_err());
    assert!(parse_cairo_version("a.b.c").is_err());
}

#[test]
fn test_parse_compile_error() {
    let err = parse_compile_error("error: syntax error at line 5");
    assert!(matches!(err, CompileError::SyntaxError(_)));
    let err = parse_compile_error("error: type error: expected felt252");
    assert!(matches!(err, CompileError::TypeError(_)));
    let err = parse_compile_error("some unknown error");
    assert!(matches!(err, CompileError::SyntaxError(_)));
}

#[test]
fn test_registry_new() {
    let registry = CairoProgramRegistry::new();
    assert!(registry.is_empty());
    assert_eq!(registry.len(), 0);
}

#[test]
fn test_registry_default() {
    let registry = CairoProgramRegistry::default();
    assert!(registry.is_empty());
}

#[test]
fn test_registry_register() {
    let mut registry = CairoProgramRegistry::new();
    let program = CairoProgram::from_source("fn main() { return (); }".to_string(), 2);
    assert!(registry.register(program.clone()).is_ok(), "Should successfully register program");
    assert_eq!(registry.len(), 1);
}

#[test]
fn test_registry_register_duplicate() {
    let mut registry = CairoProgramRegistry::new();
    let program = CairoProgram::from_source("fn main() { return (); }".to_string(), 2);
    registry.register(program.clone()).unwrap();
    let result = registry.register(program);
    assert!(result.is_err(), "Should fail to register duplicate");
    assert_eq!(registry.len(), 1, "Should still have only 1 program");
}

#[test]
fn test_registry_get() {
    let mut registry = CairoProgramRegistry::new();
    let program = CairoProgram::from_source("fn main() { return (); }".to_string(), 2);
    let hash = program.hash;
    registry.register(program).unwrap();
    let retrieved = registry.get(&hash);
    assert!(retrieved.is_some(), "Should retrieve registered program");
    assert_eq!(retrieved.unwrap().hash, hash);
}

#[test]
fn test_registry_get_not_found() {
    let registry = CairoProgramRegistry::new();
    assert!(registry.get(&[0u8; 32]).is_none(), "Should not find unregistered program");
}

#[test]
fn test_registry_remove() {
    let mut registry = CairoProgramRegistry::new();
    let program = CairoProgram::from_source("fn main() { return (); }".to_string(), 2);
    let hash = program.hash;
    registry.register(program).unwrap();
    assert_eq!(registry.len(), 1);
    assert!(registry.remove(&hash).is_ok(), "Should successfully remove program");
    assert_eq!(registry.len(), 0);
}

#[test]
fn test_registry_remove_not_found() {
    let mut registry = CairoProgramRegistry::new();
    assert!(registry.remove(&[0u8; 32]).is_err(), "Should fail to remove non-existent program");
}

#[test]
fn test_allowlist_add() {
    let mut registry = CairoProgramRegistry::new();
    let program = CairoProgram::from_source("fn main() { return (); }".to_string(), 2);
    let hash = program.hash;
    registry.register(program).unwrap();
    registry.allowlist_add(hash).unwrap();
    assert!(registry.is_allowed(&hash), "Program should be allowed");
}

#[test]
fn test_allowlist_add_not_found() {
    let mut registry = CairoProgramRegistry::new();
    assert!(registry.allowlist_add([0u8; 32]).is_err(), "Should fail to add non-existent program");
}

#[test]
fn test_allowlist_remove() {
    let mut registry = CairoProgramRegistry::new();
    let program = CairoProgram::from_source("fn main() { return (); }".to_string(), 2);
    let hash = program.hash;
    registry.register(program).unwrap();
    registry.allowlist_add(hash).unwrap();
    assert!(registry.is_allowed(&hash));
    registry.allowlist_remove(&hash).unwrap();
    assert!(!registry.is_allowed(&hash), "Program should not be allowed");
}

#[test]
fn test_allowlist_not_in_allowlist() {
    let mut registry = CairoProgramRegistry::new();
    assert!(registry.allowlist_remove(&[0u8; 32]).is_err(), "Should fail to remove non-allowed program");
}

#[test]
fn test_is_allowed() {
    let mut registry = CairoProgramRegistry::new();
    let program = CairoProgram::from_source("fn main() { return (); }".to_string(), 2);
    let hash = program.hash;
    registry.register(program).unwrap();
    assert!(!registry.is_allowed(&hash), "Program should not be allowed initially");
    registry.allowlist_add(hash).unwrap();
    assert!(registry.is_allowed(&hash), "Program should be allowed after allowlist_add");
}

#[test]
fn test_registry_keys() {
    let mut registry = CairoProgramRegistry::new();
    registry.register(CairoProgram::from_source("fn main() { return (); }".to_string(), 2)).unwrap();
    registry.register(CairoProgram::from_source("fn main() { return 1; }".to_string(), 2)).unwrap();
    let keys = registry.keys();
    assert_eq!(keys.len(), 2);
}

#[test]
fn test_registry_allowed_keys() {
    let mut registry = CairoProgramRegistry::new();
    let program1 = CairoProgram::from_source("fn main() { return (); }".to_string(), 2);
    let program2 = CairoProgram::from_source("fn main() { return 1; }".to_string(), 2);
    let hash1 = program1.hash;
    registry.register(program1).unwrap();
    registry.register(program2).unwrap();
    registry.allowlist_add(hash1).unwrap();
    let allowed = registry.allowed_keys();
    assert_eq!(allowed.len(), 1);
    assert_eq!(allowed[0], hash1);
}

#[test]
fn test_register_and_retrieve_program() {
    let mut registry = CairoProgramRegistry::new();
    let source = "fn main() { return 42; }".to_string();
    let program = CairoProgram::from_source(source.clone(), 2);
    let program_hash = program.hash;
    assert!(registry.register(program).is_ok(), "Registration should succeed");
    let retrieved = registry.get(&program_hash);
    assert!(retrieved.is_some(), "Program should be retrievable");
    assert_eq!(retrieved.unwrap().source, source, "Source should match");
}

#[test]
fn test_register_duplicate_program_fails() {
    let mut registry = CairoProgramRegistry::new();
    let program = CairoProgram::from_source("fn main() { return 42; }".to_string(), 2);
    assert!(registry.register(program.clone()).is_ok());
    assert!(registry.register(program).is_err(), "Duplicate registration should fail");
}

#[test]
fn test_program_allowlist_enforcement() {
    let mut registry = CairoProgramRegistry::new();
    let program = CairoProgram::from_source("fn main() {}".to_string(), 2);
    let hash = program.hash;
    registry.register(program).unwrap();
    assert!(!registry.is_allowed(&hash), "New programs should not be on allowlist");
    registry.allowlist_add(hash).unwrap();
    assert!(registry.is_allowed(&hash), "Program should be allowed after allowlist_add()");
    registry.allowlist_remove(&hash).unwrap();
    assert!(!registry.is_allowed(&hash), "Program should not be allowed after allowlist_remove()");
}

#[test]
fn test_registry_persistence_across_operations() {
    let mut registry = CairoProgramRegistry::new();
    let program1 = CairoProgram::from_source("fn main() { return 1; }".to_string(), 2);
    let program2 = CairoProgram::from_source("fn main() { return 2; }".to_string(), 2);
    let hash1 = program1.hash;
    let hash2 = program2.hash;
    registry.register(program1).unwrap();
    registry.register(program2).unwrap();
    assert!(registry_contains(&registry, &hash1));
    assert!(registry_contains(&registry, &hash2));
    registry.allowlist_add(hash1).unwrap();
    assert!(registry.is_allowed(&hash1));
    assert!(!registry.is_allowed(&hash2));
    registry.allowlist_remove(&hash1).unwrap();
    assert!(!registry.is_allowed(&hash1));
    assert!(!registry.is_allowed(&hash2));
}

// Own tests: exact values and each error variant.

#[test]
fn version_with_prefix_text_and_padding() {
    assert_eq!(parse_cairo_version("  Cairo compiler version 2.6.3 \n").unwrap(), 20603);
    assert_eq!(parse_cairo_version("cairo-lang-compile 10.20.30").unwrap(), 102030);
    assert_eq!(parse_cairo_version("+2.+6").unwrap(), 20600);
    assert_eq!(parse_cairo_version("2.6.0.9").unwrap(), 20600);
}

#[test]
fn version_errors_carry_the_token() {
    assert_eq!(parse_cairo_version("version 7"), Err(CompileError::InvalidVersion("7".to_string())));
    assert_eq!(parse_cairo_version("   "), Err(CompileError::InvalidVersion("   ".to_string())));
    assert_eq!(parse_cairo_version("2.x"), Err(CompileError::InvalidVersion("2.x".to_string())));
    assert_eq!(parse_cairo_version("2.6.-1"), Err(CompileError::InvalidVersion("2.6.-1".to_string())));
    assert_eq!(parse_cairo_version("4294967296.0"), Err(CompileError::InvalidVersion("4294967296.0".to_string())));
}

#[test]
fn compile_error_texts_are_trimmed() {
    assert_eq!(parse_compile_error("  unexpected token `}`\n"), CompileError::SyntaxError("unexpected token `}`".to_string()));
    assert_eq!(parse_compile_error("type mismatch\t"), CompileError::TypeError("type mismatch".to_string()));
    assert_eq!(
        parse_compile_error("type error after syntax error"),
        CompileError::SyntaxError("type error after syntax error".to_string())
    );
}

#[test]
fn registry_error_variants() {
    let mut registry = CairoProgramRegistry::new();
    let program = CairoProgram::from_source("fn main() {}".to_string(), 2);
    let hash = program.hash;
    assert_eq!(registry.allowlist_add(hash), Err(RegistryError::NotFound(hash)));
    assert_eq!(registry.remove(&hash), Err(RegistryError::NotFound(hash)));
    registry.register(program.clone()).unwrap();
    assert_eq!(registry.register(program), Err(RegistryError::AlreadyExists(hash)));
    assert_eq!(registry.allowlist_remove(&hash), Err(RegistryError::NotInAllowlist(hash)));
}

#[test]
fn removing_a_program_takes_it_off_the_allowlist() {
    let mut registry = CairoProgramRegistry::new();
    let program = CairoProgram::from_source("fn main() {}".to_string(), 2);
    let hash = program.hash;
    registry.register(program).unwrap();
    registry.allowlist_add(hash).unwrap();
    let removed = registry.remove(&hash).unwrap();
    assert_eq!(removed.hash, hash);
    assert!(!registry.is_allowed(&hash));
    assert!(registry.allowed_keys().is_empty());
}

#[test]
fn program_hash_is_blake3_of_source() {
    let h = CairoProgram::compute_hash("abc");
    assert_eq!(h, *blake3::hash(b"abc").as_bytes());
}

#[test]
fn compiled_program_keeps_its_artifacts() {
    let p = CairoProgram::from_compiled("fn main() {}", vec![1], vec![2, 3]);
    assert!(p.is_compiled());
    assert_eq!(p.version, 20600);
    assert_eq!(p.hash, CairoProgram::compute_hash("fn main() {}"));
    let q = CairoProgram::from_compiled("fn main() {}", vec![], vec![2]);
    assert!(!q.is_compiled());
}
