//! Cairo programs and the registry of programs approved for on-chain use.

use vstd::prelude::*;
use vstd::utf8::encode_utf8;
use crate::digest::{blake3, blake3_digest};
use crate::keyorder::{lemma_lex_order, strictly_sorted, ByteKey, SortedMap};
use crate::text::{
    chars_of, contains_chars, contains_seq, copy_chars, parse_u32, parse_u32_spec, split_chars,
    split_on, string_from_chars, trailing_token, trailing_token_start, trim, trim_bounds,
};

verus! {

/// Lowest supported Cairo compiler version (2.6.0).
pub const MIN_CAIRO_VERSION: u32 = 20600;

/// Cairo compiler version recorded for fully compiled programs (2.6.0).
pub const DEFAULT_CAIRO_VERSION: u32 = 20600;

/// Cairo program identifier: the BLAKE3 hash of its source code.
pub type CairoProgramHash = [u8; 32];

/// A Cairo program with its compiled artifacts.
#[derive(Debug, Clone, PartialEq, Eq)]
pub struct CairoProgram {
    /// BLAKE3 hash of the source code (unique identifier)
    pub hash: CairoProgramHash,
    /// Cairo source code
    pub source: String,
    /// Sierra intermediate representation
    pub sierra: Vec<u8>,
    /// Cairo Assembly Machine code
    pub casm: Vec<u8>,
    /// Cairo compiler version
    pub version: u32,
}

/// The identifier of a source text.
pub open spec fn source_hash(source: Seq<char>) -> Seq<u8> {
    blake3(encode_utf8(source))
}

impl CairoProgram {
    /// An uncompiled program for `source`.
    pub fn from_source(source: String, version: u32) -> (r: Self)
        ensures
            r.hash@ == source_hash(source@),
            r.source == source,
            r.sierra@.len() == 0,
            r.casm@.len() == 0,
            r.version == version,
    {
        let hash = Self::compute_hash(source.as_str());
        CairoProgram { hash, source, sierra: Vec::new(), casm: Vec::new(), version }
    }

    /// The BLAKE3 hash of the source's UTF-8 bytes.
    pub fn compute_hash(source: &str) -> (r: CairoProgramHash)
        ensures
            r@ == source_hash(source@),
    {
        blake3_digest(source.as_bytes())
    }

    /// A fully compiled program from its source and the compiler's output,
    /// recorded with the default compiler version.
    pub fn from_compiled(source: &str, sierra: Vec<u8>, casm: Vec<u8>) -> (r: Self)
        ensures
            r.hash@ == source_hash(source@),
            r.source@ == source@,
            r.sierra == sierra,
            r.casm == casm,
            r.version == DEFAULT_CAIRO_VERSION,
    {
        let hash = Self::compute_hash(source);
        CairoProgram { hash, source: source.to_string(), sierra, casm, version: DEFAULT_CAIRO_VERSION }
    }

    /// Whether both the Sierra and the CASM artifacts are present.
    pub fn is_compiled(&self) -> (r: bool)
        ensures
            r == (self.sierra@.len() > 0 && self.casm@.len() > 0),
    {
        self.sierra.len() > 0 && self.casm.len() > 0
    }
}

/// Whether a compiler of this version is recent enough.
pub fn is_supported_cairo_version(version: u32) -> (r: bool)
    ensures
        r == (version >= MIN_CAIRO_VERSION),
{
    version >= MIN_CAIRO_VERSION
}

/// Cairo program compilation error.
#[derive(Debug, Clone, PartialEq, Eq)]
pub enum CompileError {
    /// Feature not implemented yet
    NotImplemented(String),
    /// Syntax error in Cairo source
    SyntaxError(String),
    /// Type error during compilation
    TypeError(String),
    /// Compiler not found
    CompilerNotFound,
    /// Invalid Cairo compiler version
    InvalidVersion(String),
}

/// The word of a compiler's version output that names the version: the
/// last whitespace-separated word, or the whole text when it has none.
pub open spec fn version_token(s: Seq<char>) -> Seq<char> {
    if trim(s).len() == 0 {
        s
    } else {
        trailing_token(trim(s))
    }
}

/// The version `major.minor[.patch...]` read from `s`, encoded as
/// `major * 10000 + minor * 100 + patch` (patch 0 when absent); `None`
/// when the token has fewer than two dot-separated parts or one of the
/// first three does not parse as a `u32`.
pub open spec fn version_number(s: Seq<char>) -> Option<int> {
    let parts = split_on(version_token(s), '.');
    if parts.len() < 2 {
        None
    } else {
        let patch = if parts.len() > 2 {
            parse_u32_spec(parts[2])
        } else {
            Some(0u32)
        };
        match (parse_u32_spec(parts[0]), parse_u32_spec(parts[1]), patch) {
            (Some(a), Some(b), Some(c)) => Some(a * 10000 + b * 100 + c),
            _ => None,
        }
    }
}

/// Parses a compiler version such as `"2.6.0"` or
/// `"Cairo compiler version 2.6.0"` into `major * 10000 + minor * 100 + patch`.
pub fn parse_cairo_version(version_str: &str) -> (r: Result<u32, CompileError>)
    requires
        version_number(version_str@) matches Some(v) ==> v <= u32::MAX,
    ensures
        match version_number(version_str@) {
            Some(v) => r == Ok::<u32, CompileError>(v as u32),
            None => r matches Err(CompileError::InvalidVersion(t)) && t@ == version_token(
                version_str@,
            ),
        },
{
    let cs = chars_of(version_str);
    let (a, b) = trim_bounds(cs.as_slice());
    let token: Vec<char> = if a == b {
        cs
    } else {
        let k = trailing_token_start(cs.as_slice(), a, b);
        copy_chars(cs.as_slice(), k, b)
    };
    assert(token@ == version_token(version_str@));
    let parts = split_chars(token.as_slice(), '.');
    if parts.len() < 2 {
        return Err(CompileError::InvalidVersion(string_from_chars(token.as_slice())));
    }
    assert(parts@[0]@ == split_on(token@, '.')[0]);
    assert(parts@[1]@ == split_on(token@, '.')[1]);
    let major = match parse_u32(parts[0].as_slice()) {
        Some(v) => v,
        None => {
            return Err(CompileError::InvalidVersion(string_from_chars(token.as_slice())));
        },
    };
    let minor = match parse_u32(parts[1].as_slice()) {
        Some(v) => v,
        None => {
            return Err(CompileError::InvalidVersion(string_from_chars(token.as_slice())));
        },
    };
    let patch: u32 = if parts.len() > 2 {
        assert(parts@[2]@ == split_on(token@, '.')[2]);
        match parse_u32(parts[2].as_slice()) {
            Some(v) => v,
            None => {
                return Err(CompileError::InvalidVersion(string_from_chars(token.as_slice())));
            },
        }
    } else {
        0
    };
    Ok(major * 10000 + minor * 100 + patch)
}

/// Whether the version that `version_str` names, if it parses, fits in 32
/// bits once encoded (what `parse_cairo_version` needs).
pub fn cairo_version_fits(version_str: &str) -> (r: bool)
    ensures
        r == (version_number(version_str@) matches Some(v) ==> v <= u32::MAX),
{
    let cs = chars_of(version_str);
    let (a, b) = trim_bounds(cs.as_slice());
    let token: Vec<char> = if a == b {
        cs
    } else {
        let k = trailing_token_start(cs.as_slice(), a, b);
        copy_chars(cs.as_slice(), k, b)
    };
    assert(token@ == version_token(version_str@));
    let parts = split_chars(token.as_slice(), '.');
    if parts.len() < 2 {
        return true;
    }
    assert(parts@[0]@ == split_on(token@, '.')[0]);
    assert(parts@[1]@ == split_on(token@, '.')[1]);
    let major = match parse_u32(parts[0].as_slice()) {
        Some(v) => v as u64,
        None => {
            return true;
        },
    };
    let minor = match parse_u32(parts[1].as_slice()) {
        Some(v) => v as u64,
        None => {
            return true;
        },
    };
    let patch: u64 = if parts.len() > 2 {
        assert(parts@[2]@ == split_on(token@, '.')[2]);
        match parse_u32(parts[2].as_slice()) {
            Some(v) => v as u64,
            None => {
                return true;
            },
        }
    } else {
        0
    };
    major * 10000 + minor * 100 + patch <= 0xFFFF_FFFF
}

/// Whether a compiler's message reports a type error: the trimmed message
/// mentions "type error" or "type mismatch" and neither "syntax error" nor
/// "unexpected token". Every other message reports a syntax error.
pub open spec fn reports_type_error(msg: Seq<char>) -> bool {
    let t = trim(msg);
    !(contains_seq(t, "syntax error"@) || contains_seq(t, "unexpected token"@)) && (
    contains_seq(t, "type error"@) || contains_seq(t, "type mismatch"@))
}

/// Classifies a compiler's error output.
pub fn parse_compile_error(error_msg: &str) -> (r: CompileError)
    ensures
        if reports_type_error(error_msg@) {
            r matches CompileError::TypeError(m) && m@ == trim(error_msg@)
        } else {
            r matches CompileError::SyntaxError(m) && m@ == trim(error_msg@)
        },
{
    let cs = chars_of(error_msg);
    let (a, b) = trim_bounds(cs.as_slice());
    let t = copy_chars(cs.as_slice(), a, b);
    let msg = string_from_chars(t.as_slice());
    let syntax = chars_of("syntax error");
    let unexpected = chars_of("unexpected token");
    if contains_chars(t.as_slice(), syntax.as_slice()) || contains_chars(
        t.as_slice(),
        unexpected.as_slice(),
    ) {
        return CompileError::SyntaxError(msg);
    }
    let type_error = chars_of("type error");
    let mismatch = chars_of("type mismatch");
    if contains_chars(t.as_slice(), type_error.as_slice()) || contains_chars(
        t.as_slice(),
        mismatch.as_slice(),
    ) {
        return CompileError::TypeError(msg);
    }
    CompileError::SyntaxError(msg)
}

/// Registry error types.
#[derive(Debug, Clone, PartialEq, Eq)]
pub enum RegistryError {
    /// Program not found
    NotFound(CairoProgramHash),
    /// Program already exists
    AlreadyExists(CairoProgramHash),
    /// Program not in allowlist
    NotInAllowlist(CairoProgramHash),
    /// Registry full
    RegistryFull,
}

/// Registered programs, and the allowlist of those approved for on-chain
/// use. Every allowed program is registered.
#[derive(Debug)]
pub struct CairoProgramRegistry {
    programs: SortedMap<CairoProgramHash, CairoProgram>,
    allowlist: SortedMap<CairoProgramHash, ()>,
}

impl CairoProgramRegistry {
    #[verifier::type_invariant]
    closed spec fn allowed_are_registered(self) -> bool {
        forall|k: Seq<u8>|
            #[trigger] self.allowlist.map().contains_key(k) ==> self.programs.map().contains_key(k)
    }

    /// Registered programs keyed by hash.
    pub closed spec fn programs(self) -> Map<Seq<u8>, CairoProgram> {
        self.programs.map()
    }

    /// Hashes on the allowlist.
    pub closed spec fn allowed(self) -> Set<Seq<u8>> {
        self.allowlist.map().dom()
    }

    /// Registered hashes in increasing byte order.
    pub closed spec fn program_keys(self) -> Seq<Seq<u8>> {
        self.programs.keys()
    }

    /// Allowed hashes in increasing byte order.
    pub closed spec fn allowed_keys_seq(self) -> Seq<Seq<u8>> {
        self.allowlist.keys()
    }

    /// An empty registry.
    pub fn new() -> (r: Self)
        ensures
            r.programs() == Map::<Seq<u8>, CairoProgram>::empty(),
            r.allowed() == Set::<Seq<u8>>::empty(),
    {
        let r = CairoProgramRegistry { programs: SortedMap::new(), allowlist: SortedMap::new() };
        assert(r.allowed() =~= Set::<Seq<u8>>::empty());
        r
    }

    /// Registers a program under its hash; fails with `AlreadyExists` when
    /// the hash is taken, leaving the registry unchanged.
    pub fn register(&mut self, program: CairoProgram) -> (r: Result<(), RegistryError>)
        ensures
            final(self).allowed().subset_of(final(self).programs().dom()),
            final(self).allowed() == old(self).allowed(),
            if old(self).programs().contains_key(program.hash@) {
                r == Err::<(), RegistryError>(RegistryError::AlreadyExists(program.hash))
                    && final(self).programs() == old(self).programs()
            } else {
                r is Ok && final(self).programs() == old(self).programs().insert(
                    program.hash@,
                    program,
                )
            },
    {
        proof { use_type_invariant(&*self); }
        let hash = program.hash;
        if self.programs.contains_key(hash.as_slice()) {
            return Err(RegistryError::AlreadyExists(hash));
        }
        let mut allowlist = SortedMap::new();
        std::mem::swap(&mut allowlist, &mut self.allowlist);
        let mut programs = SortedMap::new();
        std::mem::swap(&mut programs, &mut self.programs);
        programs.insert(hash, program);
        self.programs = programs;
        self.allowlist = allowlist;
        Ok(())
    }

    /// The program registered under `hash`, if any.
    pub fn get(&self, hash: &CairoProgramHash) -> (r: Option<&CairoProgram>)
        ensures
            match r {
                Some(p) => self.programs().contains_key(hash@) && *p == self.programs()[hash@],
                None => !self.programs().contains_key(hash@),
            },
    {
        self.programs.get(hash.as_slice())
    }

    /// Removes the program registered under `hash`, and its allowlist entry;
    /// fails with `NotFound` when there is none, leaving the registry
    /// unchanged.
    pub fn remove(&mut self, hash: &CairoProgramHash) -> (r: Result<CairoProgram, RegistryError>)
        ensures
            final(self).allowed().subset_of(final(self).programs().dom()),
            if old(self).programs().contains_key(hash@) {
                r == Ok::<CairoProgram, RegistryError>(old(self).programs()[hash@])
                    && final(self).programs() == old(self).programs().remove(hash@)
                    && final(self).allowed() == old(self).allowed().remove(hash@)
            } else {
                r == Err::<CairoProgram, RegistryError>(RegistryError::NotFound(*hash))
                    && final(self).programs() == old(self).programs() && final(self).allowed()
                    == old(self).allowed()
            },
    {
        proof { use_type_invariant(&*self); }
        let mut programs = SortedMap::new();
        let mut allowlist = SortedMap::new();
        std::mem::swap(&mut allowlist, &mut self.allowlist);
        std::mem::swap(&mut programs, &mut self.programs);
        let removed = programs.remove(hash.as_slice());
        let r = match removed {
            None => Err(RegistryError::NotFound(*hash)),
            Some(program) => {
                allowlist.remove(hash.as_slice());
                Ok(program)
            },
        };
        self.programs = programs;
        self.allowlist = allowlist;
        assert(self.allowed() =~= old(self).allowed().remove(hash@) || r is Err);
        r
    }

    /// Puts a registered program on the allowlist; fails with `NotFound`
    /// when no program has `hash`, leaving the registry unchanged.
    pub fn allowlist_add(&mut self, hash: CairoProgramHash) -> (r: Result<(), RegistryError>)
        ensures
            final(self).allowed().subset_of(final(self).programs().dom()),
            final(self).programs() == old(self).programs(),
            if old(self).programs().contains_key(hash@) {
                r is Ok && final(self).allowed() == old(self).allowed().insert(hash@)
            } else {
                r == Err::<(), RegistryError>(RegistryError::NotFound(hash)) && final(self).allowed()
                    == old(self).allowed()
            },
    {
        proof { use_type_invariant(&*self); }
        if !self.programs.contains_key(hash.as_slice()) {
            return Err(RegistryError::NotFound(hash));
        }
        let mut allowlist = SortedMap::new();
        std::mem::swap(&mut allowlist, &mut self.allowlist);
        allowlist.insert(hash, ());
        self.allowlist = allowlist;
        assert(self.allowed() =~= old(self).allowed().insert(hash@));
        Ok(())
    }

    /// Takes a program off the allowlist; fails with `NotInAllowlist` when
    /// it is not there, leaving the registry unchanged.
    pub fn allowlist_remove(&mut self, hash: &CairoProgramHash) -> (r: Result<(), RegistryError>)
        ensures
            final(self).allowed().subset_of(final(self).programs().dom()),
            final(self).programs() == old(self).programs(),
            final(self).allowed() == old(self).allowed().remove(hash@),
            if old(self).allowed().contains(hash@) {
                r is Ok
            } else {
                r == Err::<(), RegistryError>(RegistryError::NotInAllowlist(*hash))
            },
    {
        proof { use_type_invariant(&*self); }
        let mut allowlist = SortedMap::new();
        std::mem::swap(&mut allowlist, &mut self.allowlist);
        let removed = allowlist.remove(hash.as_slice());
        self.allowlist = allowlist;
        assert(self.allowed() =~= old(self).allowed().remove(hash@));
        match removed {
            None => Err(RegistryError::NotInAllowlist(*hash)),
            Some(_) => Ok(()),
        }
    }

    /// Whether the program is approved for on-chain use (only registered
    /// programs are).
    pub fn is_allowed(&self, hash: &CairoProgramHash) -> (r: bool)
        ensures
            r == self.allowed().contains(hash@),
            r ==> self.programs().contains_key(hash@),
    {
        proof { use_type_invariant(self); }
        self.allowlist.contains_key(hash.as_slice())
    }

    /// Number of registered programs.
    pub fn len(&self) -> (r: usize)
        ensures
            r == self.program_keys().len(),
            r == self.programs().dom().len(),
            self.programs().dom().finite(),
            self.programs().dom() == self.program_keys().to_set(),
            strictly_sorted(self.program_keys()),
            self.program_keys().no_duplicates(),
    {
        let n = self.programs.len();
        proof { self.lemma_keys_facts(); }
        n
    }

    /// The registered hashes are strictly increasing, hence distinct, and
    /// they are exactly the registered programs' hashes.
    proof fn lemma_keys_facts(&self)
        requires
            self.programs.wf(),
        ensures
            self.programs().dom() == self.program_keys().to_set(),
            strictly_sorted(self.program_keys()),
            self.program_keys().no_duplicates(),
            self.programs().dom().len() == self.program_keys().len(),
            self.programs().dom().finite(),
    {
        let ks = self.program_keys();
        assert(self.programs().dom() =~= ks.to_set());
        assert forall|i: int, j: int| 0 <= i < ks.len() && 0 <= j < ks.len() && i != j implies ks[i]
            != ks[j] by {
            lemma_lex_order(ks[i], ks[j], ks[j]);
            lemma_lex_order(ks[j], ks[i], ks[i]);
        }
        ks.unique_seq_to_set();
        vstd::seq_lib::seq_to_set_is_finite(ks);
    }

    /// Whether no program is registered.
    pub fn is_empty(&self) -> (r: bool)
        ensures
            r == (self.programs() == Map::<Seq<u8>, CairoProgram>::empty()),
    {
        let n = self.programs.len();
        proof {
            if n > 0 {
                assert(self.programs().contains_key(self.program_keys()[0]));
            } else {
                assert(self.programs() =~= Map::<Seq<u8>, CairoProgram>::empty());
            }
        }
        n == 0
    }

    /// The registered hashes in increasing byte order.
    pub fn keys(&self) -> (r: Vec<CairoProgramHash>)
        ensures
            r@.map_values(|h: CairoProgramHash| h@) == self.program_keys(),
            self.programs().dom() == self.program_keys().to_set(),
            strictly_sorted(self.program_keys()),
            self.program_keys().no_duplicates(),
    {
        let n = self.programs.len();
        proof { self.lemma_keys_facts(); }
        let mut out: Vec<CairoProgramHash> = Vec::new();
        let mut i: usize = 0;
        while i < n
            invariant
                n == self.programs.keys().len(),
                self.programs.wf(),
                i <= n,
                out@.map_values(|h: CairoProgramHash| h@) == self.programs.keys().subrange(0, i as int),
            decreases n - i,
        {
            let (k, _p) = self.programs.entry(i);
            let ghost before = out@;
            out.push(*k);
            assert(out@.map_values(|h: CairoProgramHash| h@) =~= before.map_values(|h: CairoProgramHash| h@).push(k@));
            assert(self.programs.keys().subrange(0, i + 1) =~= self.programs.keys().subrange(0, i as int).push(self.programs.keys()[i as int]));
            i = i + 1;
        }
        assert(self.programs.keys().subrange(0, n as int) =~= self.programs.keys());
        out
    }

    /// The allowed hashes in increasing byte order.
    pub fn allowed_keys(&self) -> (r: Vec<CairoProgramHash>)
        ensures
            r@.map_values(|h: CairoProgramHash| h@) == self.allowed_keys_seq(),
            self.allowed() == self.allowed_keys_seq().to_set(),
    {
        let n = self.allowlist.len();
        let mut out: Vec<CairoProgramHash> = Vec::new();
        let mut i: usize = 0;
        while i < n
            invariant
                n == self.allowlist.keys().len(),
                self.allowlist.wf(),
                i <= n,
                out@.map_values(|h: CairoProgramHash| h@) == self.allowlist.keys().subrange(0, i as int),
            decreases n - i,
        {
            let (k, _p) = self.allowlist.entry(i);
            let ghost before = out@;
            out.push(*k);
            assert(out@.map_values(|h: CairoProgramHash| h@) =~= before.map_values(|h: CairoProgramHash| h@).push(k@));
            assert(self.allowlist.keys().subrange(0, i + 1) =~= self.allowlist.keys().subrange(0, i as int).push(self.allowlist.keys()[i as int]));
            i = i + 1;
        }
        assert(self.allowlist.keys().subrange(0, n as int) =~= self.allowlist.keys());
        assert(self.allowed() =~= self.allowed_keys_seq().to_set());
        out
    }
}

impl Default for CairoProgramRegistry {
    fn default() -> (r: Self)
        ensures
            r.programs() == Map::<Seq<u8>, CairoProgram>::empty(),
            r.allowed() == Set::<Seq<u8>>::empty(),
    {
        Self::new()
    }
}

} // verus!
