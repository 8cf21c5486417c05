//! Module requests, module keys and canonical symbol names.
//!
//! A module key is the 64-bit FNV-1a hash of a module id's identity bytes:
//! `module:` followed by each segment's UTF-8 bytes and a `.`. The key gives
//! every exported symbol a stable internal prefix `@m` followed by the key in
//! sixteen lowercase hex digits.

use vstd::prelude::*;
use vstd::utf8::encode_utf8;

use crate::error::{EngineError, ModuleError};
use crate::module_id::{join_dots, parse_spec, ModuleId};
use crate::text::{chars_of, string_from_chars};

verus! {

/// What the module system hands an importer: the requested module, and the
/// importing module where there is one.
#[derive(Debug)]
pub struct ImportRequest {
    pub module_id: ModuleId,
    pub importer: Option<ModuleId>,
}

impl ImportRequest {
    /// A request for `module_id` made from no particular module.
    pub fn new(module_id: ModuleId) -> (r: Self)
        ensures
            r.module_id == module_id,
            r.importer is None,
    {
        ImportRequest { module_id, importer: None }
    }

    /// A request for `module_id` made from the module `importer`.
    pub fn with_importer(module_id: ModuleId, importer: ModuleId) -> (r: Self)
        ensures
            r.module_id == module_id,
            r.importer == Some(importer),
    {
        ImportRequest { module_id, importer: Some(importer) }
    }
}

/// What identifies an import request in the cache of resolved modules: the
/// requested module and the importing module, nothing else.
#[derive(Debug)]
pub struct ImportRequestKey {
    pub module_id: ModuleId,
    pub importer: Option<ModuleId>,
}

impl ImportRequestKey {
    /// The key of `request`.
    pub fn from_request(request: &ImportRequest) -> (k: Self)
        ensures
            k.module_id@ == request.module_id@,
            match request.importer {
                None => k.importer is None,
                Some(i) => k.importer matches Some(j) && j@ == i@,
            },
    {
        let importer = match &request.importer {
            None => None,
            Some(i) => Some(i.copy()),
        };
        ImportRequestKey { module_id: request.module_id.copy(), importer }
    }
}

/// A request that a named resolver is asked to answer: the module name as
/// written, and the importing module where there is one.
#[derive(Debug)]
pub struct ResolveRequest {
    pub module_name: String,
    pub importer: Option<ModuleId>,
}

/// What an importer found for a request: the module's identity and its
/// Rex source.
#[derive(Debug)]
pub struct ResolvedModule {
    pub id: ModuleId,
    pub content: ResolvedModuleContent,
}

/// The contents of an imported module.
#[derive(Debug)]
pub enum ResolvedModuleContent {
    /// Raw Rex source text.
    Source(String),
}

/// An importer that refuses every import.
#[derive(Debug)]
pub struct DenyImporter;

impl DenyImporter {
    /// Refuses the request, naming the module that was asked for.
    pub fn import(&self, request: ImportRequest) -> (res: Result<Option<ResolvedModule>, EngineError>)
        ensures
            res matches Err(EngineError::Module(ModuleError::ImportsDisabled { module_name }))
                && module_name@ == join_dots(request.module_id@),
    {
        Err(EngineError::Module(ModuleError::ImportsDisabled { module_name: request.module_id.to_string() }))
    }
}

/// The deterministic compact key of a module id.
#[derive(Clone, Copy, Debug, PartialEq, Eq, Structural)]
pub struct ModuleKey(u64);

impl View for ModuleKey {
    type V = u64;

    closed spec fn view(&self) -> u64 {
        self.0
    }
}

impl ModuleKey {
    /// The key as a number.
    pub fn as_u64(self) -> (v: u64)
        ensures
            v == self@,
    {
        self.0
    }
}

/// The namespace that an exported symbol lives in.
#[derive(Clone, Copy, Debug, PartialEq, Eq, Structural)]
pub enum SymbolKind {
    /// A term-level value or function.
    Value,
    /// A type constructor or type alias.
    Type,
    /// A type class.
    Class,
}

/// The FNV-1a offset basis.
pub open spec fn fnv_offset() -> u64 {
    0xcbf2_9ce4_8422_2325
}

/// One FNV-1a step: xor in the byte, then multiply by the FNV prime modulo
/// 2^64.
pub open spec fn fnv_step(h: u64, b: u8) -> u64 {
    (((h ^ (b as u64)) as nat * 0x0000_0100_0000_01b3nat) % 0x1_0000_0000_0000_0000nat) as u64
}

/// FNV-1a over `bytes`, starting from the state `h`.
pub open spec fn fnv_fold(h: u64, bytes: Seq<u8>) -> u64
    decreases bytes.len(),
{
    if bytes.len() == 0 {
        h
    } else {
        fnv_step(fnv_fold(h, bytes.drop_last()), bytes.last())
    }
}

/// The bytes of `module:`.
pub open spec fn module_tag() -> Seq<u8> {
    seq![109u8, 111u8, 100u8, 117u8, 108u8, 101u8, 58u8]
}

/// The identity bytes of a module id: `module:`, then each segment's UTF-8
/// bytes followed by `.`.
pub open spec fn identity_bytes(segs: Seq<Seq<char>>) -> Seq<u8>
    decreases segs.len(),
{
    if segs.len() == 0 {
        module_tag()
    } else {
        identity_bytes(segs.drop_last()) + encode_utf8(segs.last()) + seq![46u8]
    }
}

/// The key of the module id with segments `segs`.
pub open spec fn module_key_spec(segs: Seq<Seq<char>>) -> u64 {
    fnv_fold(fnv_offset(), identity_bytes(segs))
}

/// Hashing two byte runs in turn is hashing their concatenation.
pub proof fn lemma_fnv_fold_append(h: u64, a: Seq<u8>, b: Seq<u8>)
    ensures
        fnv_fold(h, a + b) == fnv_fold(fnv_fold(h, a), b),
    decreases b.len(),
{
    if b.len() == 0 {
        assert(a + b =~= a);
    } else {
        lemma_fnv_fold_append(h, a, b.drop_last());
        assert((a + b).drop_last() =~= a + b.drop_last());
    }
}

fn hash_bytes(state: &mut u64, bytes: &[u8])
    ensures
        *final(state) == fnv_fold(*old(state), bytes@),
{
    let ghost h0 = *state;
    let mut i: usize = 0;
    while i < bytes.len()
        invariant
            0 <= i <= bytes@.len(),
            *state == fnv_fold(h0, bytes@.take(i as int)),
            h0 == *old(state),
        decreases bytes@.len() - i,
    {
        proof {
            assert(bytes@.take(i + 1).drop_last() =~= bytes@.take(i as int));
        }
        *state = (*state ^ (bytes[i] as u64)).wrapping_mul(0x0000_0100_0000_01b3);
        i += 1;
    }
    proof {
        assert(bytes@.take(bytes@.len() as int) =~= bytes@);
    }
}

fn hash_module_identity(state: &mut u64, id: &ModuleId)
    ensures
        *final(state) == fnv_fold(*old(state), identity_bytes(id@)),
{
    let ghost h0 = *state;
    let tag: Vec<u8> = vec![109u8, 111u8, 100u8, 117u8, 108u8, 101u8, 58u8];
    proof {
        assert(tag@ =~= module_tag());
    }
    hash_bytes(state, tag.as_slice());
    let dot: Vec<u8> = vec![46u8];
    let segments = id.segments();
    let ghost segs = id@;
    let mut k: usize = 0;
    while k < segments.len()
        invariant
            0 <= k <= segments@.len(),
            segs == id@,
            crate::module_id::strings_view(segments@) == segs,
            dot@ == seq![46u8],
            *state == fnv_fold(h0, identity_bytes(segs.take(k as int))),
        decreases segments@.len() - k,
    {
        let ghost before = *state;
        let bytes = segments[k].as_str().as_bytes();
        hash_bytes(state, bytes);
        hash_bytes(state, dot.as_slice());
        proof {
            let prev = segs.take(k as int);
            let next = segs.take(k + 1);
            assert(next.drop_last() =~= prev);
            assert(next.last() == segments@[k as int]@);
            lemma_fnv_fold_append(h0, identity_bytes(prev), bytes@);
            lemma_fnv_fold_append(h0, identity_bytes(prev) + bytes@, seq![46u8]);
            assert(identity_bytes(next) == identity_bytes(prev) + bytes@ + seq![46u8]);
        }
        k += 1;
    }
    proof {
        assert(segs.take(segs.len() as int) =~= segs);
    }
}

/// The key of a module id: FNV-1a over its identity bytes.
pub fn module_key_for_module(id: &ModuleId) -> (key: ModuleKey)
    ensures
        key@ == module_key_spec(id@),
{
    let mut hash: u64 = 0xcbf2_9ce4_8422_2325;
    hash_module_identity(&mut hash, id);
    ModuleKey(hash)
}

/// The lowercase hex digits, in order of value.
pub open spec fn hex_alphabet() -> Seq<char> {
    seq!['0', '1', '2', '3', '4', '5', '6', '7', '8', '9', 'a', 'b', 'c', 'd', 'e', 'f']
}

/// The last `n` hex digits of `v`, most significant first.
pub open spec fn hex_digits(v: nat, n: nat) -> Seq<char>
    decreases n,
{
    if n == 0 {
        Seq::empty()
    } else {
        hex_digits(v / 16, (n - 1) as nat).push(hex_alphabet()[(v % 16) as int])
    }
}

/// The symbol prefix of a module key: `@m` and sixteen hex digits.
pub open spec fn key_prefix(key: u64) -> Seq<char> {
    seq!['@', 'm'] + hex_digits(key as nat, 16)
}

/// The symbol prefix for a module key, such as `@m00000000000000ff`.
pub fn prefix_for_module_key(key: ModuleKey) -> (s: String)
    ensures
        s@ == key_prefix(key@),
{
    let digits: [char; 16] = ['0', '1', '2', '3', '4', '5', '6', '7', '8', '9', 'a', 'b', 'c', 'd', 'e', 'f'];
    proof {
        assert(digits@ =~= hex_alphabet());
    }
    let v = key.as_u64();
    let mut x: u64 = v;
    let mut acc: Vec<char> = Vec::new();
    let mut k: usize = 0;
    while k < 16
        invariant
            0 <= k <= 16,
            digits@ == hex_alphabet(),
            hex_digits(v as nat, 16) == hex_digits(x as nat, (16 - k) as nat) + acc@,
        decreases 16 - k,
    {
        let d = (x % 16) as usize;
        let c = digits[d];
        proof {
            let m = (16 - k) as nat;
            assert(hex_digits(x as nat, m) == hex_digits((x / 16) as nat, (m - 1) as nat).push(c));
            assert(hex_digits((x / 16) as nat, (m - 1) as nat).push(c) + acc@ =~= hex_digits(
                (x / 16) as nat,
                (m - 1) as nat,
            ) + (seq![c] + acc@));
        }
        acc.insert(0, c);
        x = x / 16;
        k += 1;
    }
    let mut out: Vec<char> = vec!['@', 'm'];
    out.append(&mut acc);
    proof {
        assert(hex_digits(x as nat, 0) =~= Seq::<char>::empty());
        assert(out@ =~= key_prefix(v));
    }
    string_from_chars(&out)
}

/// The symbol prefix for a module id.
pub fn prefix_for_module(id: &ModuleId) -> (s: String)
    ensures
        s@ == key_prefix(module_key_spec(id@)),
{
    prefix_for_module_key(module_key_for_module(id))
}

/// `prefix`, a `.`, then `name`.
pub open spec fn qualified(prefix: Seq<char>, name: Seq<char>) -> Seq<char> {
    prefix + seq!['.'] + name
}

/// The name `name` qualified by `prefix`.
pub fn qualify(prefix: &str, name: &str) -> (s: String)
    ensures
        s@ == qualified(prefix@, name@),
{
    let mut out = chars_of(prefix);
    out.push('.');
    let mut rest = chars_of(name);
    out.append(&mut rest);
    string_from_chars(&out)
}

/// A canonical symbol by its contents.
pub open spec fn sym_view(c: CanonicalSymbol) -> (ModuleKey, SymbolKind, Seq<char>, Seq<char>) {
    (c.module, c.kind, c.local@, c.symbol@)
}

/// The canonical runtime identity of an exported symbol.
#[derive(Debug)]
pub struct CanonicalSymbol {
    pub module: ModuleKey,
    pub kind: SymbolKind,
    pub local: String,
    pub symbol: String,
}

impl CanonicalSymbol {
    /// The canonical symbol for the export `local` of the module with key
    /// `module`: `local` qualified by the module's prefix.
    pub fn new(module: ModuleKey, kind: SymbolKind, local: String) -> (c: Self)
        ensures
            c.module == module,
            c.kind == kind,
            c.local@ == local@,
            c.symbol@ == qualified(key_prefix(module@), local@),
    {
        let prefix = prefix_for_module_key(module);
        let symbol = qualify(prefix.as_str(), local.as_str());
        CanonicalSymbol { module, kind, local, symbol }
    }

    /// Another canonical symbol with the same contents.
    pub fn copy(&self) -> (c: Self)
        ensures
            sym_view(c) == sym_view(*self),
    {
        CanonicalSymbol { module: self.module, kind: self.kind, local: self.local.clone(), symbol: self.symbol.clone() }
    }

    /// A canonical symbol with a given interned symbol.
    pub fn from_symbol(module: ModuleKey, kind: SymbolKind, local: String, symbol: String) -> (c: Self)
        ensures
            c.module == module,
            c.kind == kind,
            c.local@ == local@,
            c.symbol@ == symbol@,
    {
        CanonicalSymbol { module, kind, local, symbol }
    }

    /// The interned symbol.
    pub fn symbol(&self) -> (s: &String)
        ensures
            s@ == self.symbol@,
    {
        &self.symbol
    }
}

/// The canonical name of the export `export` of the module named `module`:
/// qualified by the module's key prefix when `module` is a valid module id,
/// and by `module` itself otherwise.
pub open spec fn virtual_export_spec(module: Seq<char>, export: Seq<char>) -> Seq<char> {
    match parse_spec(module) {
        Ok(segs) => qualified(key_prefix(module_key_spec(segs)), export),
        Err(_) => qualified(module, export),
    }
}

/// The canonical symbol name of a host module's export.
pub fn virtual_export_name(module: &str, export: &str) -> (s: String)
    ensures
        s@ == virtual_export_spec(module@, export@),
{
    match ModuleId::parse(module) {
        Ok(id) => {
            let key = module_key_for_module(&id);
            let c = CanonicalSymbol::new(key, SymbolKind::Value, export.to_string());
            let out = c.symbol().clone();
            out
        },
        Err(_) => qualify(module, export),
    }
}

} // verus!
