//! z4 registry artifacts: `z4.reg` registries and `Z4SMI001` build-unit
//! catalogs, decoded from raw bytes.
use vstd::prelude::*;
use crate::text::{strings_view};
use vstd::utf8::{valid_utf8, decode_utf8};
use crate::text::{byte_len, from_utf8_lossy, res_view, utf8_lossy};
use crate::path::{file_name_s, file_name_string};
use crate::z4::{handles_path_s, is_catalog_path_s, Z4LanguageDriver};
use crate::text::{
    chars_of, ends_with_s, hex0x_s, push_chars, push_hex0x, push_str, string_of_range, trim_bounds,
    trim_s,
};

verus! {

broadcast use vstd::seq_lib::group_seq_properties;

// ───────────────────────── outside behaviour ─────────────────────────

/// Whether a path is one the z4 tools read: a z4 source or a build-unit catalog.
pub fn is_machine_visible_path(path: &str) -> (r: bool)
    ensures
        r == (handles_path_s(path@) || is_catalog_path_s(path@)),
{
    Z4LanguageDriver::handles_path(path) || Z4LanguageDriver::is_catalog_path(path)
}

// ───────────────────────── entries ─────────────────────────

/// One path of a build-unit catalog.
#[derive(Debug, Clone, PartialEq, Eq)]
pub struct CatalogEntry {
    pub slot: usize,
    pub offset: usize,
    pub path: String,
}

/// One record of a `z4.reg` registry.
#[derive(Debug, Clone, PartialEq, Eq)]
pub struct RegistryEntry {
    pub offset: usize,
    pub id: u64,
    pub class: u64,
    pub class_label: &'static str,
    pub name_len: usize,
    pub path: String,
}

/// A decoded registry artifact.
#[derive(Debug, Clone, PartialEq, Eq)]
pub enum RegistryArtifact {
    Catalog { magic: &'static str, entries: Vec<CatalogEntry> },
    Registry { magic: &'static str, entries: Vec<RegistryEntry> },
}

// ───────────────────────── path text helpers ─────────────────────────

/// `s` with every `'\\'` replaced by `'/'`.
pub open spec fn backslash_to_slash(s: Seq<char>) -> Seq<char> {
    s.map_values(|c: char| if c == '\\' { '/' } else { c })
}

/// `s` with every leading `"./"` removed (`trim_start_matches("./")`).
pub open spec fn strip_dot_slash(s: Seq<char>) -> Seq<char>
    decreases s.len(),
{
    if s.len() >= 2 && s[0] == '.' && s[1] == '/' {
        strip_dot_slash(s.skip(2))
    } else {
        s
    }
}

/// Normalised relative path: forward slashes, no leading `./`.
pub open spec fn normalize_rel_path_s(raw: Seq<char>) -> Seq<char> {
    strip_dot_slash(backslash_to_slash(raw))
}

/// The file name of a path, or the whole path when it has none.
pub open spec fn basename_s(path: Seq<char>) -> Seq<char> {
    match file_name_s(path) {
        Some(f) => f,
        None => path,
    }
}

/// Normalises a relative path: forward slashes and no leading `./`.
pub fn normalize_rel_path(raw: &str) -> (r: String)
    ensures
        r@ == normalize_rel_path_s(raw@),
{
    let v = chars_of(raw);
    let mut w: Vec<char> = Vec::new();
    let mut i: usize = 0;
    while i < v.len()
        invariant
            i <= v.len(),
            w@ == backslash_to_slash(v@.take(i as int)),
        decreases v.len() - i,
    {
        w.push(if v[i] == '\\' {
            '/'
        } else {
            v[i]
        });
        i += 1;
        assert(backslash_to_slash(v@.take(i as int)) == backslash_to_slash(v@.take(i - 1)).push(
            if v@[i - 1] == '\\' {
                '/'
            } else {
                v@[i - 1]
            },
        ));
    }
    assert(v@.take(v.len() as int) == v@);
    let mut a: usize = 0;
    while w.len() - a >= 2 && w[a] == '.' && w[a + 1] == '/'
        invariant
            a <= w.len(),
            strip_dot_slash(w@.skip(a as int)) == strip_dot_slash(w@),
        decreases w.len() - a,
    {
        assert(w@.skip(a as int).skip(2) == w@.skip(a + 2));
        a += 2;
    }
    assert(w@.skip(a as int) == w@.subrange(a as int, w.len() as int));
    string_of_range(&w, a, w.len())
}

/// The file name of `path`, or `path` itself when it has none.
pub fn basename(path: &str) -> (r: String)
    ensures
        r@ == basename_s(path@),
{
    let v = chars_of(path);
    match file_name_string(&v) {
        Some(f) => f,
        None => path.to_owned(),
    }
}

/// The label of a registry class, refined by the entry's path.
pub open spec fn class_label_s(class: u64, path: Seq<char>) -> Seq<char> {
    if class == 1 {
        "build_unit"@
    } else if class == 3 {
        if ends_with_s(path, ".z4"@) {
            "source"@
        } else {
            "artifact"@
        }
    } else if ends_with_s(path, ".filelist"@) || ends_with_s(path, ".project.z4"@) {
        "build_unit"@
    } else if ends_with_s(path, ".z4"@) {
        "source"@
    } else if ends_with_s(path, ".so"@) || ends_with_s(path, ".dylib"@) {
        "library"@
    } else {
        "unknown"@
    }
}

fn ends_with_lit(v: &[char], lit: &str) -> (r: bool)
    ensures
        r == ends_with_s(v@, lit@),
{
    let p = chars_of(lit);
    crate::text::ends_with(v, &p)
}

/// The label of a registry class, refined by the entry's path.
pub fn registry_class_label(class: u64, path: &str) -> (r: &'static str)
    ensures
        r@ == class_label_s(class, path@),
{
    let v = chars_of(path);
    if class == 1 {
        "build_unit"
    } else if class == 3 {
        if ends_with_lit(&v, ".z4") {
            "source"
        } else {
            "artifact"
        }
    } else if ends_with_lit(&v, ".filelist") || ends_with_lit(&v, ".project.z4") {
        "build_unit"
    } else if ends_with_lit(&v, ".z4") {
        "source"
    } else if ends_with_lit(&v, ".so") || ends_with_lit(&v, ".dylib") {
        "library"
    } else {
        "unknown"
    }
}

// ───────────────────────── headers ─────────────────────────

pub open spec fn reg_magic() -> Seq<u8> {
    seq![0x5au8, 0x34, 0x52, 0x45, 0x47, 0x30, 0x30, 0x31, 0x4b]
}

pub open spec fn reg_legacy_magic() -> Seq<u8> {
    seq![0x34u8, 0x52, 0x45, 0x47, 0x30, 0x30, 0x31, 0x4b]
}

pub open spec fn smi_magic() -> Seq<u8> {
    seq![0x5au8, 0x34, 0x53, 0x4d, 0x49, 0x30, 0x30, 0x31]
}

pub open spec fn smi_legacy_magic() -> Seq<u8> {
    seq![0x34u8, 0x53, 0x4d, 0x49, 0x30, 0x30, 0x31]
}

/// All bytes of `b` from `i` on are zero.
pub open spec fn zero_from(b: Seq<u8>, i: int, j: int) -> bool {
    forall|k: int| i <= k < j ==> b[k] == 0
}

/// Header length when `b` starts with `magic`: the header is padded to 16
/// bytes when the padding bytes are present and zero.
pub open spec fn header_len_s(b: Seq<u8>, magic: Seq<u8>) -> Option<nat> {
    if b.len() >= magic.len() && b.subrange(0, magic.len() as int) == magic {
        if b.len() >= 16 && zero_from(b, magic.len() as int, 16) {
            Some(16)
        } else {
            Some(magic.len())
        }
    } else {
        None
    }
}

fn starts_with_bytes(b: &[u8], m: &[u8]) -> (r: bool)
    ensures
        r == (b@.len() >= m@.len() && b@.subrange(0, m@.len() as int) == m@),
{
    if b.len() < m.len() {
        return false;
    }
    let mut i: usize = 0;
    while i < m.len()
        invariant
            i <= m.len() <= b.len(),
            forall|k: int| 0 <= k < i ==> b@[k] == m@[k],
        decreases m.len() - i,
    {
        if b[i] != m[i] {
            assert(b@.subrange(0, m@.len() as int)[i as int] != m@[i as int]);
            return false;
        }
        i += 1;
    }
    assert(b@.subrange(0, m@.len() as int) == m@);
    true
}

fn zero_range(b: &[u8], i: usize, j: usize) -> (r: bool)
    requires
        i <= j <= b.len(),
    ensures
        r == zero_from(b@, i as int, j as int),
{
    let mut k = i;
    while k < j
        invariant
            i <= k <= j <= b.len(),
            zero_from(b@, i as int, k as int),
        decreases j - k,
    {
        if b[k] != 0 {
            return false;
        }
        k += 1;
    }
    true
}

fn header_len(b: &[u8], m: &[u8]) -> (r: Option<usize>)
    requires
        m@.len() <= 16,
    ensures
        match header_len_s(b@, m@) {
            Some(n) => r == Some(n as usize),
            None => r is None,
        },
{
    if !starts_with_bytes(b, m) {
        return None;
    }
    if b.len() >= 16 && zero_range(b, m.len(), 16) {
        Some(16)
    } else {
        Some(m.len())
    }
}

// ───────────────────────── record grammar ─────────────────────────

/// A registry record as the byte grammar describes it.
pub struct RegRecord {
    pub offset: nat,
    pub id: u64,
    pub class: u64,
    pub name_len: nat,
    /// The decoded name with surrounding whitespace trimmed.
    pub name: Seq<char>,
}

/// A catalog path as the byte grammar describes it.
pub struct CatRecord {
    pub slot: nat,
    pub offset: nat,
    /// The decoded path with surrounding whitespace trimmed.
    pub name: Seq<char>,
}

pub open spec fn truncated_msg(c: nat, path: Seq<char>) -> Seq<char> {
    "Truncated z4.reg record at offset "@ + hex0x_s(c) + " in "@ + path
}

pub open spec fn invalid_len_msg(n: nat, c: nat, path: Seq<char>) -> Seq<char> {
    "Invalid name length "@ + hex0x_s(n) + " at offset "@ + hex0x_s(c) + " in "@ + path
}

/// The decoded, trimmed text of `b[a..e]`.
pub open spec fn field_text(b: Seq<u8>, a: int, e: int) -> Seq<char> {
    trim_s(utf8_lossy(b.subrange(a, e)))
}

/// The records of a registry body from byte `c` on.
///
/// A record is three little-endian `u64` words (id, class, name length)
/// followed by the name; an all-zero tail ends the body, and records with
/// blank names are skipped.
pub open spec fn reg_from(b: Seq<u8>, c: int, path: Seq<char>) -> Result<Seq<RegRecord>, Seq<char>>
    decreases b.len() - c,
{
    if c < 0 || c >= b.len() {
        Ok(seq![])
    } else if zero_from(b, c, b.len() as int) {
        Ok(seq![])
    } else if c + 24 > b.len() {
        Err(truncated_msg(c as nat, path))
    } else {
        let n = vstd::bytes::spec_u64_from_le_bytes(b.subrange(c + 16, c + 24)) as nat;
        let c2 = c + 24;
        if n > b.len() - c2 {
            Err(invalid_len_msg(n, c as nat, path))
        } else {
            let name = field_text(b, c2, c2 + n);
            match reg_from(b, c2 + n, path) {
                Err(e) => Err(e),
                Ok(rest) => if name.len() == 0 {
                    Ok(rest)
                } else {
                    Ok(
                        seq![
                            RegRecord {
                                offset: c as nat,
                                id: vstd::bytes::spec_u64_from_le_bytes(b.subrange(c, c + 8)),
                                class: vstd::bytes::spec_u64_from_le_bytes(b.subrange(c + 8, c + 16)),
                                name_len: n,
                                name,
                            },
                        ] + rest,
                    )
                },
            }
        }
    }
}

/// Index of the first zero byte at or after `i`, or `b.len()`.
pub open spec fn next_zero(b: Seq<u8>, i: int) -> int
    decreases b.len() - i,
{
    if i < 0 || i >= b.len() {
        b.len() as int
    } else if b[i] == 0 {
        i
    } else {
        next_zero(b, i + 1)
    }
}

pub proof fn lemma_next_zero(b: Seq<u8>, i: int)
    requires
        0 <= i <= b.len(),
    ensures
        i <= next_zero(b, i) <= b.len(),
        next_zero(b, i) < b.len() ==> b[next_zero(b, i)] == 0,
        forall|j: int| i <= j < next_zero(b, i) ==> b[j] != 0,
    decreases b.len() - i,
{
    if i < b.len() && b[i] != 0 {
        lemma_next_zero(b, i + 1);
    }
}

/// The paths of a catalog body from byte `c` on, numbered from `slot`.
///
/// Paths are separated by runs of zero bytes; blank paths are skipped.
pub open spec fn cat_from(b: Seq<u8>, c: int, slot: nat) -> Seq<CatRecord>
    decreases b.len() - c,
{
    if c < 0 || c >= b.len() {
        seq![]
    } else if b[c] == 0 {
        cat_from(b, c + 1, slot)
    } else {
        let e = next_zero(b, c);
        if e <= c {
            seq![]
        } else {
            proof {
                lemma_next_zero(b, c);
            }
            let name = field_text(b, c, e);
            if name.len() > 0 {
                seq![CatRecord { slot, offset: c as nat, name }] + cat_from(b, e, slot + 1)
            } else {
                cat_from(b, e, slot)
            }
        }
    }
}

/// A decoded artifact as the grammar describes it.
pub enum ArtifactSpec {
    Catalog { magic: Seq<char>, entries: Seq<CatRecord> },
    Registry { magic: Seq<char>, entries: Seq<RegRecord> },
}

/// Decodes a registry (`Z4REG001K`) or catalog (`Z4SMI001`) artifact; legacy
/// magics without the leading `Z` are accepted too.
pub open spec fn parse_artifact_s(b: Seq<u8>, path: Seq<char>) -> Result<ArtifactSpec, Seq<char>> {
    let reg = match header_len_s(b, reg_magic()) {
        Some(h) => Some(("Z4REG001K"@, h)),
        None => match header_len_s(b, reg_legacy_magic()) {
            Some(h) => Some(("4REG001K"@, h)),
            None => None,
        },
    };
    let smi = match header_len_s(b, smi_magic()) {
        Some(h) => Some(("Z4SMI001"@, h)),
        None => match header_len_s(b, smi_legacy_magic()) {
            Some(h) => Some(("4SMI001"@, h)),
            None => None,
        },
    };
    match reg {
        Some((m, h)) => match reg_from(b, h as int, path) {
            Err(e) => Err(e),
            Ok(es) => if es.len() == 0 {
                Err("No z4.reg entries found in "@ + path)
            } else {
                Ok(ArtifactSpec::Registry { magic: m, entries: es })
            },
        },
        None => match smi {
            Some((m, h)) => {
                let es = cat_from(b, h as int, 0);
                if es.len() == 0 {
                    Err("No catalog entries found in "@ + path)
                } else {
                    Ok(ArtifactSpec::Catalog { magic: m, entries: es })
                }
            },
            None => Err(
                "Unsupported z4 registry artifact '"@ + path + "': expected Z4REG001K/Z4SMI001"@,
            ),
        },
    }
}

pub open spec fn reg_entry_agrees(e: RegistryEntry, r: RegRecord) -> bool {
    &&& e.offset == r.offset
    &&& e.id == r.id
    &&& e.class == r.class
    &&& e.class_label@ == class_label_s(r.class, r.name)
    &&& e.name_len == r.name_len
    &&& e.path@ == normalize_rel_path_s(r.name)
}

pub open spec fn cat_entry_agrees(e: CatalogEntry, r: CatRecord) -> bool {
    &&& e.slot == r.slot
    &&& e.offset == r.offset
    &&& e.path@ == normalize_rel_path_s(r.name)
}

pub open spec fn artifact_agrees(a: RegistryArtifact, s: ArtifactSpec) -> bool {
    match (a, s) {
        (
            RegistryArtifact::Registry { magic, entries },
            ArtifactSpec::Registry { magic: m, entries: es },
        ) => magic@ == m && entries.len() == es.len() && forall|k: int|
            0 <= k < entries.len() ==> reg_entry_agrees(#[trigger] entries@[k], es[k]),
        (
            RegistryArtifact::Catalog { magic, entries },
            ArtifactSpec::Catalog { magic: m, entries: es },
        ) => magic@ == m && entries.len() == es.len() && forall|k: int|
            0 <= k < entries.len() ==> cat_entry_agrees(#[trigger] entries@[k], es[k]),
        _ => false,
    }
}

// ───────────────────────── decoding ─────────────────────────

/// `r` with the records `es` in front (errors stay errors).
pub open spec fn prefixed(es: Seq<RegRecord>, r: Result<Seq<RegRecord>, Seq<char>>) -> Result<
    Seq<RegRecord>,
    Seq<char>,
> {
    match r {
        Ok(rest) => Ok(es + rest),
        Err(e) => Err(e),
    }
}

/// The trimmed decoded text of `b[a..e]`.
fn field_string(b: &[u8], a: usize, e: usize) -> (r: String)
    requires
        a <= e <= b.len(),
    ensures
        r@ == field_text(b@, a as int, e as int),
{
    let raw = from_utf8_lossy(vstd::slice::slice_subrange(b, a, e));
    let v = chars_of(raw.as_str());
    let (x, y) = trim_bounds(&v, 0, v.len());
    assert(v@.subrange(0, v.len() as int) == v@);
    string_of_range(&v, x, y)
}

fn decode_registry(b: &[u8], h: usize, path: &str) -> (r: Result<Vec<RegistryEntry>, String>)
    requires
        h <= b.len(),
    ensures
        match reg_from(b@, h as int, path@) {
            Ok(es) => r matches Ok(v) && v.len() == es.len() && forall|k: int|
                0 <= k < v.len() ==> reg_entry_agrees(#[trigger] v@[k], es[k]),
            Err(m) => r matches Err(e) && e@ == m,
        },
{
    let mut entries: Vec<RegistryEntry> = Vec::new();
    let ghost mut gs: Seq<RegRecord> = seq![];
    let mut c = h;
    while c < b.len()
        invariant_except_break
            h <= c <= b.len(),
            entries.len() == gs.len(),
            forall|k: int| 0 <= k < entries.len() ==> reg_entry_agrees(#[trigger] entries@[k], gs[k]),
            reg_from(b@, h as int, path@) == prefixed(gs, reg_from(b@, c as int, path@)),
        ensures
            entries.len() == gs.len(),
            forall|k: int| 0 <= k < entries.len() ==> reg_entry_agrees(#[trigger] entries@[k], gs[k]),
            reg_from(b@, h as int, path@) == Ok::<Seq<RegRecord>, Seq<char>>(gs),
        decreases b.len() - c,
    {
        if zero_range(b, c, b.len()) {
            assert(gs + seq![] == gs);
            break;
        }
        if b.len() - c < 24 {
            let mut msg = String::from_str("Truncated z4.reg record at offset ");
            push_hex0x(&mut msg, c as u64);
            push_str(&mut msg, " in ");
            push_str(&mut msg, path);
            return Err(msg);
        }
        let id = vstd::bytes::u64_from_le_bytes(vstd::slice::slice_subrange(b, c, c + 8));
        let class = vstd::bytes::u64_from_le_bytes(vstd::slice::slice_subrange(b, c + 8, c + 16));
        let n64 = vstd::bytes::u64_from_le_bytes(vstd::slice::slice_subrange(b, c + 16, c + 24));
        let c2 = c + 24;
        if n64 > (b.len() - c2) as u64 {
            let mut msg = String::from_str("Invalid name length ");
            push_hex0x(&mut msg, n64);
            push_str(&mut msg, " at offset ");
            push_hex0x(&mut msg, c as u64);
            push_str(&mut msg, " in ");
            push_str(&mut msg, path);
            return Err(msg);
        }
        let n = n64 as usize;
        let name = field_string(b, c2, c2 + n);
        let ghost rest = reg_from(b@, c2 + n, path@);
        if !name.as_str().is_empty() {
            let ghost rec = RegRecord {
                offset: c as nat,
                id,
                class,
                name_len: n as nat,
                name: name@,
            };
            let label = registry_class_label(class, name.as_str());
            let norm = normalize_rel_path(name.as_str());
            entries.push(RegistryEntry { offset: c, id, class, class_label: label, name_len: n, path: norm });
            proof {
                match rest {
                    Ok(rr) => {
                        assert(gs.push(rec) + rr == gs + (seq![rec] + rr));
                    },
                    Err(_) => {},
                }
                gs = gs.push(rec);
            }
        } else {
            proof {
                assert(name@.len() == 0);
            }
        }
        c = c2 + n;
    }
    Ok(entries)
}

fn decode_catalog(b: &[u8], h: usize) -> (r: Vec<CatalogEntry>)
    requires
        h <= b.len(),
    ensures
        r.len() == cat_from(b@, h as int, 0).len(),
        forall|k: int| 0 <= k < r.len() ==> cat_entry_agrees(#[trigger] r@[k], cat_from(b@, h as int, 0)[k]),
{
    let mut entries: Vec<CatalogEntry> = Vec::new();
    let ghost mut gs: Seq<CatRecord> = seq![];
    let mut c = h;
    let mut slot: usize = 0;
    while c < b.len()
        invariant
            h <= c <= b.len(),
            entries.len() == gs.len() == slot,
            slot <= c,
            forall|k: int| 0 <= k < entries.len() ==> cat_entry_agrees(#[trigger] entries@[k], gs[k]),
            cat_from(b@, h as int, 0) == gs + cat_from(b@, c as int, slot as nat),
        decreases b.len() - c,
    {
        if b[c] == 0 {
            c += 1;
        } else {
            let ghost c0 = c;
            let mut e = c;
            while e < b.len() && b[e] != 0
                invariant
                    c <= e <= b.len(),
                    next_zero(b@, e as int) == next_zero(b@, c as int),
                decreases b.len() - e,
            {
                e += 1;
            }
            proof {
                lemma_next_zero(b@, c as int);
            }
            let name = field_string(b, c, e);
            if !name.as_str().is_empty() {
                let norm = normalize_rel_path(name.as_str());
                entries.push(CatalogEntry { slot, offset: c, path: norm });
                let ghost rec = CatRecord { slot: slot as nat, offset: c as nat, name: name@ };
                proof {
                    assert(gs.push(rec) + cat_from(b@, e as int, (slot + 1) as nat) == gs + (seq![rec]
                        + cat_from(b@, e as int, (slot + 1) as nat)));
                    gs = gs.push(rec);
                }
                slot += 1;
            }
            c = e;
        }
    }
    assert(gs + seq![] == gs);
    entries
}

fn header_of(b: &[u8], full: &[u8], legacy: &[u8], full_name: &'static str, legacy_name: &'static str) -> (r: Option<(&'static str, usize)>)
    requires
        full@.len() <= 16,
        legacy@.len() <= 16,
    ensures
        match header_len_s(b@, full@) {
            Some(h) => r matches Some((m, n)) && m@ == full_name@ && n == h,
            None => match header_len_s(b@, legacy@) {
                Some(h) => r matches Some((m, n)) && m@ == legacy_name@ && n == h,
                None => r is None,
            },
        },
        r matches Some((_, n)) ==> n <= b.len(),
{
    match header_len(b, full) {
        Some(h) => Some((full_name, h)),
        None => match header_len(b, legacy) {
            Some(h) => Some((legacy_name, h)),
            None => None,
        },
    }
}

/// Decodes a z4 registry (`Z4REG001K`) or build-unit catalog (`Z4SMI001`).
///
/// `path` only names the artifact in error messages.
pub fn parse_registry_artifact(path: &str, bytes: &[u8]) -> (r: Result<RegistryArtifact, String>)
    ensures
        match parse_artifact_s(bytes@, path@) {
            Ok(a) => r matches Ok(x) && artifact_agrees(x, a),
            Err(m) => r matches Err(e) && e@ == m,
        },
{
    let reg_full: [u8; 9] = [0x5a, 0x34, 0x52, 0x45, 0x47, 0x30, 0x30, 0x31, 0x4b];
    let reg_legacy: [u8; 8] = [0x34, 0x52, 0x45, 0x47, 0x30, 0x30, 0x31, 0x4b];
    let smi_full: [u8; 8] = [0x5a, 0x34, 0x53, 0x4d, 0x49, 0x30, 0x30, 0x31];
    let smi_legacy: [u8; 7] = [0x34, 0x53, 0x4d, 0x49, 0x30, 0x30, 0x31];
    assert(reg_full@ == reg_magic());
    assert(reg_legacy@ == reg_legacy_magic());
    assert(smi_full@ == smi_magic());
    assert(smi_legacy@ == smi_legacy_magic());
    match header_of(bytes, &reg_full, &reg_legacy, "Z4REG001K", "4REG001K") {
        Some((magic, h)) => {
            let entries = decode_registry(bytes, h, path)?;
            if entries.len() == 0 {
                let mut msg = String::from_str("No z4.reg entries found in ");
                push_str(&mut msg, path);
                return Err(msg);
            }
            Ok(RegistryArtifact::Registry { magic, entries })
        },
        None => match header_of(bytes, &smi_full, &smi_legacy, "Z4SMI001", "4SMI001") {
            Some((magic, h)) => {
                let entries = decode_catalog(bytes, h);
                if entries.len() == 0 {
                    let mut msg = String::from_str("No catalog entries found in ");
                    push_str(&mut msg, path);
                    return Err(msg);
                }
                Ok(RegistryArtifact::Catalog { magic, entries })
            },
            None => {
                let mut msg = String::from_str("Unsupported z4 registry artifact '");
                push_str(&mut msg, path);
                push_str(&mut msg, "': expected Z4REG001K/Z4SMI001");
                Err(msg)
            },
        },
    }
}

// ───────────────────────── display aliases ─────────────────────────

/// Text-to-text bindings; a later binding of a key shadows earlier ones.
pub open spec fn bindings_view(v: Seq<(String, String)>) -> Map<Seq<char>, Seq<char>>
    decreases v.len(),
{
    if v.len() == 0 {
        Map::empty()
    } else {
        bindings_view(v.drop_last()).insert(v.last().0@, v.last().1@)
    }
}

/// The value bound to `key` in `v`.
fn lookup(v: &Vec<(String, String)>, key: &[char]) -> (r: Option<String>)
    ensures
        match r {
            Some(x) => bindings_view(v@).contains_key(key@) && x@ == bindings_view(v@)[key@],
            None => !bindings_view(v@).contains_key(key@),
        },
{
    let mut n = v.len();
    while n > 0
        invariant
            n <= v.len(),
            forall|j: int| n <= j < v.len() ==> #[trigger] v@[j].0@ != key@,
            bindings_view(v@).contains_key(key@) == bindings_view(v@.take(n as int)).contains_key(
                key@,
            ),
            bindings_view(v@).contains_key(key@) ==> bindings_view(v@)[key@] == bindings_view(
                v@.take(n as int),
            )[key@],
        decreases n,
    {
        let k = chars_of(v[n - 1].0.as_str());
        assert(v@.take(n as int).drop_last() == v@.take(n - 1));
        assert(v@.take(n as int).last() == v@[n - 1]);
        if crate::text::matches_at(&k, 0, key) && k.len() == key.len() {
            assert(k@.subrange(0, key@.len() as int) == k@);
            return Some(v[n - 1].1.clone());
        }
        proof {
            if k@ == key@ {
                assert(k@.subrange(0, key@.len() as int) == key@);
            }
        }
        n -= 1;
    }
    assert(v@.take(0) == Seq::<(String, String)>::empty());
    None
}

/// Display names for registry paths: by normalised relative path, and by
/// file name when that file name is unique in the registry.
#[derive(Debug, Clone)]
pub struct RegistryAliases {
    by_rel_path: Vec<(String, String)>,
    by_file_name: Vec<(String, String)>,
}

impl RegistryAliases {
    pub closed spec fn rel_view(&self) -> Map<Seq<char>, Seq<char>> {
        bindings_view(self.by_rel_path@)
    }

    pub closed spec fn file_view(&self) -> Map<Seq<char>, Seq<char>> {
        bindings_view(self.by_file_name@)
    }

    /// No aliases at all.
    pub fn new() -> (r: Self)
        ensures
            r.rel_view() == Map::<Seq<char>, Seq<char>>::empty(),
            r.file_view() == Map::<Seq<char>, Seq<char>>::empty(),
    {
        RegistryAliases { by_rel_path: Vec::new(), by_file_name: Vec::new() }
    }

    /// The alias of `rel_path` (normalised), else the alias of `filename`.
    pub fn display_name(&self, rel_path: &str, filename: &str) -> (r: Option<String>)
        ensures
            ({
                let rel = normalize_rel_path_s(rel_path@);
                if self.rel_view().contains_key(rel) {
                    r matches Some(x) && x@ == self.rel_view()[rel]
                } else if self.file_view().contains_key(filename@) {
                    r matches Some(x) && x@ == self.file_view()[filename@]
                } else {
                    r is None
                }
            }),
    {
        let rel = normalize_rel_path(rel_path);
        let key = chars_of(rel.as_str());
        match lookup(&self.by_rel_path, &key) {
            Some(x) => Some(x),
            None => {
                let f = chars_of(filename);
                lookup(&self.by_file_name, &f)
            },
        }
    }

    /// Whether no alias is known.
    pub fn is_empty(&self) -> (r: bool)
        ensures
            r == (self.rel_view().dom().len() == 0 && self.file_view().dom().len() == 0),
    {
        proof {
            lemma_bindings_empty(self.by_rel_path@);
            lemma_bindings_empty(self.by_file_name@);
        }
        self.by_rel_path.len() == 0 && self.by_file_name.len() == 0
    }
}

proof fn lemma_bindings_empty(v: Seq<(String, String)>)
    ensures
        bindings_view(v).dom().finite(),
        (bindings_view(v).dom().len() == 0) == (v.len() == 0),
    decreases v.len(),
{
    if v.len() > 0 {
        lemma_bindings_empty(v.drop_last());
        let m = bindings_view(v.drop_last());
        assert(m.insert(v.last().0@, v.last().1@).dom().contains(v.last().0@));
        assert(m.insert(v.last().0@, v.last().1@).dom() == m.dom().insert(v.last().0@));
    } else {
        assert(bindings_view(v).dom() == Set::<Seq<char>>::empty());
    }
}

/// The path a registry record is listed under.
pub open spec fn record_path(r: RegRecord) -> Seq<char> {
    normalize_rel_path_s(r.name)
}

/// The alias shown for a registry record: `[0x<id>] <file name>`.
pub open spec fn alias_text(r: RegRecord) -> Seq<char> {
    "[0x"@ + crate::text::hex_s(r.id as nat) + "] "@ + basename_s(record_path(r))
}

/// How many of the first `n` entries have file name `name`.
pub open spec fn basename_count(es: Seq<RegRecord>, n: int, name: Seq<char>) -> nat
    decreases n,
{
    if n <= 0 {
        0
    } else {
        basename_count(es, n - 1, name) + if basename_s(record_path(es[n - 1])) == name {
            1nat
        } else {
            0nat
        }
    }
}

/// Aliases by relative path after the first `n` entries.
pub open spec fn rel_aliases(es: Seq<RegRecord>, n: int) -> Map<Seq<char>, Seq<char>>
    decreases n,
{
    if n <= 0 {
        Map::empty()
    } else {
        rel_aliases(es, n - 1).insert(normalize_rel_path_s(record_path(es[n - 1])), alias_text(es[n - 1]))
    }
}

/// Aliases by unique file name after the first `n` entries.
pub open spec fn file_aliases(es: Seq<RegRecord>, n: int) -> Map<Seq<char>, Seq<char>>
    decreases n,
{
    if n <= 0 {
        Map::empty()
    } else if basename_count(es, es.len() as int, basename_s(record_path(es[n - 1]))) == 1 {
        file_aliases(es, n - 1).insert(basename_s(record_path(es[n - 1])), alias_text(es[n - 1]))
    } else {
        file_aliases(es, n - 1)
    }
}

/// The aliases of the entries of a registry.
fn aliases_of_entries(entries: &Vec<RegistryEntry>, Ghost(recs): Ghost<Seq<RegRecord>>) -> (r: RegistryAliases)
    requires
        entries.len() == recs.len(),
        forall|k: int| 0 <= k < entries.len() ==> reg_entry_agrees(#[trigger] entries@[k], recs[k]),
    ensures
        r.rel_view() == rel_aliases(recs, recs.len() as int),
        r.file_view() == file_aliases(recs, recs.len() as int),
{
    let mut names: Vec<Vec<char>> = Vec::new();
    let mut i: usize = 0;
    while i < entries.len()
        invariant
            i <= entries.len() == recs.len(),
            forall|k: int| 0 <= k < entries.len() ==> reg_entry_agrees(#[trigger] entries@[k], recs[k]),
            names.len() == i,
            forall|j: int| 0 <= j < i ==> #[trigger] names@[j]@ == basename_s(record_path(recs[j])),
        decreases entries.len() - i,
    {
        assert(reg_entry_agrees(entries@[i as int], recs[i as int]));
        let b = basename(entries[i].path.as_str());
        names.push(chars_of(b.as_str()));
        i += 1;
    }
    let mut rel: Vec<(String, String)> = Vec::new();
    let mut files: Vec<(String, String)> = Vec::new();
    let mut k: usize = 0;
    while k < entries.len()
        invariant
            k <= entries.len() == names.len() == recs.len(),
            forall|j: int| 0 <= j < entries.len() ==> reg_entry_agrees(#[trigger] entries@[j], recs[j]),
            forall|j: int| 0 <= j < entries.len() ==> #[trigger] names@[j]@ == basename_s(record_path(recs[j])),
            bindings_view(rel@) == rel_aliases(recs, k as int),
            bindings_view(files@) == file_aliases(recs, k as int),
        decreases entries.len() - k,
    {
        let e = &entries[k];
        assert(reg_entry_agrees(entries@[k as int], recs[k as int]));
        let mut alias = String::from_str("[0x");
        crate::text::push_hex(&mut alias, e.id);
        push_str(&mut alias, "] ");
        push_chars(&mut alias, &names[k]);
        assert(alias@ == alias_text(recs[k as int]));
        let key = normalize_rel_path(e.path.as_str());
        let ghost rel0 = rel@;
        rel.push((key, alias.clone()));
        assert(rel@.drop_last() == rel0);
        let cnt = count_equal(&names, k, Ghost(recs));
        if cnt == 1 {
            let ghost files0 = files@;
            files.push((string_of_range(&names[k], 0, names[k].len()), alias));
            assert(files@.drop_last() == files0);
            assert(names@[k as int]@.subrange(0, names@[k as int]@.len() as int) == names@[k as int]@);
        }
        k += 1;
    }
    RegistryAliases { by_rel_path: rel, by_file_name: files }
}

/// How many of `names` equal `names[k]`.
fn count_equal(names: &Vec<Vec<char>>, k: usize, Ghost(es): Ghost<Seq<RegRecord>>) -> (n: usize)
    requires
        k < names.len() == es.len(),
        forall|j: int| 0 <= j < names.len() ==> #[trigger] names@[j]@ == basename_s(record_path(es[j])),
    ensures
        n == basename_count(es, es.len() as int, basename_s(record_path(es[k as int]))),
{
    let target = &names[k];
    let mut n: usize = 0;
    let mut i: usize = 0;
    while i < names.len()
        invariant
            i <= names.len() == es.len(),
            k < names.len(),
            target@ == basename_s(record_path(es[k as int])),
            forall|j: int| 0 <= j < names.len() ==> #[trigger] names@[j]@ == basename_s(record_path(es[j])),
            n == basename_count(es, i as int, target@),
            n <= i,
        decreases names.len() - i,
    {
        let same = names[i].len() == target.len() && crate::text::matches_at(&names[i], 0, target);
        proof {
            if names[i as int]@.len() == target@.len() {
                assert(names[i as int]@.subrange(0, target@.len() as int) == names[i as int]@);
            }
            assert(same == (names@[i as int]@ == target@));
        }
        if same {
            n += 1;
        }
        i += 1;
    }
    n
}

/// The aliases a `z4.reg` file yields: none when it could not be read, is
/// not a registry, or does not decode.
pub fn registry_aliases_from(registry_path: &str, bytes: Option<&[u8]>) -> (r: RegistryAliases)
    ensures
        match bytes {
            Some(b) => match parse_artifact_s(b@, registry_path@) {
                Ok(ArtifactSpec::Registry { entries, .. }) => r.rel_view() == rel_aliases(
                    entries,
                    entries.len() as int,
                ) && r.file_view() == file_aliases(entries, entries.len() as int),
                _ => r.rel_view() == Map::<Seq<char>, Seq<char>>::empty() && r.file_view()
                    == Map::<Seq<char>, Seq<char>>::empty(),
            },
            None => r.rel_view() == Map::<Seq<char>, Seq<char>>::empty() && r.file_view() == Map::<
                Seq<char>,
                Seq<char>,
            >::empty(),
        },
{
    match bytes {
        None => RegistryAliases::new(),
        Some(b) => {
            let parsed = parse_registry_artifact(registry_path, b);
            match parsed {
                Ok(RegistryArtifact::Registry { entries, .. }) => {
                    let ghost recs = match parse_artifact_s(b@, registry_path@) {
                        Ok(ArtifactSpec::Registry { entries, .. }) => entries,
                        _ => Seq::empty(),
                    };
                    aliases_of_entries(&entries, Ghost(recs))
                },
                _ => RegistryAliases::new(),
            }
        },
    }
}


// ───────────────────────── reports ─────────────────────────

pub open spec fn reg_row(e: RegistryEntry) -> Seq<char> {
    "offset="@ + hex0x_s(e.offset as nat) + " id="@ + hex0x_s(e.id as nat) + " class="@ + hex0x_s(
        e.class as nat,
    ) + "("@ + e.class_label@ + ") len="@ + hex0x_s(e.name_len as nat) + " path="@ + e.path@
        + "\n"@
}

pub open spec fn cat_row(e: CatalogEntry) -> Seq<char> {
    "slot="@ + hex0x_s(e.slot as nat) + " offset="@ + hex0x_s(e.offset as nat) + " path="@ + e.path@
        + "\n"@
}

pub open spec fn reg_rows(es: Seq<RegistryEntry>) -> Seq<char>
    decreases es.len(),
{
    if es.len() == 0 {
        seq![]
    } else {
        reg_rows(es.drop_last()) + reg_row(es.last())
    }
}

pub open spec fn cat_rows(es: Seq<CatalogEntry>) -> Seq<char>
    decreases es.len(),
{
    if es.len() == 0 {
        seq![]
    } else {
        cat_rows(es.drop_last()) + cat_row(es.last())
    }
}

pub open spec fn more_entries(n: nat, max: nat) -> Seq<char> {
    if n > max {
        "... "@ + hex0x_s((n - max) as nat) + " more entries\n"@
    } else {
        seq![]
    }
}

pub open spec fn min_nat(a: nat, b: nat) -> nat {
    if a <= b {
        a
    } else {
        b
    }
}

/// The table listing an artifact: a header line, then at most
/// `max_entries` entries, then how many were left out.
pub open spec fn registry_table_s(path: Seq<char>, a: RegistryArtifact, max_entries: nat) -> Seq<char> {
    match a {
        RegistryArtifact::Registry { magic, entries } => "# Z4_REG_READER\npath="@ + path
            + " kind=registry magic="@ + magic@ + " entries="@ + hex0x_s(entries@.len()) + "\n"@
            + reg_rows(entries@.take(min_nat(max_entries, entries@.len()) as int)) + more_entries(
            entries@.len(),
            max_entries,
        ),
        RegistryArtifact::Catalog { magic, entries } => "# Z4_REG_READER\npath="@ + path
            + " kind=catalog magic="@ + magic@ + " entries="@ + hex0x_s(entries@.len()) + "\n"@
            + cat_rows(entries@.take(min_nat(max_entries, entries@.len()) as int)) + more_entries(
            entries@.len(),
            max_entries,
        ),
    }
}

fn push_more(out: &mut String, n: usize, max: usize)
    ensures
        final(out)@ == old(out)@ + more_entries(n as nat, max as nat),
{
    if n > max {
        push_str(out, "... ");
        push_hex0x(out, (n - max) as u64);
        push_str(out, " more entries\n");
    }
}

fn push_reg_row(out: &mut String, e: &RegistryEntry)
    ensures
        final(out)@ == old(out)@ + reg_row(*e),
{
    let ghost o = out@;
    push_str(out, "offset=");
    push_hex0x(out, e.offset as u64);
    push_str(out, " id=");
    push_hex0x(out, e.id);
    push_str(out, " class=");
    push_hex0x(out, e.class);
    push_str(out, "(");
    push_str(out, e.class_label);
    push_str(out, ") len=");
    push_hex0x(out, e.name_len as u64);
    push_str(out, " path=");
    push_str(out, e.path.as_str());
    push_str(out, "\n");
    assert(out@ == o + reg_row(*e));
}

fn push_cat_row(out: &mut String, e: &CatalogEntry)
    ensures
        final(out)@ == old(out)@ + cat_row(*e),
{
    let ghost o = out@;
    push_str(out, "slot=");
    push_hex0x(out, e.slot as u64);
    push_str(out, " offset=");
    push_hex0x(out, e.offset as u64);
    push_str(out, " path=");
    push_str(out, e.path.as_str());
    push_str(out, "\n");
    assert(out@ == o + cat_row(*e));
}

/// Renders a decoded artifact as a table.
pub fn render_registry_table(path: &str, artifact: &RegistryArtifact, max_entries: usize) -> (r: String)
    ensures
        r@ == registry_table_s(path@, *artifact, max_entries as nat),
{
    let mut out = String::from_str("# Z4_REG_READER\npath=");
    push_str(&mut out, path);
    match artifact {
        RegistryArtifact::Registry { magic, entries } => {
            push_str(&mut out, " kind=registry magic=");
            push_str(&mut out, magic);
            push_str(&mut out, " entries=");
            push_hex0x(&mut out, entries.len() as u64);
            push_str(&mut out, "\n");
            let n = if max_entries < entries.len() {
                max_entries
            } else {
                entries.len()
            };
            let ghost head = out@;
            let mut k: usize = 0;
            while k < n
                invariant
                    k <= n <= entries.len(),
                    out@ == head + reg_rows(entries@.take(k as int)),
                decreases n - k,
            {
                assert(entries@.take(k + 1).drop_last() == entries@.take(k as int));
                push_reg_row(&mut out, &entries[k]);
                k += 1;
            }
            push_more(&mut out, entries.len(), max_entries);
        },
        RegistryArtifact::Catalog { magic, entries } => {
            push_str(&mut out, " kind=catalog magic=");
            push_str(&mut out, magic);
            push_str(&mut out, " entries=");
            push_hex0x(&mut out, entries.len() as u64);
            push_str(&mut out, "\n");
            let n = if max_entries < entries.len() {
                max_entries
            } else {
                entries.len()
            };
            let ghost head = out@;
            let mut k: usize = 0;
            while k < n
                invariant
                    k <= n <= entries.len(),
                    out@ == head + cat_rows(entries@.take(k as int)),
                decreases n - k,
            {
                assert(entries@.take(k + 1).drop_last() == entries@.take(k as int));
                push_cat_row(&mut out, &entries[k]);
                k += 1;
            }
            push_more(&mut out, entries.len(), max_entries);
        },
    }
    out
}

/// What reading a registry answers: a table, or the artifact (with at most
/// the requested number of entries) to be written as JSON.
pub enum RegistryReport {
    Table(String),
    Json(RegistryArtifact),
}

pub open spec fn unsupported_format_msg(f: Seq<char>) -> Seq<char> {
    "Unsupported output_format '"@ + f + "'. Use 'table' or 'json'."@
}

/// Decodes an artifact and reports it in the requested format (`table` or
/// `json`), listing at least one entry.
pub fn read_registry(path: &str, bytes: &[u8], output_format: &str, max_entries: usize) -> (r: Result<
    RegistryReport,
    String,
>)
    ensures
        match parse_artifact_s(bytes@, path@) {
            Err(m) => r matches Err(e) && e@ == m,
            Ok(a) => if output_format@ == "table"@ {
                r matches Ok(RegistryReport::Table(t)) && exists|x: RegistryArtifact|
                    artifact_agrees(x, a) && t@ == registry_table_s(
                        path@,
                        x,
                        if max_entries == 0 {
                            1nat
                        } else {
                            max_entries as nat
                        },
                    )
            } else if output_format@ == "json"@ {
                r matches Ok(RegistryReport::Json(x)) && exists|full: RegistryArtifact|
                    #![trigger artifact_agrees(full, a)]
                    artifact_agrees(full, a) && kept_first(
                        x,
                        full,
                        if max_entries == 0 {
                            1nat
                        } else {
                            max_entries as nat
                        },
                    )
            } else {
                r matches Err(e) && e@ == unsupported_format_msg(output_format@)
            },
        },
{
    let artifact = match parse_registry_artifact(path, bytes) {
        Err(e) => {
            return Err(e);
        },
        Ok(a) => a,
    };
    let max = if max_entries == 0 {
        1
    } else {
        max_entries
    };
    let f = chars_of(output_format);
    let table = chars_of("table");
    let json = chars_of("json");
    if crate::text::chars_eq(&f, &table) {
        return Ok(RegistryReport::Table(render_registry_table(path, &artifact, max)));
    }
    if crate::text::chars_eq(&f, &json) {
        proof {
            reveal_strlit("table");
            reveal_strlit("json");
        }
        return Ok(RegistryReport::Json(first_entries(artifact, max)));
    }
    let mut m = String::from_str("Unsupported output_format '");
    push_str(&mut m, output_format);
    push_str(&mut m, "'. Use 'table' or 'json'.");
    Err(m)
}

/// `x` is `full` with only its first `max` entries.
pub open spec fn kept_first(x: RegistryArtifact, full: RegistryArtifact, max: nat) -> bool {
    match (x, full) {
        (
            RegistryArtifact::Registry { magic: m1, entries: e1 },
            RegistryArtifact::Registry { magic: m2, entries: e2 },
        ) => m1 == m2 && e1@ == e2@.take(min_nat(max, e2@.len()) as int),
        (
            RegistryArtifact::Catalog { magic: m1, entries: e1 },
            RegistryArtifact::Catalog { magic: m2, entries: e2 },
        ) => m1 == m2 && e1@ == e2@.take(min_nat(max, e2@.len()) as int),
        _ => false,
    }
}

fn first_entries(a: RegistryArtifact, max: usize) -> (r: RegistryArtifact)
    ensures
        kept_first(r, a, max as nat),
{
    match a {
        RegistryArtifact::Registry { magic, entries } => {
            let mut entries = entries;
            if entries.len() > max {
                entries.truncate(max);
            }
            RegistryArtifact::Registry { magic, entries }
        },
        RegistryArtifact::Catalog { magic, entries } => {
            let mut entries = entries;
            if entries.len() > max {
                entries.truncate(max);
            }
            RegistryArtifact::Catalog { magic, entries }
        },
    }
}

// ───────────────────────── build units ─────────────────────────

/// What a rename of one symbol touches in one build unit.
pub struct UnitReport {
    pub alias: String,
    pub catalog_rel: String,
    pub defs: usize,
    pub uses: usize,
    /// Files defining the symbol, in ascending order without repeats.
    pub def_files: Vec<String>,
    /// Files using the symbol, in ascending order without repeats.
    pub use_files: Vec<String>,
}

pub open spec fn units_with_defs(rs: Seq<UnitReport>) -> nat
    decreases rs.len(),
{
    if rs.len() == 0 {
        0
    } else {
        units_with_defs(rs.drop_last()) + if rs.last().defs > 0 {
            1nat
        } else {
            0nat
        }
    }
}

pub open spec fn units_with_uses(rs: Seq<UnitReport>) -> nat
    decreases rs.len(),
{
    if rs.len() == 0 {
        0
    } else {
        units_with_uses(rs.drop_last()) + if rs.last().uses > 0 {
            1nat
        } else {
            0nat
        }
    }
}

/// How safe renaming the symbol is, given the units that define or use it.
pub open spec fn guard_status_s(rs: Seq<UnitReport>) -> Seq<char> {
    let d = units_with_defs(rs);
    let u = units_with_uses(rs);
    if rs.len() == 0 {
        "not_found"@
    } else if d == 0 {
        "usage_without_definition"@
    } else if d == 1 && rs.len() == 1 {
        "single_unit_safe"@
    } else if d == 1 && u > 1 {
        "cross_unit_references"@
    } else if d == 1 {
        "single_definition_multi_file"@
    } else {
        "multi_unit_collision"@
    }
}

proof fn lemma_unit_counts(rs: Seq<UnitReport>)
    ensures
        units_with_defs(rs) <= rs.len(),
        units_with_uses(rs) <= rs.len(),
    decreases rs.len(),
{
    if rs.len() > 0 {
        lemma_unit_counts(rs.drop_last());
    }
}

/// The rename status, with the numbers of units that define and that use the symbol.
pub fn rename_guard_status(reports: &Vec<UnitReport>) -> (r: (&'static str, usize, usize))
    ensures
        r.0@ == guard_status_s(reports@),
        r.1 == units_with_defs(reports@),
        r.2 == units_with_uses(reports@),
{
    let mut d: usize = 0;
    let mut u: usize = 0;
    let mut i: usize = 0;
    while i < reports.len()
        invariant
            i <= reports.len(),
            d == units_with_defs(reports@.take(i as int)),
            u == units_with_uses(reports@.take(i as int)),
            d <= i,
            u <= i,
        decreases reports.len() - i,
    {
        assert(reports@.take(i + 1).drop_last() == reports@.take(i as int));
        if reports[i].defs > 0 {
            d += 1;
        }
        if reports[i].uses > 0 {
            u += 1;
        }
        i += 1;
    }
    assert(reports@.take(reports.len() as int) == reports@);
    let status = if reports.len() == 0 {
        "not_found"
    } else if d == 0 {
        "usage_without_definition"
    } else if d == 1 && reports.len() == 1 {
        "single_unit_safe"
    } else if d == 1 && u > 1 {
        "cross_unit_references"
    } else if d == 1 {
        "single_definition_multi_file"
    } else {
        "multi_unit_collision"
    };
    (status, d, u)
}

/// One catalog of a build-unit scan: its display name and its entries (or
/// why they could not be read).
pub struct UnitCatalog {
    pub alias: String,
    pub entries: Result<Vec<CatalogEntry>, String>,
}

pub open spec fn unit_rows(es: Seq<CatalogEntry>) -> Seq<char>
    decreases es.len(),
{
    if es.len() == 0 {
        seq![]
    } else {
        unit_rows(es.drop_last()) + "  "@ + hex0x_s(es.last().slot as nat) + " "@ + es.last().path@
            + "\n"@
    }
}

pub open spec fn unit_block(alias: Seq<char>, es: Seq<CatalogEntry>, max_entries: nat) -> Seq<char> {
    "unit="@ + alias + " files="@ + hex0x_s(es.len()) + "\n"@ + unit_rows(
        es.take(min_nat(max_entries, es.len()) as int),
    ) + (if es.len() > max_entries {
        "  ... "@ + hex0x_s((es.len() - max_entries) as nat) + " more files\n"@
    } else {
        seq![]
    })
}

/// The blocks of the first `n` catalogs, or the first error met.
pub open spec fn unit_blocks(cs: Seq<UnitCatalog>, n: int, max_entries: nat) -> Result<Seq<char>, Seq<char>>
    decreases n,
{
    if n <= 0 {
        Ok(seq![])
    } else {
        match unit_blocks(cs, n - 1, max_entries) {
            Err(e) => Err(e),
            Ok(t) => match cs[n - 1].entries {
                Err(e) => Err(e@),
                Ok(es) => Ok(t + unit_block(cs[n - 1].alias@, es@, max_entries)),
            },
        }
    }
}

/// The build-unit listing: each catalog (at most `max_units`) with its files
/// (at most `max_entries` each).
pub open spec fn build_units_s(cs: Seq<UnitCatalog>, max_units: usize, max_entries: usize) -> Result<Seq<char>, Seq<char>> {
    let mu = if max_units == 0 { 1nat } else { max_units as nat };
    let me = if max_entries == 0 { 1nat } else { max_entries as nat };
    match unit_blocks(cs, min_nat(mu, cs.len()) as int, me) {
        Err(e) => Err(e),
        Ok(t) => Ok("# Z4_UNIT_SCAN\nmode=build_units units="@ + hex0x_s(cs.len()) + "\n"@ + t + (if cs.len() > mu {
            "... "@ + hex0x_s((cs.len() - mu) as nat) + " more units\n"@
        } else {
            seq![]
        })),
    }
}

fn push_unit_block(out: &mut String, alias: &str, es: &Vec<CatalogEntry>, max_entries: usize)
    ensures
        final(out)@ == old(out)@ + unit_block(alias@, es@, max_entries as nat),
{
    let ghost o = out@;
    push_str(out, "unit=");
    push_str(out, alias);
    push_str(out, " files=");
    push_hex0x(out, es.len() as u64);
    push_str(out, "\n");
    let ghost head = out@;
    let n = if max_entries < es.len() {
        max_entries
    } else {
        es.len()
    };
    let mut k: usize = 0;
    while k < n
        invariant
            k <= n <= es.len(),
            out@ == head + unit_rows(es@.take(k as int)),
        decreases n - k,
    {
        assert(es@.take(k + 1).drop_last() == es@.take(k as int));
        push_str(out, "  ");
        push_hex0x(out, es[k].slot as u64);
        push_str(out, " ");
        push_str(out, es[k].path.as_str());
        push_str(out, "\n");
        k += 1;
    }
    if es.len() > max_entries {
        push_str(out, "  ... ");
        push_hex0x(out, (es.len() - max_entries) as u64);
        push_str(out, " more files\n");
    }
}

proof fn lemma_unit_blocks_err(cs: Seq<UnitCatalog>, j: int, n: int, me: nat)
    requires
        0 <= j <= n,
        unit_blocks(cs, j, me) is Err,
    ensures
        unit_blocks(cs, n, me) == unit_blocks(cs, j, me),
    decreases n - j,
{
    if n > j {
        lemma_unit_blocks_err(cs, j, n - 1, me);
    }
}

/// Lists the build units of the selected catalogs.
pub fn render_build_units(units: &Vec<UnitCatalog>, max_units: usize, max_entries: usize) -> (r: Result<String, String>)
    ensures
        res_view(r) == build_units_s(units@, max_units, max_entries),
{
    let mu = if max_units == 0 { 1 } else { max_units };
    let me = if max_entries == 0 { 1 } else { max_entries };
    let mut out = String::from_str("# Z4_UNIT_SCAN\nmode=build_units units=");
    push_hex0x(&mut out, units.len() as u64);
    push_str(&mut out, "\n");
    let ghost head = out@;
    let ghost mut body: Seq<char> = seq![];
    assert(out@ == head + body);
    let n = if mu < units.len() { mu } else { units.len() };
    let mut k: usize = 0;
    while k < n
        invariant
            k <= n <= units.len(),
            me as nat == (if max_entries == 0 { 1nat } else { max_entries as nat }),
            mu as nat == (if max_units == 0 { 1nat } else { max_units as nat }),
            n as nat == min_nat(mu as nat, units@.len()),
            head == "# Z4_UNIT_SCAN\nmode=build_units units="@ + hex0x_s(units@.len()) + "\n"@,
            unit_blocks(units@, k as int, me as nat) == Ok::<Seq<char>, Seq<char>>(body),
            out@ == head + body,
        decreases n - k,
    {
        match &units[k].entries {
            Err(e) => {
                let m = e.clone();
                assert(unit_blocks(units@, k + 1, me as nat) == Err::<Seq<char>, Seq<char>>(e@));
                proof {
                    lemma_unit_blocks_err(units@, k + 1, n as int, me as nat);
                }
                return Err(m);
            },
            Ok(es) => {
                push_unit_block(&mut out, units[k].alias.as_str(), es, me);
                proof {
                    body = body + unit_block(units@[k as int].alias@, es@, me as nat);
                }
            },
        }
        k += 1;
    }
    let ghost before = out@;
    if units.len() > mu {
        push_str(&mut out, "... ");
        push_hex0x(&mut out, (units.len() - mu) as u64);
        push_str(&mut out, " more units\n");
        assert(out@ == before + ("... "@ + hex0x_s((units@.len() - mu) as nat) + " more units\n"@));
    } else {
        assert(out@ == before + Seq::<char>::empty());
    }
    Ok(out)
}

pub open spec fn sum_defs(rs: Seq<UnitReport>) -> nat
    decreases rs.len(),
{
    if rs.len() == 0 {
        0
    } else {
        sum_defs(rs.drop_last()) + rs.last().defs as nat
    }
}

pub open spec fn sum_uses(rs: Seq<UnitReport>) -> nat
    decreases rs.len(),
{
    if rs.len() == 0 {
        0
    } else {
        sum_uses(rs.drop_last()) + rs.last().uses as nat
    }
}

/// `v.join(",")`.
pub open spec fn join_with_commas(v: Seq<Seq<char>>) -> Seq<char>
    decreases v.len(),
{
    if v.len() == 0 {
        seq![]
    } else if v.len() == 1 {
        v[0]
    } else {
        join_with_commas(v.drop_last()) + ","@ + v.last()
    }
}

/// The lines of one unit of the rename report.
pub open spec fn unit_report_text(r: UnitReport) -> Seq<char> {
    "unit="@ + r.alias@ + " defs="@ + hex0x_s(r.defs as nat) + " uses="@ + hex0x_s(r.uses as nat)
        + "\n"@ + files_line("  def_files="@, r.def_files@) + files_line("  use_files="@, r.use_files@)
        + "  catalog="@ + r.catalog_rel@ + "\n"@
}

/// `label` and the files joined by commas on one line, or nothing when there are no files.
pub open spec fn files_line(label: Seq<char>, v: Seq<String>) -> Seq<char> {
    if v.len() > 0 {
        label + join_with_commas(strings_view(v)) + "\n"@
    } else {
        seq![]
    }
}

fn push_files_line(out: &mut String, label: &str, v: &Vec<String>)
    ensures
        final(out)@ == old(out)@ + files_line(label@, v@),
{
    if v.len() > 0 {
        push_str(out, label);
        push_joined_commas(out, v);
        push_str(out, "\n");
    }
}

pub open spec fn unit_reports_text(rs: Seq<UnitReport>) -> Seq<char>
    decreases rs.len(),
{
    if rs.len() == 0 {
        seq![]
    } else {
        unit_reports_text(rs.drop_last()) + unit_report_text(rs.last())
    }
}

/// The rename report for `symbol`: its status over all units, then the units
/// (at most `max_units`).
pub open spec fn rename_guard_s(symbol: Seq<char>, rs: Seq<UnitReport>, max_units: usize) -> Seq<char> {
    if rs.len() == 0 {
        "# Z4_UNIT_SCAN\nmode=rename_guard symbol="@ + symbol + " status=not_found units=0x0\n"@
    } else {
        let mu = if max_units == 0 { 1nat } else { max_units as nat };
        "# Z4_UNIT_SCAN\nmode=rename_guard symbol="@ + symbol + " status="@ + guard_status_s(rs)
            + " units="@ + hex0x_s(rs.len()) + " def_units="@ + hex0x_s(units_with_defs(rs))
            + " use_units="@ + hex0x_s(units_with_uses(rs)) + " defs="@ + hex0x_s(sum_defs(rs))
            + " uses="@ + hex0x_s(sum_uses(rs)) + "\n"@ + unit_reports_text(
            rs.take(min_nat(mu, rs.len()) as int),
        ) + (if rs.len() > mu {
            "... "@ + hex0x_s((rs.len() - mu) as nat) + " more units\n"@
        } else {
            seq![]
        })
    }
}

fn push_joined_commas(out: &mut String, v: &Vec<String>)
    ensures
        final(out)@ == old(out)@ + join_with_commas(strings_view(v@)),
{
    let ghost o = out@;
    let mut i: usize = 0;
    while i < v.len()
        invariant
            i <= v.len(),
            out@ == o + join_with_commas(strings_view(v@).take(i as int)),
        decreases v.len() - i,
    {
        let ghost t = strings_view(v@).take(i + 1);
        assert(t.drop_last() == strings_view(v@).take(i as int));
        assert(t.last() == v@[i as int]@);
        if i > 0 {
            push_str(out, ",");
        } else {
            assert(t.len() == 1);
        }
        push_str(out, v[i].as_str());
        i += 1;
    }
    assert(strings_view(v@).take(v.len() as int) == strings_view(v@));
}

fn push_unit_report(out: &mut String, r: &UnitReport)
    ensures
        final(out)@ == old(out)@ + unit_report_text(*r),
{
    let ghost o = out@;
    push_str(out, "unit=");
    push_str(out, r.alias.as_str());
    push_str(out, " defs=");
    push_hex0x(out, r.defs as u64);
    push_str(out, " uses=");
    push_hex0x(out, r.uses as u64);
    push_str(out, "\n");
    push_files_line(out, "  def_files=", &r.def_files);
    push_files_line(out, "  use_files=", &r.use_files);
    push_str(out, "  catalog=");
    push_str(out, r.catalog_rel.as_str());
    push_str(out, "\n");
    assert(out@ == o + unit_report_text(*r));
}

proof fn lemma_sums_mono(rs: Seq<UnitReport>, k: int)
    requires
        0 <= k <= rs.len(),
    ensures
        sum_defs(rs.take(k)) <= sum_defs(rs),
        sum_uses(rs.take(k)) <= sum_uses(rs),
    decreases rs.len() - k,
{
    if k < rs.len() {
        lemma_sums_mono(rs, k + 1);
        assert(rs.take(k + 1).drop_last() == rs.take(k));
    } else {
        assert(rs.take(k) == rs);
    }
}

/// Renders the rename report for `symbol_name`.
pub fn render_rename_guard(symbol_name: &str, reports: &Vec<UnitReport>, max_units: usize) -> (r: String)
    requires
        sum_defs(reports@) <= usize::MAX,
        sum_uses(reports@) <= usize::MAX,
    ensures
        r@ == rename_guard_s(symbol_name@, reports@, max_units),
{
    if reports.len() == 0 {
        let mut out = String::from_str("# Z4_UNIT_SCAN\nmode=rename_guard symbol=");
        push_str(&mut out, symbol_name);
        push_str(&mut out, " status=not_found units=0x0\n");
        return out;
    }
    let mut td: usize = 0;
    let mut tu: usize = 0;
    let mut i: usize = 0;
    while i < reports.len()
        invariant
            i <= reports.len(),
            sum_defs(reports@) <= usize::MAX,
            sum_uses(reports@) <= usize::MAX,
            td == sum_defs(reports@.take(i as int)),
            tu == sum_uses(reports@.take(i as int)),
        decreases reports.len() - i,
    {
        proof {
            lemma_sums_mono(reports@, i + 1);
        }
        assert(reports@.take(i + 1).drop_last() == reports@.take(i as int));
        td = td + reports[i].defs;
        tu = tu + reports[i].uses;
        i += 1;
    }
    assert(reports@.take(reports.len() as int) == reports@);
    let (status, du, uu) = rename_guard_status(reports);
    let mu = if max_units == 0 { 1 } else { max_units };
    let mut out = String::from_str("# Z4_UNIT_SCAN\nmode=rename_guard symbol=");
    push_str(&mut out, symbol_name);
    push_str(&mut out, " status=");
    push_str(&mut out, status);
    push_str(&mut out, " units=");
    push_hex0x(&mut out, reports.len() as u64);
    push_str(&mut out, " def_units=");
    push_hex0x(&mut out, du as u64);
    push_str(&mut out, " use_units=");
    push_hex0x(&mut out, uu as u64);
    push_str(&mut out, " defs=");
    push_hex0x(&mut out, td as u64);
    push_str(&mut out, " uses=");
    push_hex0x(&mut out, tu as u64);
    push_str(&mut out, "\n");
    let ghost head = out@;
    let n = if mu < reports.len() { mu } else { reports.len() };
    let mut k: usize = 0;
    while k < n
        invariant
            k <= n <= reports.len(),
            out@ == head + unit_reports_text(reports@.take(k as int)),
        decreases n - k,
    {
        assert(reports@.take(k + 1).drop_last() == reports@.take(k as int));
        push_unit_report(&mut out, &reports[k]);
        k += 1;
    }
    let ghost before = out@;
    if reports.len() > mu {
        push_str(&mut out, "... ");
        push_hex0x(&mut out, (reports.len() - mu) as u64);
        push_str(&mut out, " more units\n");
        assert(out@ == before + ("... "@ + hex0x_s((reports@.len() - mu) as nat) + " more units\n"@));
    } else {
        assert(out@ == before + Seq::<char>::empty());
    }
    out
}

pub open spec fn symbol_required_msg() -> Seq<char> {
    "'symbol_name' required for action='rename_guard'"@
}

pub open spec fn unsupported_action_msg(a: Seq<char>) -> Seq<char> {
    "Unsupported cortex_z4_unit_scan action '"@ + a + "'. Use 'build_units' or 'rename_guard'."@
}

pub open spec fn units_view(c: Result<Vec<UnitCatalog>, String>) -> Result<Seq<UnitCatalog>, Seq<char>> {
    match c {
        Ok(v) => Ok(v@),
        Err(e) => Err(e@),
    }
}

/// What a build-unit scan answers: `catalogs` are the selected catalogs (or
/// why none could be selected), `reports` the units where the symbol is
/// defined or used.
pub open spec fn unit_scan_s(
    action: Seq<char>,
    catalogs: Result<Seq<UnitCatalog>, Seq<char>>,
    symbol: Option<Seq<char>>,
    reports: Seq<UnitReport>,
    max_units: usize,
    max_entries: usize,
) -> Result<Seq<char>, Seq<char>> {
    match catalogs {
        Err(e) => Err(e),
        Ok(cs) => if action == "build_units"@ {
            build_units_s(cs, max_units, max_entries)
        } else if action == "rename_guard"@ {
            match symbol {
                Some(q) => if trim_s(q).len() > 0 {
                    Ok(rename_guard_s(trim_s(q), reports, max_units))
                } else {
                    Err(symbol_required_msg())
                },
                None => Err(symbol_required_msg()),
            }
        } else {
            Err(unsupported_action_msg(action))
        },
    }
}

/// Scans build units: lists them (`build_units`) or reports how safely a
/// symbol can be renamed (`rename_guard`).
pub fn unit_scan(
    action: &str,
    catalogs: Result<Vec<UnitCatalog>, String>,
    symbol_name: Option<&str>,
    reports: &Vec<UnitReport>,
    max_units: usize,
    max_entries: usize,
) -> (r: Result<String, String>)
    requires
        sum_defs(reports@) <= usize::MAX,
        sum_uses(reports@) <= usize::MAX,
    ensures
        res_view(r) == unit_scan_s(
            action@,
            units_view(catalogs),
            crate::text::str_opt(symbol_name),
            reports@,
            max_units,
            max_entries,
        ),
{
    let cs = match catalogs {
        Err(e) => {
            return Err(e);
        },
        Ok(cs) => cs,
    };
    let a = chars_of(action);
    let b = chars_of("build_units");
    let g = chars_of("rename_guard");
    proof {
        reveal_strlit("build_units");
        reveal_strlit("rename_guard");
    }
    if crate::text::chars_eq(&a, &b) {
        return render_build_units(&cs, max_units, max_entries);
    }
    if crate::text::chars_eq(&a, &g) {
        let q = match symbol_name {
            None => {
                return Err(String::from_str("'symbol_name' required for action='rename_guard'"));
            },
            Some(q) => crate::text::trim_string(q),
        };
        if chars_of(q.as_str()).len() == 0 {
            return Err(String::from_str("'symbol_name' required for action='rename_guard'"));
        }
        return Ok(render_rename_guard(q.as_str(), reports, max_units));
    }
    let mut m = String::from_str("Unsupported cortex_z4_unit_scan action '");
    push_str(&mut m, action);
    push_str(&mut m, "'. Use 'build_units' or 'rename_guard'.");
    Err(m)
}

// ───────────────────────── laws ─────────────────────────

proof fn lemma_cat_from_shape(b: Seq<u8>, c: int, slot: nat)
    ensures
        forall|i: int|
            0 <= i < cat_from(b, c, slot).len() ==> {
                let e = #[trigger] cat_from(b, c, slot)[i];
                &&& e.slot == slot + i
                &&& e.offset >= c
                &&& e.name.len() > 0
            },
        forall|i: int, j: int|
            0 <= i < j < cat_from(b, c, slot).len() ==> (#[trigger] cat_from(b, c, slot)[i]).offset
                < (#[trigger] cat_from(b, c, slot)[j]).offset,
    decreases b.len() - c,
{
    if 0 <= c < b.len() {
        if b[c] == 0 {
            lemma_cat_from_shape(b, c + 1, slot);
            assert(cat_from(b, c, slot) == cat_from(b, c + 1, slot));
        } else {
            lemma_next_zero(b, c);
            let e = next_zero(b, c);
            if e > c {
                lemma_cat_from_shape(b, e, slot + 1);
                lemma_cat_from_shape(b, e, slot);
                let es = cat_from(b, c, slot);
                let name = field_text(b, c, e);
                if name.len() > 0 {
                    let rest = cat_from(b, e, slot + 1);
                    assert(es == seq![CatRecord { slot, offset: c as nat, name }] + rest);
                    assert forall|i: int| 0 <= i < es.len() implies {
                        let x = #[trigger] es[i];
                        &&& x.slot == slot + i
                        &&& x.offset >= c
                        &&& x.name.len() > 0
                    } by {
                        if i > 0 {
                            assert(es[i] == rest[i - 1]);
                        }
                    }
                    assert forall|i: int, j: int| 0 <= i < j < es.len() implies (#[trigger] es[i]).offset
                        < (#[trigger] es[j]).offset by {
                        assert(es[j] == rest[j - 1]);
                        if i > 0 {
                            assert(es[i] == rest[i - 1]);
                        }
                    }
                } else {
                    assert(es == cat_from(b, e, slot));
                }
            }
        }
    }
}

/// In a decoded catalog the paths are numbered 0, 1, 2, … in the order they
/// stand, at strictly increasing offsets, and none is blank.
pub proof fn law_catalog_entries_are_numbered_in_order(bytes: Seq<u8>, path: Seq<char>)
    requires
        parse_artifact_s(bytes, path) is Ok,
        parse_artifact_s(bytes, path)->Ok_0 is Catalog,
    ensures
        ({
            let es = parse_artifact_s(bytes, path)->Ok_0->Catalog_entries;
            &&& forall|i: int| 0 <= i < es.len() ==> (#[trigger] es[i]).slot == i && es[i].name.len() > 0
            &&& forall|i: int, j: int| 0 <= i < j < es.len() ==> (#[trigger] es[i]).offset < (
            #[trigger] es[j]).offset
        }),
{
    let smi = match header_len_s(bytes, smi_magic()) {
        Some(h) => h,
        None => header_len_s(bytes, smi_legacy_magic())->Some_0,
    };
    lemma_cat_from_shape(bytes, smi as int, 0);
}

proof fn lemma_reg_from_shape(b: Seq<u8>, c: int, path: Seq<char>)
    ensures
        reg_from(b, c, path) matches Ok(es) ==> {
            &&& forall|i: int|
                0 <= i < es.len() ==> (#[trigger] es[i]).offset >= c && es[i].name.len() > 0
            &&& forall|i: int, j: int|
                0 <= i < j < es.len() ==> (#[trigger] es[i]).offset < (#[trigger] es[j]).offset
        },
    decreases b.len() - c,
{
    if 0 <= c < b.len() && !zero_from(b, c, b.len() as int) && c + 24 <= b.len() {
        let n = vstd::bytes::spec_u64_from_le_bytes(b.subrange(c + 16, c + 24)) as nat;
        let c2 = c + 24;
        if n <= b.len() - c2 {
            lemma_reg_from_shape(b, c2 + n, path);
            if let Ok(rest) = reg_from(b, c2 + n, path) {
                let name = field_text(b, c2, c2 + n);
                if name.len() > 0 {
                    let es = reg_from(b, c, path)->Ok_0;
                    assert(es.len() == rest.len() + 1);
                    assert forall|i: int| 0 <= i < es.len() implies (#[trigger] es[i]).offset >= c
                        && es[i].name.len() > 0 by {
                        if i > 0 {
                            assert(es[i] == rest[i - 1]);
                        }
                    }
                    assert forall|i: int, j: int| 0 <= i < j < es.len() implies (#[trigger] es[i]).offset
                        < (#[trigger] es[j]).offset by {
                        assert(es[j] == rest[j - 1]);
                        if i > 0 {
                            assert(es[i] == rest[i - 1]);
                        }
                    }
                }
            }
        }
    }
}

/// In a decoded registry the records stand at strictly increasing offsets,
/// and none has a blank name.
pub proof fn law_registry_records_in_order(bytes: Seq<u8>, path: Seq<char>)
    requires
        parse_artifact_s(bytes, path) is Ok,
        parse_artifact_s(bytes, path)->Ok_0 is Registry,
    ensures
        ({
            let es = parse_artifact_s(bytes, path)->Ok_0->Registry_entries;
            &&& forall|i: int| 0 <= i < es.len() ==> (#[trigger] es[i]).name.len() > 0
            &&& forall|i: int, j: int| 0 <= i < j < es.len() ==> (#[trigger] es[i]).offset < (
            #[trigger] es[j]).offset
        }),
{
    let h = match header_len_s(bytes, reg_magic()) {
        Some(h) => h,
        None => header_len_s(bytes, reg_legacy_magic())->Some_0,
    };
    lemma_reg_from_shape(bytes, h as int, path);
}

proof fn lemma_no_backslash_fixed(s: Seq<char>)
    requires
        !s.contains('\\'),
    ensures
        backslash_to_slash(s) == s,
{
    assert(backslash_to_slash(s) =~= s);
}

proof fn lemma_strip_dot_slash_props(s: Seq<char>)
    ensures
        !(strip_dot_slash(s).len() >= 2 && strip_dot_slash(s)[0] == '.' && strip_dot_slash(s)[1] == '/'),
        !s.contains('\\') ==> !strip_dot_slash(s).contains('\\'),
    decreases s.len(),
{
    if s.len() >= 2 && s[0] == '.' && s[1] == '/' {
        lemma_strip_dot_slash_props(s.skip(2));
        if !s.contains('\\') {
            assert forall|i: int| 0 <= i < s.skip(2).len() implies s.skip(2)[i] != '\\' by {
                assert(s.skip(2)[i] == s[i + 2]);
            }
        }
    }
}

/// Normalising a relative path twice changes nothing more than normalising it once.
pub proof fn law_normalize_rel_path_idempotent(raw: Seq<char>)
    ensures
        normalize_rel_path_s(normalize_rel_path_s(raw)) == normalize_rel_path_s(raw),
{
    let once = normalize_rel_path_s(raw);
    let b = backslash_to_slash(raw);
    assert(!b.contains('\\')) by {
        assert forall|i: int| 0 <= i < b.len() implies b[i] != '\\' by {}
    }
    lemma_strip_dot_slash_props(b);
    lemma_no_backslash_fixed(once);
}

// ───────────────────────── one unit's report ─────────────────────────

/// A file of a build unit, as the caller found it: its catalog path, its
/// text when it could be read, and the uses of the symbol in it that are not
/// definitions.
pub struct UnitFile {
    pub path: String,
    pub text: Option<String>,
    pub uses: usize,
}

/// A label name is the symbol, exactly or ignoring ASCII case.
pub open spec fn names_symbol(name: Seq<char>, sym: Seq<char>) -> bool {
    name == sym || crate::text::eq_ignore_case(name, sym)
}

/// How many of `ls` name the symbol.
pub open spec fn label_matches(ls: Seq<crate::z4::LabelSpec>, sym: Seq<char>) -> nat
    decreases ls.len(),
{
    if ls.len() == 0 {
        0
    } else {
        label_matches(ls.drop_last(), sym) + if names_symbol(ls.last().name, sym) { 1nat } else { 0nat }
    }
}

/// A file's text, if any, has a length that fits in memory.
pub open spec fn text_fits(f: UnitFile) -> bool {
    match f.text {
        Some(t) => byte_len(t@) <= usize::MAX,
        None => true,
    }
}

/// A file counts when it is a z4 source that could be read.
pub open spec fn file_counted(f: UnitFile) -> bool {
    ends_with_s(f.path@, ".z4"@) && f.text is Some
}

/// Definitions of the symbol in a file: its labels naming it.
pub open spec fn file_defs(f: UnitFile, sym: Seq<char>) -> nat {
    if file_counted(f) {
        label_matches(crate::z4::labels_s(f.text.unwrap()@), sym)
    } else {
        0
    }
}

/// Uses of the symbol in a file.
pub open spec fn file_uses(f: UnitFile) -> nat {
    if file_counted(f) { f.uses as nat } else { 0 }
}

pub open spec fn total_defs(fs: Seq<UnitFile>, sym: Seq<char>) -> nat
    decreases fs.len(),
{
    if fs.len() == 0 { 0 } else { total_defs(fs.drop_last(), sym) + file_defs(fs.last(), sym) }
}

pub open spec fn total_uses(fs: Seq<UnitFile>) -> nat
    decreases fs.len(),
{
    if fs.len() == 0 { 0 } else { total_uses(fs.drop_last()) + file_uses(fs.last()) }
}

/// The paths of the files among `fs` that define the symbol.
pub open spec fn def_paths(fs: Seq<UnitFile>, sym: Seq<char>) -> Set<Seq<char>> {
    Set::new(|p: Seq<char>| exists|i: int| 0 <= i < fs.len() && #[trigger] fs[i].path@ == p && file_defs(fs[i], sym) > 0)
}

/// The paths of the files among `fs` that use the symbol.
pub open spec fn use_paths(fs: Seq<UnitFile>) -> Set<Seq<char>> {
    Set::new(|p: Seq<char>| exists|i: int| 0 <= i < fs.len() && #[trigger] fs[i].path@ == p && file_uses(fs[i]) > 0)
}

/// `v` is in strictly ascending order.
pub open spec fn strictly_ascending(v: Seq<Seq<char>>) -> bool {
    forall|i: int, j: int| 0 <= i < j < v.len() ==> crate::sort::lex_lt(#[trigger] v[i], #[trigger] v[j])
}

fn insert_sorted(v: &mut Vec<String>, x: &String)
    requires
        strictly_ascending(old(v)@.map_values(|s: String| s@)),
    ensures
        strictly_ascending(final(v)@.map_values(|s: String| s@)),
        final(v)@.map_values(|s: String| s@).to_set() == old(v)@.map_values(|s: String| s@).to_set().insert(x@),
{
    let ghost ov = v@.map_values(|s: String| s@);
    let xv = chars_of(x.as_str());
    let mut pos: usize = 0;
    while pos < v.len() && crate::sort::lex_lt_exec(&chars_of(v[pos].as_str()), &xv)
        invariant
            pos <= v.len(),
            ov == v@.map_values(|s: String| s@),
            xv@ == x@,
            forall|q: int| 0 <= q < pos ==> crate::sort::lex_lt(#[trigger] ov[q], x@),
        decreases v.len() - pos,
    {
        pos += 1;
    }
    if pos < v.len() && crate::text::chars_eq(&chars_of(v[pos].as_str()), &xv) {
        assert(ov.to_set().insert(x@) =~= ov.to_set()) by {
            assert(ov[pos as int] == x@);
        }
        return;
    }
    proof {
        if pos < v.len() {
            crate::sort::lemma_lex_total(ov[pos as int], x@);
        }
    }
    v.insert(pos, x.clone());
    let ghost nv = v@.map_values(|s: String| s@);
    assert(nv =~= ov.insert(pos as int, x@));
    proof {
        assert forall|i: int, j: int| 0 <= i < j < nv.len() implies crate::sort::lex_lt(
            #[trigger] nv[i],
            #[trigger] nv[j],
        ) by {
            if j < pos {
            } else if j == pos {
                assert(nv[i] == ov[i]);
            } else if i == pos {
                assert(nv[j] == ov[j - 1]);
                if j - 1 > pos {
                    crate::sort::lemma_lex_trans(x@, ov[pos as int], ov[j - 1]);
                }
            } else if i < pos {
                assert(nv[i] == ov[i] && nv[j] == ov[j - 1]);
            } else {
                assert(nv[i] == ov[i - 1] && nv[j] == ov[j - 1]);
            }
        }
        assert forall|p: Seq<char>| nv.to_set().contains(p) <==> ov.to_set().insert(x@).contains(p) by {
            if nv.to_set().contains(p) {
                let i = choose|i: int| 0 <= i < nv.len() && nv[i] == p;
                if i < pos {
                    assert(ov[i] == p);
                } else if i > pos {
                    assert(ov[i - 1] == p);
                }
            }
            if ov.to_set().contains(p) {
                let i = choose|i: int| 0 <= i < ov.len() && ov[i] == p;
                if i < pos {
                    assert(nv[i] == p);
                } else {
                    assert(nv[i + 1] == p);
                }
            }
            if p == x@ {
                assert(nv[pos as int] == p);
            }
        }
        assert(nv.to_set() =~= ov.to_set().insert(x@));
    }
}

fn count_matching(text: &str, symbol: &str) -> (n: usize)
    requires
        byte_len(text@) <= usize::MAX,
    ensures
        n == label_matches(crate::z4::labels_s(text@), symbol@),
{
    let syms = Z4LanguageDriver::extract_symbols(text);
    let ghost ls = crate::z4::labels_s(text@);
    let sv = chars_of(symbol);
    let mut n: usize = 0;
    let mut k: usize = 0;
    while k < syms.len()
        invariant
            k <= syms.len() == ls.len(),
            ls == crate::z4::labels_s(text@),
            sv@ == symbol@,
            forall|q: int| 0 <= q < syms.len() ==> crate::z4::symbol_agrees(#[trigger] syms@[q], text@, q),
            n == label_matches(ls.take(k as int), symbol@),
            n <= k,
        decreases syms.len() - k,
    {
        assert(ls.take(k + 1).drop_last() == ls.take(k as int));
        assert(crate::z4::symbol_agrees(syms@[k as int], text@, k as int));
        assert(ls.take(k + 1).last().name == syms@[k as int].name@);
        let nv = chars_of(syms[k].name.as_str());
        if crate::text::chars_eq(&nv, &sv) || crate::text::eq_ignore_case_exec(&nv, &sv) {
            n += 1;
        }
        k += 1;
    }
    assert(ls.take(ls.len() as int) == ls);
    n
}

/// What renaming `symbol` touches in one build unit: the definitions (labels
/// naming it, exactly or ignoring ASCII case) and the given uses in its
/// readable z4 files, with the files of each in ascending order; `None`
/// when there are neither.
pub fn unit_report_of(alias: &str, catalog_rel: &str, files: &Vec<UnitFile>, symbol: &str) -> (r: Option<UnitReport>)
    requires
        forall|i: int| 0 <= i < files.len() ==> text_fits(#[trigger] files@[i]),
        total_defs(files@, symbol@) <= usize::MAX,
        total_uses(files@) <= usize::MAX,
    ensures
        r is None <==> (total_defs(files@, symbol@) == 0 && total_uses(files@) == 0),
        r matches Some(rep) ==> {
            &&& rep.alias@ == alias@
            &&& rep.catalog_rel@ == catalog_rel@
            &&& rep.defs == total_defs(files@, symbol@)
            &&& rep.uses == total_uses(files@)
            &&& strictly_ascending(rep.def_files@.map_values(|s: String| s@))
            &&& rep.def_files@.map_values(|s: String| s@).to_set() == def_paths(files@, symbol@)
            &&& strictly_ascending(rep.use_files@.map_values(|s: String| s@))
            &&& rep.use_files@.map_values(|s: String| s@).to_set() == use_paths(files@)
        },
{
    let ghost fs = files@;
    let mut defs: usize = 0;
    let mut uses: usize = 0;
    let mut def_files: Vec<String> = Vec::new();
    let mut use_files: Vec<String> = Vec::new();
    proof {
        reveal_strlit(".z4");
    }
    let mut i: usize = 0;
    while i < files.len()
        invariant
            i <= files.len(),
            fs == files@,
            forall|j: int| 0 <= j < files.len() ==> text_fits(#[trigger] files@[j]),
            total_defs(fs, symbol@) <= usize::MAX,
            total_uses(fs) <= usize::MAX,
            defs == total_defs(fs.take(i as int), symbol@),
            uses == total_uses(fs.take(i as int)),
            strictly_ascending(def_files@.map_values(|s: String| s@)),
            strictly_ascending(use_files@.map_values(|s: String| s@)),
            def_files@.map_values(|s: String| s@).to_set() == def_paths(fs.take(i as int), symbol@),
            use_files@.map_values(|s: String| s@).to_set() == use_paths(fs.take(i as int)),
        decreases files.len() - i,
    {
        let ghost ti = fs.take(i as int);
        let ghost tn = fs.take(i + 1);
        assert(tn.drop_last() == ti);
        assert(tn.last() == fs[i as int]);
        proof {
            lemma_prefix_totals(fs, i as int + 1, symbol@);
        }
        let f = &files[i];
        let mut d: usize = 0;
        let mut u: usize = 0;
        if crate::text::ends_with(&chars_of(f.path.as_str()), &chars_of(".z4")) {
            if let Some(t) = &f.text {
                d = count_matching(t.as_str(), symbol);
                u = f.uses;
            }
        }
        assert(d == file_defs(fs[i as int], symbol@) && u == file_uses(fs[i as int]));
        if d > 0 {
            defs = defs + d;
            insert_sorted(&mut def_files, &f.path);
        }
        if u > 0 {
            uses = uses + u;
            insert_sorted(&mut use_files, &f.path);
        }
        proof {
            assert(def_paths(tn, symbol@) =~= if d > 0 { def_paths(ti, symbol@).insert(f.path@) } else { def_paths(ti, symbol@) }) by {
                assert forall|p: Seq<char>| def_paths(tn, symbol@).contains(p) implies (if d > 0 { def_paths(ti, symbol@).insert(f.path@) } else { def_paths(ti, symbol@) }).contains(p) by {
                    let j = choose|j: int| 0 <= j < tn.len() && #[trigger] tn[j].path@ == p && file_defs(tn[j], symbol@) > 0;
                    if j < i {
                        assert(ti[j] == tn[j]);
                    }
                }
                assert forall|p: Seq<char>| (if d > 0 { def_paths(ti, symbol@).insert(f.path@) } else { def_paths(ti, symbol@) }).contains(p) implies def_paths(tn, symbol@).contains(p) by {
                    if def_paths(ti, symbol@).contains(p) {
                        let j = choose|j: int| 0 <= j < ti.len() && #[trigger] ti[j].path@ == p && file_defs(ti[j], symbol@) > 0;
                        assert(tn[j] == ti[j]);
                    } else {
                        assert(tn[i as int].path@ == p);
                    }
                }
            }
            assert(use_paths(tn) =~= if u > 0 { use_paths(ti).insert(f.path@) } else { use_paths(ti) }) by {
                assert forall|p: Seq<char>| use_paths(tn).contains(p) implies (if u > 0 { use_paths(ti).insert(f.path@) } else { use_paths(ti) }).contains(p) by {
                    let j = choose|j: int| 0 <= j < tn.len() && #[trigger] tn[j].path@ == p && file_uses(tn[j]) > 0;
                    if j < i {
                        assert(ti[j] == tn[j]);
                    }
                }
                assert forall|p: Seq<char>| (if u > 0 { use_paths(ti).insert(f.path@) } else { use_paths(ti) }).contains(p) implies use_paths(tn).contains(p) by {
                    if use_paths(ti).contains(p) {
                        let j = choose|j: int| 0 <= j < ti.len() && #[trigger] ti[j].path@ == p && file_uses(ti[j]) > 0;
                        assert(tn[j] == ti[j]);
                    } else {
                        assert(tn[i as int].path@ == p);
                    }
                }
            }
        }
        i += 1;
    }
    assert(fs.take(files.len() as int) == fs);
    if defs == 0 && uses == 0 {
        return None;
    }
    Some(UnitReport {
        alias: String::from_str(alias),
        catalog_rel: String::from_str(catalog_rel),
        defs,
        uses,
        def_files,
        use_files,
    })
}

proof fn lemma_prefix_totals(fs: Seq<UnitFile>, i: int, sym: Seq<char>)
    requires
        0 <= i <= fs.len(),
    ensures
        total_defs(fs.take(i), sym) <= total_defs(fs, sym),
        total_uses(fs.take(i)) <= total_uses(fs),
    decreases fs.len() - i,
{
    if i < fs.len() {
        lemma_prefix_totals(fs, i + 1, sym);
        assert(fs.take(i + 1).drop_last() == fs.take(i));
    } else {
        assert(fs.take(i) == fs);
    }
}

/// The answer when a build unit's catalog turns out to be a registry.
pub open spec fn not_a_catalog_msg(path: Seq<char>) -> Seq<char> {
    "Expected catalog (.filelist/.project.z4), got registry '"@ + path + "'"@
}

/// The files a build unit's catalog lists: its entries when it decoded as
/// a catalog; the decoding error, or a refusal when it is a registry.
pub fn catalog_entries_of(path: &str, artifact: Result<RegistryArtifact, String>) -> (r: Result<Vec<CatalogEntry>, String>)
    ensures
        match artifact {
            Ok(RegistryArtifact::Catalog { entries, .. }) => r == Ok::<Vec<CatalogEntry>, String>(entries),
            Ok(RegistryArtifact::Registry { .. }) => r matches Err(m) && m@ == not_a_catalog_msg(path@),
            Err(e) => r matches Err(m) && m@ == e@,
        },
{
    match artifact {
        Ok(RegistryArtifact::Catalog { entries, .. }) => Ok(entries),
        Ok(RegistryArtifact::Registry { .. }) => {
            let mut m = String::from_str("Expected catalog (.filelist/.project.z4), got registry '");
            push_str(&mut m, path);
            push_str(&mut m, "'");
            Err(m)
        },
        Err(e) => Err(e),
    }
}

} // verus!
