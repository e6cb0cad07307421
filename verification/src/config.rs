//! Settings of the code explorer, with their defaults.
use vstd::prelude::*;

verus! {

/// How bytes are turned into a token estimate, and the largest file read.
#[derive(Debug, Clone)]
pub struct TokenEstimatorConfig {
    pub chars_per_token: usize,
    pub max_file_bytes: u64,
}

/// Directory names skipped while scanning a workspace (besides `.gitignore`).
#[derive(Debug, Clone)]
pub struct ScanConfig {
    /// Directory names to skip anywhere in the tree, compared to path components.
    pub exclude_dir_names: Vec<String>,
}

/// Files larger than this are always skipped, whatever the settings say.
pub const ABSOLUTE_MAX_FILE_BYTES: u64 = 1000000;

impl Default for TokenEstimatorConfig {
    fn default() -> (r: Self)
        ensures
            r.chars_per_token == 4,
            r.max_file_bytes == 512 * 1024,
    {
        TokenEstimatorConfig { chars_per_token: 4, max_file_bytes: 524288 }
    }
}

impl Default for ScanConfig {
    fn default() -> (r: Self)
        ensures
            r.exclude_dir_names@.len() == 0,
    {
        ScanConfig { exclude_dir_names: Vec::new() }
    }
}

/// Settings for monorepos with many services.
#[derive(Debug, Clone)]
pub struct HugeCodebaseConfig {
    /// Force huge-codebase mode.
    pub enabled: bool,
    /// Number of scanned files from which huge-codebase mode starts by itself.
    pub file_count_threshold: usize,
    /// Least token budget given to one workspace member.
    pub min_member_budget: usize,
    /// Members included when the repository root is targeted (globs).
    pub include_members: Vec<String>,
    /// Members always excluded (globs).
    pub exclude_members: Vec<String>,
    /// How deep nested workspace members are looked for.
    pub member_scan_depth: usize,
    /// Whether shared library code is deduplicated across services.
    pub dedup_shared_libs: bool,
}

impl Default for HugeCodebaseConfig {
    fn default() -> (r: Self)
        ensures
            !r.enabled,
            r.file_count_threshold == 150,
            r.min_member_budget == 4000,
            r.include_members@.len() == 0,
            r.exclude_members@.len() == 0,
            r.member_scan_depth == 3,
            r.dedup_shared_libs,
    {
        HugeCodebaseConfig {
            enabled: false,
            file_count_threshold: 150,
            min_member_budget: 4000,
            include_members: Vec::new(),
            exclude_members: Vec::new(),
            member_scan_depth: 3,
            dedup_shared_libs: true,
        }
    }
}

/// All settings of the code explorer.
#[derive(Debug, Clone)]
pub struct Config {
    pub output_dir: String,
    pub scan: ScanConfig,
    pub token_estimator: TokenEstimatorConfig,
    /// Whether skeletons (bodies pruned) are produced for supported languages.
    pub skeleton_mode: bool,
    pub huge_codebase: HugeCodebaseConfig,
    /// Languages whose grammars are loaded.
    pub active_languages: Vec<String>,
}

impl Default for Config {
    fn default() -> (r: Self)
        ensures
            r.output_dir@ == ".cortexast"@,
            r.scan.exclude_dir_names@.len() == 0,
            r.token_estimator.chars_per_token == 4,
            r.token_estimator.max_file_bytes == 512 * 1024,
            r.skeleton_mode,
            !r.huge_codebase.enabled,
            r.huge_codebase.file_count_threshold == 150,
            r.huge_codebase.min_member_budget == 4000,
            r.huge_codebase.member_scan_depth == 3,
            r.huge_codebase.dedup_shared_libs,
            r.active_languages@.len() == 3,
            r.active_languages@[0]@ == "rust"@,
            r.active_languages@[1]@ == "typescript"@,
            r.active_languages@[2]@ == "python"@,
    {
        let mut langs: Vec<String> = Vec::new();
        langs.push(String::from_str("rust"));
        langs.push(String::from_str("typescript"));
        langs.push(String::from_str("python"));
        Config {
            output_dir: String::from_str(".cortexast"),
            scan: ScanConfig::default(),
            token_estimator: TokenEstimatorConfig::default(),
            skeleton_mode: true,
            huge_codebase: HugeCodebaseConfig::default(),
            active_languages: langs,
        }
    }
}

} // verus!
