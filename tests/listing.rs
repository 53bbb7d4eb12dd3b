use lsha::digest::RunningDigest;
use lsha::listing::{
    content_hash_targets, directory_header, emit_listing, name_precedes, put, retained_entries,
    DigestFull,
};
use lsha::runconfig::LshaRunConfig;
use lsha::simpledir::SimpleDir;

const REG: u32 = 0o100644;
const DIR: u32 = 0o040755;

fn config(checksum: bool, recursive: bool, quiet: bool, hidden: bool) -> LshaRunConfig {
    LshaRunConfig {
        path: ".".to_string(),
        do_file_checksum: checksum,
        be_recursive: recursive,
        be_quiet: quiet,
        incl_timestamps: false,
        incl_hidden: hidden,
    }
}

fn entry(name: &str, len: u64, mode: u32) -> SimpleDir {
    SimpleDir::new(name.to_string(), len, mode, 1000, 1000)
}

fn names(v: &[SimpleDir]) -> Vec<String> {
    v.iter().map(|e| e.fname().clone()).collect()
}

/// The digest of one flat directory, as a traversal computes it.
fn flat_digest(entries: Vec<SimpleDir>, cfg: &LshaRunConfig) -> (String, String) {
    let mut sh = RunningDigest::new();
    let header = directory_header(&mut sh, "d", cfg).unwrap();
    let kept = retained_entries(entries, cfg);
    let hashes: Vec<Option<String>> = content_hash_targets("d", &kept, cfg)
        .into_iter()
        .map(|t| t.map(|_| "0".repeat(64)))
        .collect();
    let out = emit_listing(&mut sh, "d", &kept, &hashes, cfg).unwrap();
    (header + &out.printed, sh.hex_digest())
}

#[test]
fn flat_directory_sorts_byte_wise() {
    let cfg = config(false, false, false, false);
    let (text, digest) = flat_digest(vec![entry("a", 3, REG), entry("B", 0, REG)], &cfg);
    assert_eq!(
        "-rw-r--r-- 1000 1000         0 B\n-rw-r--r-- 1000 1000         3 a\n",
        text
    );
    assert_eq!(
        "0f1d904dccf8137df326385e7c5d7bcd620fa35779fd093d3c4a24893eeeb31e",
        digest
    );
}

#[test]
fn byte_wise_name_order() {
    assert!(name_precedes("B", "a"));
    assert!(!name_precedes("a", "B"));
    assert!(name_precedes("ab", "abc"));
    assert!(!name_precedes("abc", "ab"));
    assert!(name_precedes("same", "same"));
    assert!(name_precedes("", ""));
    assert!(name_precedes("z", "\u{e9}"));
}

#[test]
fn listing_order_does_not_depend_on_input_order() {
    let cfg = config(true, true, false, true);
    let a = flat_digest(
        vec![entry("x", 1, REG), entry(".h", 2, REG), entry("A", 3, DIR), entry("m", 4, REG)],
        &cfg,
    );
    let b = flat_digest(
        vec![entry("m", 4, REG), entry("A", 3, DIR), entry("x", 1, REG), entry(".h", 2, REG)],
        &cfg,
    );
    assert_eq!(a, b);
    let kept = retained_entries(
        vec![entry("m", 4, REG), entry("A", 3, DIR), entry("x", 1, REG), entry(".h", 2, REG)],
        &cfg,
    );
    assert_eq!(vec![".h", "A", "m", "x"], names(&kept));
}

#[test]
fn renaming_siblings_changes_digest() {
    let cfg = config(false, false, false, false);
    let before = flat_digest(vec![entry("a", 1, REG), entry("b", 2, REG)], &cfg);
    let after = flat_digest(vec![entry("b", 1, REG), entry("a", 2, REG)], &cfg);
    assert_ne!(before.1, after.1);
}

#[test]
fn recursion_adds_header_and_changes_digest() {
    let flat = config(false, false, false, false);
    let deep = config(false, true, false, false);
    let entries = || vec![entry("sub", 0, DIR), entry("f", 1, REG)];
    let (flat_text, flat_digest_hex) = flat_digest(entries(), &flat);
    let (deep_text, deep_digest_hex) = flat_digest(entries(), &deep);
    assert_eq!(format!("\nd\n{}", flat_text), deep_text);
    assert_ne!(flat_digest_hex, deep_digest_hex);
}

#[test]
fn hidden_file_filter() {
    let shown = config(false, false, false, false);
    let with_dot = vec![entry("a", 1, REG), entry(".dot", 5, REG)];
    let without = vec![entry("a", 1, REG)];
    assert_eq!(flat_digest(with_dot, &shown), flat_digest(without, &shown));

    let all = config(false, false, false, true);
    let with_dot = vec![entry("a", 1, REG), entry(".dot", 5, REG)];
    let without = vec![entry("a", 1, REG)];
    assert_ne!(flat_digest(with_dot, &all).1, flat_digest(without, &all).1);
}

#[test]
fn hash_column_is_64_wide() {
    let cfg = config(true, false, false, false);
    let kept = retained_entries(
        vec![entry("f", 3, REG), entry("d", 0, DIR), entry("g", 0, REG), entry("p", 0, 0o010644)],
        &cfg,
    );
    assert_eq!(vec!["d", "f", "g", "p"], names(&kept));
    let targets = content_hash_targets("root", &kept, &cfg);
    assert_eq!(
        vec![None, Some("root/f".to_string()), Some("root/g".to_string()), None],
        targets
    );
    let hex = "039058c6f2c0cb492c533b0a4d14ef77cc0f78abccced5287d84a1a2011cfb81".to_string();
    let hashes = vec![None, Some(hex.clone()), None, None];
    let mut sh = RunningDigest::new();
    let out = emit_listing(&mut sh, "root", &kept, &hashes, &cfg).unwrap();
    let lines: Vec<&str> = out.printed.lines().collect();
    assert_eq!(4, lines.len());
    let dots = ".   ".repeat(16);
    assert_eq!(format!("{}  drwxr-xr-x 1000 1000         0 d", dots), lines[0]);
    assert_eq!(format!("{}  -rw-r--r-- 1000 1000         3 f", hex), lines[1]);
    assert_eq!(format!("{:64}  -rw-r--r-- 1000 1000         0 g", "N/A"), lines[2]);
    assert_eq!(format!("{}  prw-r--r-- 1000 1000         0 p", dots), lines[3]);
    for l in lines {
        assert_eq!("  ", &l[64..66]);
    }
}

#[test]
fn quiet_run_prints_nothing_but_digests_the_same() {
    let loud = config(false, true, false, false);
    let quiet = config(false, true, true, false);
    let entries = || vec![entry("a", 1, REG), entry("s", 0, DIR)];
    let (loud_text, loud_hex) = flat_digest(entries(), &loud);
    let (quiet_text, quiet_hex) = flat_digest(entries(), &quiet);
    assert!(!loud_text.is_empty());
    assert_eq!("", quiet_text);
    assert_eq!(loud_hex, quiet_hex);
}

#[test]
fn subdirectories_to_visit() {
    let cfg = config(false, true, false, false);
    let kept = retained_entries(
        vec![entry("z", 0, DIR), entry("f", 1, REG), entry(".h", 0, DIR), entry("b", 0, DIR)],
        &cfg,
    );
    let hashes = vec![None; kept.len()];
    let mut sh = RunningDigest::new();
    let out = emit_listing(&mut sh, "top/", &kept, &hashes, &cfg).unwrap();
    assert_eq!(vec!["top/b".to_string(), "top/z".to_string()], out.subdirs);

    let flat = config(false, false, false, false);
    let mut sh = RunningDigest::new();
    let out = emit_listing(&mut sh, "top", &kept, &hashes, &flat).unwrap();
    assert!(out.subdirs.is_empty());
}

#[test]
fn put_feeds_the_exact_text() {
    let cfg = config(false, false, false, false);
    let mut sh = RunningDigest::new();
    let printed = put(&mut sh, &cfg, &"\u{1}\u{2}\u{3}".to_string());
    assert_eq!(Ok("\u{1}\u{2}\u{3}".to_string()), printed);
    assert_eq!(
        "039058c6f2c0cb492c533b0a4d14ef77cc0f78abccced5287d84a1a2011cfb81",
        sh.hex_digest()
    );
    let quiet = config(false, false, true, false);
    let mut sh = RunningDigest::new();
    assert_eq!(Ok(String::new()), put(&mut sh, &quiet, &"x".to_string()));
    let never: Result<String, DigestFull> = Err(DigestFull);
    assert!(never.is_err());
}

#[test]
fn flat_run_has_no_header() {
    let cfg = config(false, false, false, false);
    let mut sh = RunningDigest::new();
    assert_eq!(Ok(String::new()), directory_header(&mut sh, "d", &cfg));
    assert_eq!(RunningDigest::new().hex_digest(), sh.hex_digest());
}

#[test]
fn no_hash_targets_without_checksum() {
    let cfg = config(false, false, false, true);
    let kept = retained_entries(vec![entry("f", 3, REG), entry(".g", 1, REG)], &cfg);
    assert_eq!(vec![".g", "f"], names(&kept));
    assert_eq!(vec![None, None], content_hash_targets("r", &kept, &cfg));
}

#[test]
fn empty_directory() {
    let cfg = config(true, true, false, false);
    let (text, digest) = flat_digest(Vec::new(), &cfg);
    assert_eq!("\nd\n", text);
    let mut sh = RunningDigest::new();
    assert!(sh.absorb(b"\nd\n"));
    assert_eq!(sh.hex_digest(), digest);
}

#[test]
fn equal_names_are_both_kept() {
    let cfg = config(false, false, false, false);
    let kept = retained_entries(vec![entry("same", 2, REG), entry("same", 1, REG)], &cfg);
    assert_eq!(vec!["same", "same"], names(&kept));
}
