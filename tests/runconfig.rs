use lsha::runconfig::{LshaRunConfig, USAGE};

fn given_docopt(line: &str) -> docopt::ArgvMap {
    docopt::Docopt::new(USAGE)
        .unwrap()
        .argv(line.split(' '))
        .parse()
        .unwrap_or_else(|e| e.exit())
}

#[test]
fn no_params() {
    let cfg = LshaRunConfig::from_docopt(&given_docopt("lsha ."));

    assert!(!cfg.do_file_checksum);
    assert!(!cfg.be_recursive);
    assert!(!cfg.be_quiet);
    assert!(!cfg.incl_timestamps);
    assert!(!cfg.incl_hidden);
    assert_eq!(".", cfg.path);
}

#[test]
fn all_params() {
    let cfg = LshaRunConfig::from_docopt(&given_docopt("lsha -qcrtl le-path"));

    assert!(cfg.do_file_checksum);
    assert!(cfg.be_recursive);
    assert!(cfg.be_quiet);
    assert!(cfg.incl_timestamps);
    assert!(cfg.incl_hidden);
    assert_eq!("le-path", cfg.path);
}

#[test]
fn mix_params() {
    let cfg = LshaRunConfig::from_docopt(&given_docopt("lsha -q -l path"));

    assert!(!cfg.do_file_checksum);
    assert!(!cfg.be_recursive);
    assert!(cfg.be_quiet);
    assert!(!cfg.incl_timestamps);
    assert!(cfg.incl_hidden);
    assert_eq!("path", cfg.path);
}

#[test]
fn placeholder() {
    let cfg = LshaRunConfig::from_docopt(&given_docopt("lsha -c somewhere"));
    assert!(cfg.do_file_checksum);
    assert_eq!("somewhere", cfg.path);
}

