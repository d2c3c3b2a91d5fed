use eye::target::{Arch, Os, Target, TargetError, UnknownNativeTargetError};

#[test]
fn triples_are_read() {
    let t = Target::parse("x86_64-unknown-linux").unwrap();
    assert_eq!(t.arch, Arch::X86_64);
    assert_eq!(t.vendor, Some("unknown".to_owned()));
    assert_eq!(t.os, Os::Linux);
    assert_eq!(t.os2, None);
    let t = Target::parse("aarch64-apple-darwin").unwrap();
    assert_eq!(t.arch, Arch::Aarch64);
    assert_eq!(t.os, Os::Darwin);
    let t = Target::parse("riscv64-unknown-linux-gnu").unwrap();
    assert_eq!(t.arch, Arch::Other("riscv64".to_owned()));
    assert_eq!(t.os2, Some("gnu".to_owned()));
}

#[test]
fn wrong_triples_are_refused() {
    assert_eq!(Target::parse("x86_64").unwrap_err(), TargetError::TooFewComponents);
    assert_eq!(Target::parse("x86_64-unknown-plan9").unwrap_err(), TargetError::UnknownOs);
}

#[test]
fn triples_read_back() {
    for s in [
        "x86_64-unknown-linux",
        "aarch64-apple-darwin",
        "x86_64-pc-windows-msvc",
        "x86_64-unknown-linux-gnu",
    ] {
        assert_eq!(Target::parse(s).unwrap().to_text(), s);
    }
}

#[test]
fn systems_have_names() {
    for os in [Os::Linux, Os::Windows, Os::Darwin] {
        assert_eq!(Os::parse(os.to_str()), Ok(os));
    }
    assert!(Os::parse("beos").is_err());
}

#[test]
fn native_targets_are_known() {
    let mac = Target::native("aarch64", "macos").unwrap();
    assert_eq!(mac.to_text(), "aarch64-darwin");
    let linux = Target::native("x86_64", "linux").unwrap();
    assert_eq!(linux, Target::parse("x86_64-linux").unwrap());
    assert_eq!(Target::native("x86_64", "freebsd"), Err(UnknownNativeTargetError));
}
