use pepper::glob::Glob;

fn assert_glob(glob: &mut Glob, expected: bool, pattern: &[u8], path: &[u8]) {
    if glob.compile(pattern).is_err() {
        panic!(
            "invalid glob pattern '{}'",
            std::str::from_utf8(pattern).unwrap()
        );
    }
    assert_eq!(
        expected,
        glob.matches(path),
        "'{}' did{} match pattern '{}'",
        std::str::from_utf8(path).unwrap(),
        if expected { " not" } else { "" },
        std::str::from_utf8(pattern).unwrap(),
    );
}

#[test]
fn compile() {
    let mut glob = Glob::default();

    assert!(glob.compile(b"").is_ok());
    assert!(glob.compile(b"abc").is_ok());
    assert!(glob.compile(b"a?c").is_ok());
    assert!(glob.compile(b"a[A-Z]c").is_ok());
    assert!(glob.compile(b"a[!0-9]c").is_ok());

    assert!(glob.compile(b"a*c").is_ok());
    assert!(glob.compile(b"a*/").is_ok());
    assert!(glob.compile(b"a*/c").is_ok());
    assert!(glob.compile(b"a*[0-9]/c").is_ok());
    assert!(glob.compile(b"a*bx*cy*d").is_ok());

    assert!(glob.compile(b"a**/").is_ok());
    assert!(glob.compile(b"a**/c").is_ok());
    assert!(glob.compile(b"a**c").is_err());

    assert!(glob.compile(b"a{b,c}d").is_ok());
    assert!(glob.compile(b"a*{b,c}d").is_ok());
    assert!(glob.compile(b"a*{b*,c}d").is_ok());
    assert!(glob.compile(b"}").is_err());
    assert!(glob.compile(b",").is_err());
}

#[test]
fn matches() {
    let mut glob = Glob::default();
    let glob = &mut glob;

    assert_glob(glob, true, b"", b"");
    assert_glob(glob, true, b"abc", b"abc");
    assert_glob(glob, false, b"ab", b"abc");
    assert_glob(glob, true, b"a?c", b"abc");
    assert_glob(glob, false, b"a??", b"a/c");
    assert_glob(glob, true, b"a[A-Z]c", b"aBc");
    assert_glob(glob, false, b"a[A-Z]c", b"abc");
    assert_glob(glob, true, b"a[!0-9A-CD-FGH]c", b"abc");

    assert_glob(glob, true, b"*", b"");
    assert_glob(glob, true, b"*", b"a");
    assert_glob(glob, true, b"*", b"abc");
    assert_glob(glob, true, b"a*c", b"ac");
    assert_glob(glob, true, b"a*c", b"abc");
    assert_glob(glob, true, b"a*c", b"abbbc");
    assert_glob(glob, true, b"a*/", b"abc/");
    assert_glob(glob, true, b"a*/c", b"a/c");
    assert_glob(glob, true, b"a*/c", b"abbb/c");
    assert_glob(glob, true, b"a*[0-9]/c", b"abbb5/c");
    assert_glob(glob, false, b"a*c", b"a/c");
    assert_glob(glob, true, b"a*bx*cy*d", b"a00bx000cy0000d");

    assert_glob(glob, true, b"a**/c", b"a/c");
    assert_glob(glob, true, b"a**/c", b"a/b/c");
    assert_glob(glob, true, b"a**/c", b"a/bb/bbb/c");
    assert_glob(glob, true, b"a**/c", b"aaaaa/bb/bbb/c");

    assert_glob(glob, true, b"a{b,c}d", b"abd");
    assert_glob(glob, true, b"a{b,c}d", b"acd");
    assert_glob(glob, true, b"a*{b,c}d", b"aaabd");
    assert_glob(glob, true, b"a*{b,c}d", b"abbbd");
    assert_glob(glob, true, b"a*{b*,c}d", b"acdbbczzcd");
    assert_glob(glob, true, b"a{b,c*}d", b"aczd");
    assert_glob(glob, true, b"a*{b,c*}d", b"acdbczzzd");
}

#[test]
fn brace_group_with_nested_wildcard() {
    let mut glob = Glob::default();
    assert!(glob.compile(b"a*{b*,c}d").is_ok());
    assert!(glob.matches(b"acdbczzzd"));
    assert!(!glob.matches(b"aczd"));
    assert!(glob.matches(b"abczd"));
}

#[test]
fn matching_twice_gives_the_same_answer() {
    let mut glob = Glob::default();
    assert!(glob.compile(b"src/**/*.{rs,toml}").is_ok());
    let first = glob.matches(b"src/lsp/client.rs");
    assert!(first);
    assert!(!glob.matches(b"src/lsp/client.md"));
    assert_eq!(first, glob.matches(b"src/lsp/client.rs"));
}

#[test]
fn invalid_patterns_are_rejected_and_leave_the_glob_empty() {
    let mut glob = Glob::default();
    assert!(glob.compile(b"a{b,c").is_err());
    assert!(glob.matches(b""));
    assert!(!glob.matches(b"ab"));
    assert!(glob.compile(b"a[z-a]").is_err());
    assert!(glob.compile(b"a[a-").is_err());
    assert!(glob.compile(b"a[a").is_err());
    assert!(glob.compile(b"a]").is_err());
    assert!(glob.compile(b"a**b").is_err());
    assert!(glob.compile(b"{a,b}}").is_err());
}

#[test]
fn group_at_the_end_of_a_pattern() {
    let mut glob = Glob::default();
    assert!(glob.compile(b"a{b,c}").is_ok());
    assert!(glob.matches(b"ab"));
    assert!(glob.matches(b"ac"));
    assert!(!glob.matches(b"ax"));
    assert!(!glob.matches(b"abc"));
}

#[test]
fn nested_groups_and_classes() {
    let mut glob = Glob::default();
    assert!(glob.compile(b"{a{b,c},d}[0-9]?").is_ok());
    assert!(glob.matches(b"ab1x"));
    assert!(glob.matches(b"ac9/") == false);
    assert!(glob.matches(b"d5z"));
    assert!(!glob.matches(b"a5z"));
    assert!(glob.compile(b"[!a-c]").is_ok());
    assert!(glob.matches(b"d"));
    assert!(!glob.matches(b"b"));
    assert!(glob.compile(b"**").is_ok());
    assert!(glob.matches(b""));
    assert!(!glob.matches(b"abc"));
    assert!(glob.compile(b"**/c").is_ok());
    assert!(glob.matches(b"a/b/c"));
    assert!(glob.matches(b"/c"));
}
