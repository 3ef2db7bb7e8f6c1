use arch_run::paths::{absolute, is_under, join_path, split_components, strip_base};
use std::path::Path;

fn samples() -> Vec<&'static str> {
    vec![
        "", "/", "//", ".", "./", "./.", "././a", "..", "../a", "a", "a/", "a//", "a/.", "a/./", "a/b", "a//b", "a/./b",
        "/a", "/a/", "//a", "/./a", "/.", "/./", "/a/b/c", "/a/b/c/", "/a//b/./c/.", "/usr", "/usr/", "/usr/bin",
        "/usrx", "~", "~/", "~/x", "~x", "~//x/./y/", "./a/b", ".a", ".a/b", "a/..", "/..", "a/.b", "./~", "...", "a/...",
        "/home/\u{e9}t\u{e9}/x", "\u{e9}",
    ]
}

#[test]
fn components_agree_with_std() {
    for p in samples() {
        let expected: Vec<Vec<u8>> = Path::new(p)
            .components()
            .map(|c| c.as_os_str().to_str().unwrap().as_bytes().to_vec())
            .collect();
        assert_eq!(split_components(p.as_bytes()), expected, "{p:?}");
        assert_eq!(absolute(p.as_bytes()), Path::new(p).is_absolute(), "{p:?}");
    }
}

#[test]
fn prefixes_agree_with_std() {
    for p in samples() {
        for base in samples() {
            assert_eq!(
                is_under(p.as_bytes(), base.as_bytes()),
                Path::new(p).starts_with(base),
                "{p:?} {base:?}"
            );
            let expected = Path::new(p)
                .strip_prefix(base)
                .ok()
                .map(|r| r.to_str().unwrap().as_bytes().to_vec());
            assert_eq!(strip_base(p.as_bytes(), base.as_bytes()), expected, "{p:?} {base:?}");
        }
    }
}

#[test]
fn joins_agree_with_std() {
    for base in samples() {
        for rel in samples() {
            let expected = Path::new(base).join(rel);
            assert_eq!(
                join_path(base.as_bytes(), rel.as_bytes()),
                expected.to_str().unwrap().as_bytes(),
                "{base:?} {rel:?}"
            );
        }
    }
}

#[test]
fn going_down_and_back_names_the_same_place() {
    let rest = strip_base(b"/cache/foo-1/./usr//bin/foo/", b"/cache/foo-1").unwrap();
    assert_eq!(rest, b"usr//bin/foo");
    assert_eq!(
        split_components(&join_path(b"/cache/foo-1", &rest)),
        split_components(b"/cache/foo-1/usr/bin/foo")
    );
}

#[test]
fn bytes_need_not_be_text() {
    assert_eq!(join_path(b"/a\xff", b"b\xfe"), b"/a\xff/b\xfe");
    assert!(is_under(b"/a\xff/b", b"/a\xff"));
    assert!(!is_under(b"/a\xff/b", b"/a"));
}
