use toolbox::vfs::VirtualFileSystem;
use toolbox::vfs::errors::{
    NotAbsolutePathError, NotRelativePathError, PathNotBelongsError, VfsError,
};
use toolbox::vfs::path::VfsPath;

fn new_vfs() -> VirtualFileSystem {
    VirtualFileSystem::try_new(VfsPath::parse("/tests/root")).unwrap()
}

#[test]
fn root_ok() {
    let vfs = new_vfs();
    assert_eq!(vfs.root, VfsPath::parse("/tests/root"));
}

#[test]
fn try_new_rejects_relative() {
    match VirtualFileSystem::try_new(VfsPath::parse("tests/root")) {
        Err(e) => assert_eq!(e, VfsError::NotAbsoluteInput),
        Ok(_) => panic!("a relative candidate must be rejected"),
    }
}

#[test]
fn try_new_normalizes() {
    let vfs = VirtualFileSystem::try_new(VfsPath::parse("/a//b/./c/..")).unwrap();
    assert_eq!(vfs.root.to_text(), "/a/b");
}

fn norm(s: &str) -> String {
    let vfs = VirtualFileSystem::try_new(VfsPath::parse("/")).unwrap();
    vfs.normalize(&VfsPath::parse(s)).to_text()
}

#[test]
fn normalize_literals() {
    assert_eq!(norm(""), ".");
    assert_eq!(norm("."), ".");
    assert_eq!(norm(".."), "..");
    assert_eq!(norm("../."), "..");
    assert_eq!(norm("../.."), "../..");
    assert_eq!(norm("../../.."), "../../..");
    assert_eq!(norm("./dir"), "dir");
    assert_eq!(norm("../dir"), "../dir");
    assert_eq!(norm("../dir/.."), "..");
    assert_eq!(norm("./first/second/.."), "first");
    assert_eq!(norm("first/./second"), "first/second");
}

#[test]
fn normalize_is_idempotent_on_samples() {
    let vfs = VirtualFileSystem::try_new(VfsPath::parse("/")).unwrap();
    let samples = ["", ".", "..", "../dir/..", "/a/../b/./c", "a//b/../../c", "/.."];
    for s in samples.iter() {
        let once = vfs.normalize(&VfsPath::parse(s));
        let twice = vfs.normalize(&once);
        assert_eq!(once, twice);
    }
}

#[test]
fn normalize_anchored() {
    assert_eq!(norm("/"), "/");
    assert_eq!(norm("/.."), "/");
    assert_eq!(norm("/a/./b/../c"), "/a/c");
}

#[test]
fn absolute_ok() {
    let vfs = new_vfs();
    assert_eq!(
        vfs.absolute(&VfsPath::parse("more")).unwrap(),
        VfsPath::parse("/tests/root/more"),
    );
}

#[test]
fn absolute_containment() {
    let vfs = new_vfs();
    // An anchored path outside the root is refused.
    assert_eq!(vfs.absolute(&VfsPath::parse("/outside/path")), None);
    // A relative path whose leading parent segments escape the root is
    // refused too.
    assert_eq!(vfs.absolute(&VfsPath::parse("../escape")), None);
    assert_eq!(vfs.absolute(&VfsPath::parse("a/../../escape")), None);
    // The root itself resolves to itself.
    assert_eq!(
        vfs.absolute(&VfsPath::parse("/tests/root")),
        Some(VfsPath::parse("/tests/root")),
    );
    // Anchored paths under the root pass, and are normalized.
    assert_eq!(
        vfs.absolute(&VfsPath::parse("/tests/root/a/./b/..")).unwrap().to_text(),
        "/tests/root/a",
    );
}

#[test]
fn absolute_starts_with_root() {
    let vfs = new_vfs();
    let a = vfs.absolute(&VfsPath::parse("a/b/../c")).unwrap();
    assert!(a.starts_with(&vfs.root));
    assert_eq!(a.to_text(), "/tests/root/a/c");
}

#[test]
fn relative_ok() {
    let vfs = new_vfs();

    assert_eq!(
        vfs.relative(&VfsPath::parse("/tests/root/more")).unwrap(),
        VfsPath::parse("more"),
    );
}

#[test]
fn relative_err() {
    let vfs = new_vfs();

    vfs.relative(&VfsPath::parse("more")).expect_err("Argument is not absolute path.");
}

#[test]
fn relative_cases() {
    let vfs = new_vfs();
    // The root itself reads as the current directory.
    assert_eq!(vfs.relative(&VfsPath::parse("/tests/root")).unwrap().to_text(), ".");
    // One more segment is handed back alone.
    assert_eq!(vfs.relative(&VfsPath::parse("/tests/root/more")).unwrap().to_text(), "more");
    // An unanchored input fails.
    assert_eq!(
        vfs.relative(&VfsPath::parse("more")),
        Err(VfsError::NotAbsoluteInput),
    );
    // An anchored input outside the root fails.
    assert_eq!(
        vfs.relative(&VfsPath::parse("/outside")),
        Err(VfsError::OutOfScope),
    );
}

#[test]
fn round_trip_ok() {
    let vfs = new_vfs();
    let a = vfs.absolute(&VfsPath::parse("a/b/../c/d")).unwrap();
    let rel = vfs.relative(&a).unwrap();
    assert_eq!(rel.to_text(), "a/c/d");
    let rejoined = vfs.normalize(&vfs.root.join(&rel));
    assert_eq!(rejoined, a);
}

#[test]
fn chroot_ok() {
    let mut vfs = new_vfs();

    // new root == old root
    assert!(vfs.chroot(&VfsPath::parse(".")));
    assert_eq!(vfs.root, VfsPath::parse("/tests/root"));

    // new root relative
    assert!(vfs.chroot(&VfsPath::parse("more")));
    assert_eq!(vfs.root, VfsPath::parse("/tests/root/more"));

    // climbing back up would leave the virtual file system: refused
    assert!(!vfs.chroot(&VfsPath::parse("../..")));
    assert_eq!(vfs.root, VfsPath::parse("/tests/root/more"));
}

#[test]
fn chroot_failure_keeps_root() {
    let mut vfs = new_vfs();

    // an anchored path outside the root is refused, and the root stays
    assert!(!vfs.chroot(&VfsPath::parse("/outside")));
    assert_eq!(vfs.root, VfsPath::parse("/tests/root"));
}

#[test]
fn contains_ok() {
    let vfs = new_vfs();
    assert!(vfs.contains(&VfsPath::parse("anything/relative")));
    assert!(vfs.contains(&VfsPath::parse("/tests/root/below")));
    assert!(!vfs.contains(&VfsPath::parse("/elsewhere")));
}

#[test]
fn resolve_ok() {
    let vfs = new_vfs();
    assert_eq!(
        vfs.resolve(&VfsPath::parse("a/b")).unwrap().to_text(),
        "/tests/root/a/b",
    );
    assert_eq!(
        vfs.resolve(&VfsPath::parse("/outside")),
        Err(VfsError::OutOfScope),
    );
    // A directory operation never receives a target above the root.
    assert_eq!(
        vfs.resolve(&VfsPath::parse("../sibling")),
        Err(VfsError::OutOfScope),
    );
}

#[test]
fn exists_given_ok() {
    let vfs = new_vfs();
    // A path that does not resolve never exists, whatever the disk says.
    assert!(!vfs.exists_given(&VfsPath::parse("/outside"), true));
    assert!(!vfs.exists_given(&VfsPath::parse("/outside"), false));
    // A resolving path exists exactly when the disk reports it present.
    assert!(vfs.exists_given(&VfsPath::parse("more/example.txt"), true));
    assert!(!vfs.exists_given(&VfsPath::parse("foo"), false));
}

#[test]
fn parse_and_render() {
    assert_eq!(VfsPath::parse("/a/b/c").to_text(), "/a/b/c");
    assert_eq!(VfsPath::parse("a//b/").to_text(), "a/b");
    assert_eq!(VfsPath::parse("").to_text(), "");
    assert_eq!(VfsPath::parse("/").to_text(), "/");
    assert!(VfsPath::parse("/x").anchored);
    assert!(!VfsPath::parse("x").anchored);
}

#[test]
fn error_messages() {
    assert_eq!(NotAbsolutePathError::new().message, "Argument is not absolute path.");
    assert_eq!(NotRelativePathError::new().message, "Argument is not relative path.");
    assert_eq!(
        PathNotBelongsError::new(&VfsPath::parse("/a/b")).message,
        "File system don't contain this path: /a/b",
    );
}
