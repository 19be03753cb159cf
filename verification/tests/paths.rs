use multi_track_split::natural::{file_stands_before, order_files, stands_before};
use multi_track_split::path::{
    absolute, equal_parents, equal_paths, join_path, path_components, path_extension,
    path_file_name, path_file_stem, path_parent, rename_path, PathStyle,
};
use multi_track_split::project::{
    audio_reference, audio_references, resolve_audio_path, sidecar_path, PROJECT_SUFFIX,
};
use std::path::{Path, PathBuf};

const UNIX: PathStyle = PathStyle::Unix;
const WINDOWS: PathStyle = PathStyle::Windows;

const PATHS: [&str; 34] = [
    "", "/", "//", ".", "./", "..", "../", "a", "a/", "a//", "/a", "/a/b", "a/b", "a//b/", "./a",
    "./a/b", "././a", "a/.", "a/./b", "a/..", "/..", "/.", "//a//b//", "tape.wav", "/x/tape.wav",
    ".hidden", "a/.hidden", ".hidden.txt", "x.tar.gz", "x.", "..x", "/a/./b/./", "./.", "a b/c d.FLAC",
];

fn strings(list: &[&str]) -> Vec<String> {
    list.iter().map(|s| s.to_string()).collect()
}

#[test]
fn paths_agree_with_std() {
    for p in PATHS {
        let q = Path::new(p);
        assert_eq!(path_file_name(UNIX, p), q.file_name().map(|n| n.to_str().unwrap().to_string()), "{p:?}");
        assert_eq!(path_file_stem(UNIX, p), q.file_stem().map(|n| n.to_str().unwrap().to_string()), "{p:?}");
        assert_eq!(path_extension(UNIX, p), q.extension().map(|n| n.to_str().unwrap().to_string()), "{p:?}");
        assert_eq!(path_parent(UNIX, p), q.parent().map(|n| n.to_str().unwrap().to_string()), "{p:?}");
        assert_eq!(absolute(UNIX, p), q.is_absolute(), "{p:?}");
        let parts: Vec<String> =
            q.components().map(|c| c.as_os_str().to_str().unwrap().to_string()).collect();
        assert_eq!(path_components(UNIX, p), parts, "{p:?}");
        for n in ["x", "y.wav", "/abs/z", "d/e"] {
            assert_eq!(join_path(UNIX, p, n), q.join(n).to_str().unwrap(), "{p:?} {n:?}");
            assert_eq!(rename_path(UNIX, p, n), q.with_file_name(n).to_str().unwrap(), "{p:?} {n:?}");
        }
        for o in PATHS {
            assert_eq!(equal_paths(UNIX, p, o), q == Path::new(o), "{p:?} {o:?}");
            let same = equal_parents(UNIX, &path_parent(UNIX, p), &path_parent(UNIX, o));
            assert_eq!(same, q.parent() == Path::new(o).parent(), "{p:?} {o:?}");
        }
    }
}

#[test]
fn sidecar_sits_next_to_recording() {
    assert_eq!(PROJECT_SUFFIX, ".mtsplit.json");
    assert_eq!(sidecar_path(UNIX, &strings(&["/x/tape.wav"])), "/x/tape.mtsplit.json");
    assert_eq!(sidecar_path(UNIX, &strings(&["tape.wav"])), "tape.mtsplit.json");
    assert_eq!(sidecar_path(UNIX, &[]), "tape.mtsplit.json");
    assert_eq!(
        sidecar_path(UNIX, &strings(&["/x/demo/a.wav", "/x/demo/b.wav"])),
        "/x/demo/demo.mtsplit.json"
    );
    assert_eq!(sidecar_path(UNIX, &strings(&["a.wav", "b.wav"])), "tape.mtsplit.json");
    assert_eq!(sidecar_path(UNIX, &strings(&["/a.wav", "/b.wav"])), "/tape.mtsplit.json");
}

#[test]
fn recording_is_found_as_written_or_by_name() {
    let exists = |list: &[&str], p: &String| list.iter().any(|e| equal_paths(UNIX, e, p));
    let found = resolve_audio_path(UNIX, "/x/p.json", "tape.wav", |p| exists(&["/x/tape.wav"], p));
    assert_eq!(found.as_deref(), Some("/x/tape.wav"));
    let found = resolve_audio_path(UNIX, "/x/p.json", "/gone/tape.wav", |p| exists(&["/x/tape.wav"], p));
    assert_eq!(found.as_deref(), Some("/x/tape.wav"));
    let both = ["/gone/tape.wav", "/x/tape.wav"];
    let found = resolve_audio_path(UNIX, "/x/p.json", "/gone/tape.wav", |p| exists(&both, p));
    assert_eq!(found.as_deref(), Some("/gone/tape.wav"));
    let found = resolve_audio_path(UNIX, "/x/p.json", "sub/tape.wav", |p| exists(&["/x/sub/tape.wav"], p));
    assert_eq!(found.as_deref(), Some("/x/sub/tape.wav"));
    assert_eq!(resolve_audio_path(UNIX, "/x/p.json", "tape.wav", |_| false), None);
    assert_eq!(resolve_audio_path(UNIX, "/x/p.json", "..", |_| false), None);
}

#[test]
fn reference_is_bare_in_same_directory() {
    assert_eq!(audio_reference(UNIX, "/x/p.json", "/x/tape.wav"), "tape.wav");
    assert_eq!(audio_reference(UNIX, "/x/p.json", "/x//./tape.wav"), "tape.wav");
    assert_eq!(audio_reference(UNIX, "/y/p.json", "/x/tape.wav"), "/x/tape.wav");
    assert_eq!(audio_reference(UNIX, "p.json", "tape.wav"), "tape.wav");
    assert_eq!(
        audio_references(UNIX, "/x/p.json", &strings(&["/x/a.wav", "/y/b.wav"])),
        strings(&["a.wav", "/y/b.wav"])
    );
}

#[test]
fn reference_leads_back_to_recording() {
    for (project, audio) in [("/x/p.json", "/x/tape.wav"), ("p.json", "tape.wav"), ("./p", "./t.wav")] {
        let reference = audio_reference(UNIX, project, audio);
        let found = resolve_audio_path(UNIX, project, &reference, |p| equal_paths(UNIX, p, audio)).unwrap();
        assert_eq!(PathBuf::from(found), PathBuf::from(audio));
    }
}

#[test]
fn parent_and_name_join_again() {
    for p in PATHS {
        if let (Some(dir), Some(name)) = (path_parent(UNIX, p), path_file_name(UNIX, p)) {
            assert!(equal_paths(UNIX, &join_path(UNIX, &dir, &name), p), "{p:?}");
        }
    }
}

#[test]
fn numbers_sort_numerically() {
    assert!(stands_before("track 2 bass", "track 10 vox"));
    assert!(!stands_before("track 10 vox", "track 2 bass"));
    assert!(stands_before("a9", "a0010"));
    assert!(!stands_before("a1", "a01") && !stands_before("a01", "a1"));
    assert!(stands_before("99999999999999999998", "99999999999999999999"));
    assert!(stands_before("a", "b") && stands_before("a", "ab") && !stands_before("a", "a"));
    assert!(file_stands_before(UNIX, "/z/1.wav", "/a/2.wav"));
    let ordered = order_files(UNIX, strings(&["d/track 10.wav", "d/track 2.wav", "d/track 1.flac"]));
    assert_eq!(ordered, strings(&["d/track 1.flac", "d/track 2.wav", "d/track 10.wav"]));
    assert_eq!(order_files(UNIX, strings(&["y/1", "x/01", "w/1"])), strings(&["y/1", "x/01", "w/1"]));
}

/// A path on Windows, its components, its parent and its file name.
type Parts = (&'static str, &'static [&'static str], Option<&'static str>, Option<&'static str>);

const WINDOWS_PATHS: [Parts; 24] = [
    ("", &[], None, None),
    (r"foo", &["foo"], Some(""), Some("foo")),
    (r".", &["."], Some(""), None),
    (r"a/b\c", &["a", "b", "c"], Some("a/b"), Some("c")),
    (r"\", &[r"\"], None, None),
    (r"/foo\.\bar\", &[r"\", "foo", "bar"], Some("/foo"), Some("bar")),
    (r"C:", &["c:"], None, None),
    (r"C:\", &["c:", r"\"], None, None),
    (r"c:\foo.txt", &["c:", r"\", "foo.txt"], Some(r"c:\"), Some("foo.txt")),
    (r"C:foo", &["c:", "foo"], Some("C:"), Some("foo")),
    (r"C:.", &["c:"], None, None),
    (r"\\server\share\foo.txt", &["//server/share", r"\", "foo.txt"], Some(r"\\server\share\"), Some("foo.txt")),
    (r"\\server\share", &["//server/share", r"\"], None, None),
    (r"\\server", &[r"\", "server"], Some(r"\"), Some("server")),
    (r"\\?\bar\foo.txt", &[r"\\?\bar", r"\", "foo.txt"], Some(r"\\?\bar\"), Some("foo.txt")),
    (r"\\?\bar", &[r"\\?\bar"], None, None),
    (r"\\?\UNC\server\share\x", &[r"\\?\UNC\server\share", r"\", "x"], Some(r"\\?\UNC\server\share\"), Some("x")),
    (r"\\?\UNC\server", &[r"\\?\UNC\server"], None, None),
    (r"\\?\C:\a\.\b", &[r"\\?\c:", r"\", "a", ".", "b"], Some(r"\\?\C:\a\."), Some("b")),
    (r"\\?\C:/foo/bar", &[r"\\?\c:", r"\", "foo/bar"], Some(r"\\?\C:/"), Some("foo/bar")),
    (r"\\.\COM\bar", &["//./COM", r"\", "bar"], Some(r"\\.\COM\"), Some("bar")),
    (r"\\.\COM", &["//./COM", r"\"], None, None),
    (r"//?/C:/x", &["//?/C:", r"\", "x"], Some("//?/C:/"), Some("x")),
    (r"C:\rec\..", &["c:", r"\", "rec", ".."], Some(r"C:\rec"), None),
];

#[test]
fn windows_paths_have_their_parts() {
    for (p, parts, parent, name) in WINDOWS_PATHS {
        assert_eq!(path_components(WINDOWS, p), parts, "{p:?}");
        assert_eq!(path_parent(WINDOWS, p).as_deref(), parent, "{p:?}");
        assert_eq!(path_file_name(WINDOWS, p).as_deref(), name, "{p:?}");
    }
    for p in [r"C:\x", r"c:/", r"\\server\share", r"\\?\C:", r"\\.\COM", r"\\?\bar"] {
        assert!(absolute(WINDOWS, p), "{p:?}");
    }
    for p in [r"C:x", r"\x", r"\\server", "x", ""] {
        assert!(!absolute(WINDOWS, p), "{p:?}");
    }
    assert_eq!(path_file_stem(WINDOWS, r"C:\rec\a.b.wav").as_deref(), Some("a.b"));
    assert_eq!(path_extension(WINDOWS, r"C:\rec.d\a").as_deref(), None);
    assert_eq!(path_extension(UNIX, r"C:\rec.d\a").as_deref(), Some(r"d\a"));
}

#[test]
fn windows_paths_are_joined() {
    for (dir, p, expected) in [
        ("", "foo", "foo"),
        ("foo", "bar", r"foo\bar"),
        ("foo/", "bar", "foo/bar"),
        (r"foo\.", "bar", r"foo\.\bar"),
        ("foo", "", r"foo\"),
        ("foo", "/a/b", "/a/b"),
        ("c:", "windows", "c:windows"),
        (r"c:\", "windows", r"c:\windows"),
        (r"C:\a\b", r"\d", r"C:\d"),
        (r"C:\a\b", r"C:d", "C:d"),
        (r"C:\a\b", r"\\s\t", r"\\s\t"),
        (r"\\server\share\foo", "bar", r"\\server\share\foo\bar"),
        (r"\\server\share", r"\bar", r"\\server\share\bar"),
        (r"\\server", "bar", r"\\server\bar"),
        (r"\\?\C:\bar", r"\foo", r"\\?\C:\foo"),
        (r"\\?\C:\bar", "/foo", r"\\?\C:\foo"),
        (r"\\?\C:\bar", "../foo", r"\\?\C:\foo"),
        (r"\\?\C:\bar", "../../foo", r"\\?\C:\foo"),
        (r"\\?\A:", r"..\foo\.", r"\\?\A:\foo"),
        (r"\\?\A:\x\y", r".\foo\.", r"\\?\A:\x\y\foo"),
        (r"\\?\A:\x\y", "", r"\\?\A:\x\y\"),
        (r"\\?\A:/x\y", "z", r"\\?\A:\x\y\z"),
    ] {
        assert_eq!(join_path(WINDOWS, dir, p), expected, "{dir:?} {p:?}");
    }
    assert_eq!(rename_path(WINDOWS, r"C:\rec\a.wav", "b"), r"C:\rec\b");
    assert_eq!(rename_path(WINDOWS, r"C:\", "b"), r"C:\b");
    assert_eq!(rename_path(WINDOWS, "C:a", "b"), "C:b");
}

#[test]
fn windows_paths_are_compared() {
    for (a, b, same) in [
        (r"C:\rec\a", "c:/rec//a/", true),
        (r"C:\rec", r"C:\Rec", false),
        (r"\\server\share", r"//server/share/", true),
        (r"\\?\c:\x", r"\\?\C:\x", true),
        (r"\\?\C:\x", r"C:\x", false),
        (r"//?/C:/x", r"\\?\C:\x", false),
        (r"\\?\C:\.\x", r"\\?\C:\x", false),
        (r"\\?\UNC/s\t", r"\\?\UNC\s\t", true),
        (r"C:x", r"C:\x", false),
    ] {
        assert_eq!(equal_paths(WINDOWS, a, b), same, "{a:?} {b:?}");
        assert_eq!(equal_paths(WINDOWS, b, a), same, "{a:?} {b:?}");
    }
}

#[test]
fn windows_recordings_and_projects() {
    let files = strings(&[r"C:\rec\track 10.wav", r"C:\rec\track 2.wav"]);
    let ordered = order_files(WINDOWS, files);
    assert_eq!(ordered, strings(&[r"C:\rec\track 2.wav", r"C:\rec\track 10.wav"]));
    let project = sidecar_path(WINDOWS, &ordered);
    assert_eq!(project, r"C:\rec\rec.mtsplit.json");
    assert_eq!(sidecar_path(WINDOWS, &ordered[..1]), r"C:\rec\track 2.mtsplit.json");
    assert_eq!(sidecar_path(WINDOWS, &strings(&[r"C:\a.wav", r"C:\b.wav"])), r"C:\tape.mtsplit.json");
    assert_eq!(audio_reference(WINDOWS, &project, r"c:/rec/track 2.wav"), "track 2.wav");
    assert_eq!(audio_reference(WINDOWS, &project, r"D:\rec\x.wav"), r"D:\rec\x.wav");
    let found = resolve_audio_path(WINDOWS, &project, "track 2.wav", |p| *p == ordered[0]);
    assert_eq!(found.as_deref(), Some(r"C:\rec\track 2.wav"));
    let found = resolve_audio_path(WINDOWS, &project, r"E:\gone\track 2.wav", |p| *p == ordered[0]);
    assert_eq!(found.as_deref(), Some(r"C:\rec\track 2.wav"));
}
