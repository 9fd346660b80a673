use local_httpd::resolve::{plan, refused};

fn names(plan: &local_httpd::resolve::Plan) -> Vec<String> {
    plan.dirs.iter().map(|dir| String::from_utf8_lossy(dir).into_owned()).collect()
}

#[test]
fn root_path_stands_for_its_index() {
    let plan = plan(b"/").unwrap();
    assert!(plan.dirs.is_empty());
    assert_eq!(b"index.html".to_vec(), plan.file);
    assert!(plan.is_dir);
}

#[test]
fn file_path_names_directories_and_a_file() {
    let plan = plan(b"/a/b/c.txt").unwrap();
    assert_eq!(vec!["a", "b"], names(&plan));
    assert_eq!(b"c.txt".to_vec(), plan.file);
    assert!(!plan.is_dir);
    let plan = local_httpd::resolve::plan(b"/index.html").unwrap();
    assert!(plan.dirs.is_empty());
    assert_eq!(b"index.html".to_vec(), plan.file);
    assert!(!plan.is_dir);
}

#[test]
fn directory_path_names_directories_and_the_index() {
    let plan = plan(b"/a/b/").unwrap();
    assert_eq!(vec!["a", "b"], names(&plan));
    assert_eq!(b"index.html".to_vec(), plan.file);
    assert!(plan.is_dir);
}

#[test]
fn paths_are_refused_outright_for_their_looks() {
    assert!(refused(b""));
    assert!(refused(b"a"));
    assert!(refused(b"a/b"));
    assert!(refused(b"//"));
    assert!(refused(b"/a//b"));
    assert!(refused(b"/a//"));
    assert!(refused(b"/a\\b"));
    assert!(refused(b"/\\"));
    assert!(!refused(b"/"));
    assert!(!refused(b"/a/b"));
    assert!(!refused(b"/.git/config"));
    assert!(!refused(b"/a/../b"));
}

#[test]
fn refused_paths_have_no_plan() {
    for path in [&b""[..], b"a", b"index.html", b"//", b"/a//b", b"/a\\b", b"\\a"] {
        assert!(plan(path).is_none(), "{:?}", path);
    }
}

#[test]
fn dot_components_have_no_plan() {
    for path in [
        &b"/."[..], b"/..", b"/./", b"/../", b"/a/./b", b"/a/../b", b"/a/..", b"/a/../", b"/.git",
        b"/.git/config", b"/a/.hidden", b"/a/.hidden/", b"/a/.hidden/b", b"/...", b"/.a.",
        b"/../../etc/passwd",
    ] {
        assert!(plan(path).is_none(), "{:?}", path);
    }
}

#[test]
fn dots_inside_names_are_fine() {
    let plan = plan(b"/a.b/c..d/e.").unwrap();
    assert_eq!(vec!["a.b", "c..d"], names(&plan));
    assert_eq!(b"e.".to_vec(), plan.file);
}
