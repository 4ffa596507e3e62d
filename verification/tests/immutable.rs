use readset::host::Sealed;
use readset::immutable::{immutable_root, is_object_name, store_object_of};
use readset::links::{at_or_below, leaving_links, Symlink};
use readset::ordered::TextMap;
use readset::question::Question;
use readset::records::{DirRecords, DirSealed};
use readset::value::{ambient_path, PathValue, Root};

#[test]
fn a_link_leaves_its_object_directly_through_another_or_by_aliasing_one() {
    let link = |path: &str, target: &str| Symlink {
        path: path.to_owned(),
        target: target.to_owned(),
    };
    let leaving = |links: Vec<Symlink>| leaving_links(&links);
    assert_eq!(leaving(vec![link("result", "/nix/store/x")]), vec!["result"]);
    assert_eq!(leaving(vec![link("a/up", "../../etc")]), vec!["a/up"]);
    assert_eq!(
        leaving(vec![link("a/b/up", "../..")]),
        Vec::<String>::new(),
        "to the root, not past it"
    );
    assert_eq!(
        leaving(vec![link("dangling", "nowhere/here")]),
        Vec::<String>::new()
    );
    assert_eq!(
        leaving(vec![link("x", "y"), link("y", "x")]),
        Vec::<String>::new(),
        "a cycle"
    );
    assert_eq!(
        leaving(vec![link("escape", "/etc"), link("alias", "escape")]),
        vec!["alias", "escape"],
        "a link resolving through a leaving link"
    );
    assert_eq!(
        leaving(vec![link("dir/out", "/etc"), link("alias", "dir")]),
        vec!["alias", "dir/out"],
        "a link aliasing the subtree that holds a leaving link"
    );
    assert_eq!(
        leaving(vec![link("deep/out", "/etc"), link("a", "b"), link("b", "deep")]),
        vec!["a", "b", "deep/out"],
        "through two aliases, found at the fixpoint"
    );
    assert_eq!(
        leaving(vec![link("out", "/etc"), link("self", ".")]),
        vec!["out", "self"],
        "a link to the object root aliases every leaving link"
    );
    assert_eq!(
        leaving(vec![
            link("out", "/etc"),
            link("lib/inner", "../lib/other"),
            link("lib/other", "file")
        ]),
        vec!["out"],
        "links that stay inside and away from the leaving one do not leave"
    );
    assert_eq!(
        leaving(vec![link("dir/out", "/etc"), link("alias", "dir/out/../passwd")]),
        vec!["alias", "dir/out"],
        "a `..` after a link component applies to the link's target, not to the spelling: \
         the traversal is called leaving rather than collapsed to `dir/passwd`"
    );
    assert_eq!(
        leaving(vec![
            link("a/out", "/etc"),
            link("s", "a/b"),
            link("alias", "s/../out")
        ]),
        vec!["a/out", "alias"],
        "the same through an in-object link: `s` is traversed before `..`"
    );
    assert_eq!(
        leaving(vec![link("s", "a/b"), link("alias", "s/c")]),
        vec!["alias"],
        "traversing any link before the last component is indeterminate here, so it leaves \
         (asks) even when the real resolution would stay inside"
    );
}

#[test]
fn an_import_of_a_directory_asks_when_its_default_nix_is_a_leaving_link() {
    let object = "00000000000000000000000000000000-source";
    let mut sealed: Sealed = TextMap::new();
    sealed.insert(object.to_owned(), vec!["pkg/default.nix".to_owned()]);
    let store = Some("/nix/store".to_owned());
    let dir = ambient_path(&format!("/nix/store/{object}/pkg"));
    let other = ambient_path(&format!("/nix/store/{object}/lib"));
    assert!(!Question::Import(dir.clone()).replays_from_record(&sealed, &store));
    assert!(Question::ReadDir(dir).replays_from_record(&sealed, &store));
    assert!(Question::Import(other).replays_from_record(&sealed, &store));
}

#[test]
fn a_store_object_is_the_first_well_formed_name_below_the_store_directory() {
    let object = "00000000000000000000000000000000-source";
    let dir = &Some("/nix/store".to_owned());
    assert_eq!(
        store_object_of(dir, &format!("/nix/store/{object}/a/b")).as_deref(),
        Some(object)
    );
    assert_eq!(
        store_object_of(dir, &format!("/nix/store/{object}")).as_deref(),
        Some(object)
    );
    assert_eq!(store_object_of(dir, "/nix/store/not-a-store-name/a"), None);
    assert_eq!(store_object_of(dir, "/nix/store"), None);
    assert_eq!(store_object_of(dir, "/etc/lib"), None);
    assert_eq!(store_object_of(dir, "/nix/storeroom/x"), None);
    assert_eq!(
        store_object_of(&None, &format!("/nix/store/{object}/a")),
        None
    );
}

#[test]
fn names_are_a_hash_a_hyphen_and_a_name() {
    assert!(is_object_name("00000000000000000000000000000000-source"));
    assert!(!is_object_name("00000000000000000000000000000000-"));
    assert!(!is_object_name("0000000000000000000000000000000e-source"));
    assert!(!is_object_name("00000000000000000000000000000000source"));
    assert!(!is_object_name("not-a-store-name"));
}

#[test]
fn a_mounted_root_cannot_change_and_an_ambient_one_only_where_it_is_sealed() {
    let object = "00000000000000000000000000000000-source";
    let mut sealed: Sealed = TextMap::new();
    let store = Some("/nix/store".to_owned());
    let mounted = PathValue::new(Root::mounted("/nix/store/x"), "/nix/store/x/a");
    let ambient = PathValue::ambient(&format!("/nix/store/{object}/a"));
    assert!(immutable_root(&mounted, &sealed, &store));
    assert!(!immutable_root(&ambient, &sealed, &store));
    sealed.insert(object.to_owned(), Vec::new());
    assert!(immutable_root(&ambient, &sealed, &store));
    assert!(!immutable_root(&ambient, &sealed, &None));
}

#[test]
fn a_path_is_at_or_below_itself_and_its_parents() {
    assert!(at_or_below("a/b", "a"));
    assert!(at_or_below("a", "a"));
    assert!(!at_or_below("ab", "a"));
}

#[test]
fn a_read_at_or_below_a_symlink_leaving_its_object_asks_and_its_siblings_replay() {
    let object = "00000000000000000000000000000000-source";
    let store_dir = Some("/nix/store".to_owned());
    let mut sealed: Sealed = TextMap::new();
    sealed.insert(object.to_owned(), vec!["result".to_owned(), "a/b".to_owned()]);
    let path = |rel: &str| ambient_path(&format!("/nix/store/{object}{rel}"));
    for (rel, expected) in [
        ("", true),
        ("/flake.nix", true),
        ("/resultant", true),
        ("/result", false),
        ("/result/x", false),
        ("/a", true),
        ("/a/b", false),
        ("/a/b/c", false),
        ("/a/bc", true),
    ] {
        assert_eq!(
            immutable_root(&path(rel), &sealed, &store_dir),
            expected,
            "{object}{rel}"
        );
    }
    let unsealed: Sealed = TextMap::new();
    assert!(!immutable_root(&path("/flake.nix"), &unsealed, &store_dir));
    assert!(!immutable_root(&path("/flake.nix"), &sealed, &None));

    let mut memo = DirSealed::open(DirRecords::new());
    assert_eq!(memo.get(object), None);
    memo.insert(object, &vec!["result".to_owned(), "a/b".to_owned()]);
    assert_eq!(
        memo.get(object),
        Some(vec!["result".to_owned(), "a/b".to_owned()]),
        "the leaving links come back with the object"
    );
}
