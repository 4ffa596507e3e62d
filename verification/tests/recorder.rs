#![allow(dead_code, unused_imports)]

use readset::cache::{
    Held, Lookup, LookupAction, LookupEvent, ObjectRead, ResultCache, RowRead,
};
use readset::codec::CanonValue;
use readset::copies::CopyMemo;
use readset::digest;
use readset::digest::{Digest, ObjId, Part, Preimage, WriteDrvAnswer};
use readset::host::{
    DrvSource, FileType, FlakeCall, Host, ImportedSource, Links, LookupError, Sealed, Slow,
    SlowAnswer, StoreError, StorePathResult, Ticket,
};
use readset::ordered::{TextMap, TextSet};
use readset::purity::{verdict, PathReads, Verdict};
use readset::question::{Question, Recorded, WitnessRow};
use readset::readset::{EvalId, Folded, ReadSet};
use readset::recorder::{Emission, RecordingHost};
use readset::recording::{RecordAction, RecordEvent};
use readset::records::{DirCopies, DirRecords, DirSealed};
use readset::replay::{ReplayFailure, Settings};
use readset::result::EvalResult;
use readset::task::{
    AcceptedPath, FetchKind, FetchRequest, FetchTreeRequest, FilteredCopy, PathMethod,
    SearchPathEntry, TreeAttr, TreeFetcher,
};
use readset::validity::{Fetched, Given};
use readset::value::{ambient_path, ContextElem, PathValue, Root};
use readset::witness;
use std::cell::{Cell, RefCell};
use std::collections::BTreeMap;
use std::rc::Rc;

/// A hash that tells apart whatever the tests tell apart.
fn mixed(tag: &str, fields: &[Vec<u8>]) -> digest::Hash {
    let mut out = [0u8; 32];
    for lane in 0..4u64 {
        let mut h: u64 = 0xcbf2_9ce4_8422_2325 ^ (lane.wrapping_mul(0x9e37_79b9_7f4a_7c15));
        let mut eat = |bytes: &[u8]| {
            for b in (bytes.len() as u64).to_le_bytes().iter().chain(bytes) {
                h = (h ^ u64::from(*b)).wrapping_mul(0x0000_0100_0000_01b3);
                h ^= h >> 29;
            }
        };
        eat(tag.as_bytes());
        for field in fields {
            eat(field);
        }
        out[lane as usize * 8..lane as usize * 8 + 8].copy_from_slice(&h.to_le_bytes());
    }
    digest::Hash::from_bytes(out)
}

fn taken(d: &Digest) -> digest::Hash {
    match d {
        Digest::Known(h) => *h,
        Digest::Read(fields) => mixed(digest::READ_TAG, fields),
    }
}

fn hashed(p: &Preimage) -> digest::Hash {
    let fields: Vec<Vec<u8>> = p
        .parts
        .iter()
        .map(|part| match part {
            Part::Bytes(b) => b.clone(),
            Part::Digest(d) => taken(d).to_vec(),
        })
        .collect();
    mixed(&p.tag, &fields)
}

fn object(bytes: &[u8]) -> ObjId {
    ObjId { hash: mixed("object", &[bytes.to_vec()]) }
}

fn id(module: &[u8]) -> EvalId {
    let none = mixed("none", &[]);
    EvalId {
        key: hashed(&EvalId::of(&mixed("m", &[module.to_vec()]), "evaluator", &none, &none, &none)),
    }
}

fn told(parts: &[&str]) -> Digest {
    Digest::Read(parts.iter().map(|p| p.as_bytes().to_vec()).collect())
}

/// What a world answers; each answer can be replaced.
struct Answers {
    import_source: Box<dyn Fn(&PathValue) -> Result<ImportedSource, String>>,
    read_file: Box<dyn Fn(&PathValue) -> Result<String, String>>,
    read_dir: Box<dyn Fn(&PathValue) -> Result<Vec<(String, FileType)>, String>>,
    path_exists: Box<dyn Fn(&PathValue) -> Result<bool, String>>,
    dir_exists: Box<dyn Fn(&PathValue) -> Result<bool, String>>,
    file_type: Box<dyn Fn(&PathValue) -> Result<Option<FileType>, String>>,
    get_env: Box<dyn Fn(&str) -> Option<String>>,
    copy_to_store: Box<dyn Fn(&PathValue) -> Result<String, StoreError>>,
    store_text: Box<dyn Fn(&str) -> Result<String, StoreError>>,
    write_derivation: Box<dyn Fn(&str) -> Result<String, StoreError>>,
    realise: Box<dyn Fn(&Vec<ContextElem>) -> Result<TextMap<String>, StoreError>>,
    ensure_path: Box<dyn Fn(&str) -> Result<(), StoreError>>,
    store_filtered: Box<dyn Fn(&FilteredCopy) -> Result<String, StoreError>>,
    fetch: Box<dyn Fn(&FetchRequest) -> Result<String, StoreError>>,
    fetch_tree: Box<dyn Fn(&FetchTreeRequest) -> Result<String, StoreError>>,
    valid_paths: Box<dyn Fn(&str) -> bool>,
    sealed: Box<dyn Fn(&str) -> bool>,
    allow_paths: Box<dyn Fn(&Vec<String>) -> Result<(), StoreError>>,
    allow_closures: Box<dyn Fn(&Vec<String>) -> Result<(), StoreError>>,
    begin: Box<dyn Fn(&Slow) -> Option<Ticket>>,
    collect: Box<dyn Fn(Ticket) -> Option<SlowAnswer>>,
}

struct Told {
    answers: Answers,
    log: RefCell<Vec<String>>,
    asked: RefCell<Vec<Vec<String>>>,
    allowed: RefCell<Vec<Vec<String>>>,
}

/// A host whose answers a test chooses, and which notes what it is asked.
#[derive(Clone)]
struct World(Rc<Told>);

impl World {
    fn new(change: impl FnOnce(&mut Answers)) -> World {
        let mut answers = Answers {
            import_source: Box::new(|_| Err("not asked".to_owned())),
            read_file: Box::new(|_| Err("no".to_owned())),
            read_dir: Box::new(|_| Ok(Vec::new())),
            path_exists: Box::new(|_| Ok(false)),
            dir_exists: Box::new(|_| Ok(false)),
            file_type: Box::new(|_| Ok(Some(FileType::Regular))),
            get_env: Box::new(|_| None),
            copy_to_store: Box::new(|_| Err(StoreError::NoStore)),
            store_text: Box::new(|_| Err(StoreError::NoStore)),
            write_derivation: Box::new(|_| Err(StoreError::NoStore)),
            realise: Box::new(|_| Err(StoreError::NoStore)),
            ensure_path: Box::new(|_| Err(StoreError::NoStore)),
            store_filtered: Box::new(|_| Err(StoreError::NoStore)),
            fetch: Box::new(|_| Err(StoreError::NoStore)),
            fetch_tree: Box::new(|_| Err(StoreError::NoStore)),
            valid_paths: Box::new(|_| false),
            sealed: Box::new(|_| false),
            allow_paths: Box::new(|_| Ok(())),
            allow_closures: Box::new(|_| Ok(())),
            begin: Box::new(|_| None),
            collect: Box::new(|_| None),
        };
        change(&mut answers);
        World(Rc::new(Told {
            answers,
            log: RefCell::new(Vec::new()),
            asked: RefCell::new(Vec::new()),
            allowed: RefCell::new(Vec::new()),
        }))
    }

    fn note(&self, what: String) {
        self.0.log.borrow_mut().push(what);
    }

    fn log(&self) -> Vec<String> {
        self.0.log.borrow().clone()
    }

    fn count(&self, method: &str) -> usize {
        self.log().iter().filter(|l| l.split(' ').next() == Some(method)).count()
    }

    fn forget(&self) {
        self.0.log.borrow_mut().clear();
        self.0.asked.borrow_mut().clear();
        self.0.allowed.borrow_mut().clear();
    }
}

impl Host for World {
    fn import_source(&self, path: &PathValue) -> Result<ImportedSource, String> {
        self.note(format!("import_source {}", path.path));
        (self.0.answers.import_source)(path)
    }
    fn read_file(&self, path: &PathValue) -> Result<String, String> {
        self.note(format!("read_file {}", path.path));
        (self.0.answers.read_file)(path)
    }
    fn read_file_bytes(&self, path: &PathValue) -> Result<Vec<u8>, String> {
        self.note(format!("read_file_bytes {}", path.path));
        (self.0.answers.read_file)(path).map(String::into_bytes)
    }
    fn read_dir(&self, path: &PathValue) -> Result<Vec<(String, FileType)>, String> {
        self.note(format!("read_dir {}", path.path));
        (self.0.answers.read_dir)(path)
    }
    fn path_exists_checked(&self, path: &PathValue) -> Result<bool, String> {
        self.note(format!("path_exists {}", path.path));
        (self.0.answers.path_exists)(path)
    }
    fn dir_exists_checked(&self, path: &PathValue) -> Result<bool, String> {
        self.note(format!("dir_exists {}", path.path));
        (self.0.answers.dir_exists)(path)
    }
    fn file_type(&self, path: &PathValue) -> Result<Option<FileType>, String> {
        self.note(format!("file_type {}", path.path));
        (self.0.answers.file_type)(path)
    }
    fn file_type_resolved(&self, path: &PathValue) -> Result<FileType, String> {
        self.note(format!("file_type_resolved {}", path.path));
        Err("no".to_owned())
    }
    fn get_env(&self, name: &str) -> Option<String> {
        self.note(format!("get_env {name}"));
        (self.0.answers.get_env)(name)
    }
    fn copy_to_store(&self, path: &PathValue) -> Result<String, StoreError> {
        self.note(format!("copy_to_store {}", path.path));
        (self.0.answers.copy_to_store)(path)
    }
    fn store_path(&self, path: &PathValue) -> Result<StorePathResult, StoreError> {
        self.note(format!("store_path {}", path.path));
        Err(StoreError::NoStore)
    }
    fn find_file(&self, _: &Vec<SearchPathEntry>, name: &str) -> Result<PathValue, LookupError> {
        self.note(format!("find_file {name}"));
        Err(LookupError::NoResolver)
    }
    fn nix_path(&self) -> Result<Vec<SearchPathEntry>, LookupError> {
        self.note("nix_path".to_owned());
        Err(LookupError::NoResolver)
    }
    fn store_text(&self, name: &str, _: &str, _: &Vec<String>) -> Result<String, StoreError> {
        self.note(format!("store_text {name}"));
        (self.0.answers.store_text)(name)
    }
    fn write_derivation(&self, name: &str, _: &str) -> Result<String, StoreError> {
        self.note(format!("write_derivation {name}"));
        (self.0.answers.write_derivation)(name)
    }
    fn realise(&self, context: &Vec<ContextElem>) -> Result<TextMap<String>, StoreError> {
        self.note("realise".to_owned());
        (self.0.answers.realise)(context)
    }
    fn ensure_path(&self, path: &str) -> Result<(), StoreError> {
        self.note(format!("ensure_path {path}"));
        (self.0.answers.ensure_path)(path)
    }
    fn store_filtered(&self, request: &FilteredCopy) -> Result<String, StoreError> {
        self.note(format!("store_filtered {}", request.root.path));
        (self.0.answers.store_filtered)(request)
    }
    fn fetch(&self, request: &FetchRequest) -> Result<String, StoreError> {
        self.note(format!("fetch {}", request.url));
        (self.0.answers.fetch)(request)
    }
    fn fetch_tree(&self, request: &FetchTreeRequest) -> Result<String, StoreError> {
        self.note(format!("fetch_tree {}", request.fetcher.as_str()));
        (self.0.answers.fetch_tree)(request)
    }
    fn lock_flake(&self, flake_ref: &str) -> Result<FlakeCall, StoreError> {
        self.note(format!("lock_flake {flake_ref}"));
        Err(StoreError::NoStore)
    }
    fn parse_flake_ref(&self, flake_ref: &str) -> Result<String, StoreError> {
        self.note(format!("parse_flake_ref {flake_ref}"));
        Err(StoreError::NoStore)
    }
    fn flake_ref_to_string(&self, _: &TextMap<TreeAttr>) -> Result<String, StoreError> {
        self.note("flake_ref_to_string".to_owned());
        Err(StoreError::NoStore)
    }
    fn valid_paths(&self, paths: &Vec<String>) -> Result<TextSet, StoreError> {
        self.note("valid_paths".to_owned());
        self.0.asked.borrow_mut().push(paths.clone());
        let mut held = TextSet::new();
        for path in paths {
            if (self.0.answers.valid_paths)(path) {
                held.insert(path.clone());
            }
        }
        Ok(held)
    }
    fn sealed_paths(&self, objects: &Vec<String>) -> Result<Links, StoreError> {
        self.note("sealed_paths".to_owned());
        let mut links = Links::new();
        for object in objects {
            if (self.0.answers.sealed)(object) {
                links.insert(object.clone(), Vec::new());
            }
        }
        Ok(links)
    }
    fn allow_paths(&self, paths: &Vec<String>) -> Result<(), StoreError> {
        self.note("allow_paths".to_owned());
        let answer = (self.0.answers.allow_paths)(paths);
        if answer.is_ok() {
            self.0.allowed.borrow_mut().push(paths.clone());
        }
        answer
    }
    fn allow_closures(&self, outputs: &Vec<String>) -> Result<(), StoreError> {
        self.note("allow_closures".to_owned());
        let answer = (self.0.answers.allow_closures)(outputs);
        if answer.is_ok() {
            self.0.allowed.borrow_mut().push(outputs.clone());
        }
        answer
    }
    fn settle(&self) -> Result<(), StoreError> {
        Ok(())
    }
    fn warn(&self, message: &str) {
        self.note(format!("warn {message}"));
    }
    fn trace(&self, message: &str) {
        self.note(format!("trace {message}"));
    }
    fn begin(&self, question: &Slow) -> Option<Ticket> {
        self.note("begin".to_owned());
        (self.0.answers.begin)(question)
    }
    fn collect(&self, ticket: Ticket, _: bool) -> Option<SlowAnswer> {
        self.note("collect".to_owned());
        (self.0.answers.collect)(ticket)
    }
}

/// A world with a file `/a`, whose contents are a version, and a variable `SET`.
fn fake_at(version: Rc<Cell<u8>>) -> World {
    World::new(move |w| {
        w.read_file = Box::new(move |p| match p.path.as_str() {
            "/a" => Ok(format!("v{}", version.get())),
            other => Err(format!("path '{other}' does not exist")),
        });
        w.read_dir = Box::new(|_| Ok(vec![("x".to_owned(), FileType::Regular)]));
        w.path_exists = Box::new(|p| Ok(p.path == "/a"));
        w.get_env = Box::new(|name| match name {
            "SET" => Some("yes".to_owned()),
            _ => None,
        });
    })
}

fn fake() -> World {
    fake_at(Rc::new(Cell::new(1)))
}

const MOUNT: &str = "/nix/store/aaaaaaaaaaaaaaaaaaaaaaaaaaaaaaaa-src";
const OBJECT: &str = "00000000000000000000000000000000-source";

fn mounted(spelling: &str) -> PathValue {
    PathValue::new(Root::mounted(MOUNT), spelling)
}

fn in_store() -> Settings {
    Settings { store_dir: Some("/nix/store".to_owned()), ..Settings::default() }
}

fn nothing_given() -> Given {
    Given { objects: Vec::new(), placeholders: TextMap::new() }
}

fn rows_of(questions: Vec<Question>) -> Vec<WitnessRow> {
    questions
        .into_iter()
        .map(|q| (q, Recorded::Digest(told(&["test-row-never-recorded"]))))
        .collect()
}

fn replayed_rows(rows: &Vec<WitnessRow>, host: &World) -> ReadSet {
    match ReadSet::replay(rows, host, &Settings::default(), &nothing_given()) {
        Ok(Some(set)) => set,
        Ok(None) => unreachable!("replay refused; a purity setting is on in this test"),
        Err(error) => unreachable!("replay failed: {error:?}"),
    }
}

fn replayed(questions: Vec<Question>, host: &World) -> ReadSet {
    replayed_rows(&rows_of(questions), host)
}

fn questions(rows: &Vec<WitnessRow>) -> Vec<&Question> {
    rows.iter().map(|(question, _)| question).collect()
}

fn result(value: &str) -> EvalResult {
    EvalResult {
        status: "ok".to_owned(),
        value: value.to_owned(),
        emissions: Vec::new(),
        token: None,
        pos: None,
    }
}

fn one_of_each() -> Vec<Question> {
    let path = |spelling: &str| Rc::new(PathValue::ambient(spelling));
    let mut tree = TextMap::new();
    tree.insert("type".to_owned(), TreeAttr::Str("git".to_owned()));
    tree.insert("url".to_owned(), TreeAttr::Str("/argument/repo".to_owned()));
    tree.insert("shallow".to_owned(), TreeAttr::Bool(true));
    tree.insert("revCount".to_owned(), TreeAttr::Int(7));
    let mut flake = TextMap::new();
    flake.insert("type".to_owned(), TreeAttr::Str("github".to_owned()));
    flake.insert("shallow".to_owned(), TreeAttr::Bool(false));
    flake.insert("revCount".to_owned(), TreeAttr::Int(11));
    let pin = "sha256-1BdlSaqjNlSVCcgD/PocqAwbnGQ+lyfL6h9WK6+MCJc=".to_owned();
    vec![
        Question::ReadFile(path("/argument/read-file")),
        Question::ReadDir(path("/argument/read-dir")),
        Question::PathExists(path("/argument/path-exists")),
        Question::FileType(path("/argument/file-type")),
        Question::GetEnv("ARGUMENT_GET_ENV".to_owned()),
        Question::CopyToStore(path("/argument/copy-to-store")),
        Question::FindFile {
            entries: vec![
                SearchPathEntry {
                    prefix: "nixpkgs".to_owned(),
                    path: "/argument/nixpkgs".to_owned(),
                },
                SearchPathEntry {
                    prefix: String::new(),
                    path: "/argument/fallback".to_owned(),
                },
            ],
            name: "nixpkgs".to_owned(),
        },
        Question::NixPath,
        Question::EnsurePath("/argument/ensure-path".to_owned()),
        Question::StoreText {
            name: "argument-store-text".to_owned(),
            contents: "argument contents".to_owned(),
            references: vec![
                "/argument/store-text-ref-a".to_owned(),
                "/argument/store-text-ref-b".to_owned(),
            ],
        },
        Question::StoreFiltered(Box::new(FilteredCopy {
            root: path("/argument/store-filtered"),
            name: "argument-name".to_owned(),
            method: PathMethod::Flat,
            accepted: Some(vec![
                AcceptedPath {
                    path: "/argument/store-filtered/a".to_owned(),
                    file_type: FileType::Regular,
                },
                AcceptedPath {
                    path: "/argument/store-filtered/d".to_owned(),
                    file_type: FileType::Directory,
                },
            ]),
            expected_sha256: Some(pin.clone()),
            inherit_references: true,
        })),
        Question::Fetch(Box::new(FetchRequest {
            url: "https://argument.example/fetch.tar.gz".to_owned(),
            name: "argument-fetch-name".to_owned(),
            kind: FetchKind::Tarball,
            expected_sha256: Some(pin),
        })),
        Question::FetchTree(Box::new(FetchTreeRequest { attrs: tree, fetcher: TreeFetcher::Git })),
        Question::FileTypeResolved(path("/argument/file-type-resolved")),
        Question::LockFlake("path:/argument/flake".to_owned()),
        Question::Realise(vec![
            ContextElem::Opaque("/argument/realise-opaque".to_owned()),
            ContextElem::DrvDeep("/argument/realise-deep.drv".to_owned()),
            ContextElem::Built {
                drv: "/argument/realise-built.drv".to_owned(),
                output: "dev".to_owned(),
            },
        ]),
        Question::ReadFileBytes(path("/argument/read-file-bytes")),
        Question::ParseFlakeRef("github:argument/parse-flake-ref".to_owned()),
        Question::FlakeRefToString(flake),
        Question::Import(path("/argument/import")),
        Question::StorePath(path("/argument/store-path")),
        Question::DirExists(path("/argument/dir-exists")),
        Question::WriteDrv {
            name: "argument-write-drv".to_owned(),
            answer: WriteDrvAnswer::Written("/nix/store/argument-write-drv.drv".to_owned()),
            aterm: object(b"Derive([])"),
        },
        Question::Tree(path("/argument/tree")),
    ]
}

use readset::copies::{copy_key, store_filtered_trace, CopyCost, CopyLookup};
use readset::records;
use readset::records::{Listed, COPY_MEMO_KEEP, COPY_MEMO_PRUNE_EVERY, STALE_TEMPORARY};

fn copied_to(name: &str) -> String {
    format!("/nix/store/11111111111111111111111111111111-{name}")
}

/// A world in which some objects are sealed and all paths but some are held.
struct Sealing {
    world: World,
    refuse_allow: Rc<Cell<bool>>,
}

impl Sealing {
    fn of(sealed: &[&str]) -> Sealing {
        Sealing::lacking(sealed, &[])
    }

    fn lacking(sealed: &[&str], absent: &[&str]) -> Sealing {
        let sealed: Vec<String> = sealed.iter().map(|o| (*o).to_owned()).collect();
        let absent: Vec<String> = absent.iter().map(|o| (*o).to_owned()).collect();
        let refuse_allow = Rc::new(Cell::new(false));
        let refuse = refuse_allow.clone();
        let world = World::new(move |w| {
            w.store_filtered = Box::new(|r| Ok(copied_to(&r.name)));
            w.sealed = Box::new(move |o| sealed.contains(&o.to_owned()));
            w.valid_paths = Box::new(move |p| !absent.contains(&p.to_owned()));
            w.allow_paths = Box::new(move |_| {
                if refuse.get() {
                    Err(StoreError::Failed("allow refused".to_owned()))
                } else {
                    Ok(())
                }
            });
        });
        Sealing { world, refuse_allow }
    }

    fn copied(&self) -> usize {
        self.world.count("store_filtered")
    }

    fn asked_sealed(&self) -> usize {
        self.world.count("sealed_paths")
    }

    fn allowed(&self) -> Vec<String> {
        self.world.0.allowed.borrow().concat()
    }
}

fn fresh_memo(store_dir: &str) -> CopyMemo {
    CopyMemo::new(DirCopies::open(DirRecords::new()), Some(store_dir.to_owned()))
}

fn no_sealed() -> DirSealed {
    DirSealed::open(DirRecords::new())
}

fn filtered_copy(root: Rc<PathValue>, files: &[&str]) -> FilteredCopy {
    let accepted = files
        .iter()
        .map(|file| AcceptedPath {
            path: format!("{}/{file}", root.path),
            file_type: FileType::Regular,
        })
        .collect();
    FilteredCopy {
        root,
        name: "src".to_owned(),
        method: PathMethod::NixArchive,
        accepted: Some(accepted),
        expected_sha256: None,
        inherit_references: false,
    }
}

fn copy(
    recorder: &mut RecordingHost<World>,
    sealed: &mut DirSealed,
    request: &FilteredCopy,
) -> Result<String, StoreError> {
    let question = Question::StoreFiltered(Box::new(request.clone()));
    let key = match &recorder.copy_memo {
        Some(memo) => hashed(&memo.key_of(&question)),
        None => mixed("no memo", &[]),
    };
    recorder.store_filtered(request, &key, sealed)
}

/// Copies once over the memo, and hands the memo back.
fn copy_over(
    memo: CopyMemo,
    sealed: &mut DirSealed,
    world: &Sealing,
    request: &FilteredCopy,
) -> CopyMemo {
    let mut recorder = RecordingHost::new(world.world.clone()).with_copy_memo(memo);
    assert_eq!(copy(&mut recorder, sealed, request).expect("copied"), copied_to("src"));
    recorder.copy_memo.take().expect("the memo")
}

#[test]
fn a_filtered_copy_under_a_sealed_object_walks_once_and_is_then_served() {
    let mut sealed = no_sealed();
    let root = ambient_path(&format!("/nix/store/{OBJECT}/src"));
    let request = filtered_copy(Rc::clone(&root), &["a.nix", "b.nix"]);

    let sealing = Sealing::of(&[OBJECT]);
    let mut recorder =
        RecordingHost::new(sealing.world.clone()).with_copy_memo(fresh_memo("/nix/store"));
    assert_eq!(copy(&mut recorder, &mut sealed, &request).expect("copied"), copied_to("src"));
    assert_eq!(
        (sealing.copied(), sealing.asked_sealed()),
        (1, 1),
        "the first ask walks"
    );
    assert!(
        sealing.allowed().is_empty(),
        "a walked copy is allowed by the embedder's own hook, not the memo"
    );
    assert_eq!(copy(&mut recorder, &mut sealed, &request).expect("copied"), copied_to("src"));
    assert_eq!(
        (sealing.copied(), sealing.asked_sealed()),
        (1, 1),
        "the repeat is served"
    );
    assert_eq!(
        sealing.allowed(),
        vec![copied_to("src")],
        "and the served copy is allowed, as the walk would have left it (reads under it follow)"
    );
    let rows = recorder.take();
    assert_eq!(
        rows.len(),
        1,
        "the served ask recorded the same row as the walked one, which the recorder dedupes to one"
    );
    assert_eq!(
        rows.entries()[0].1,
        Recorded::Answer(copied_to("src")),
        "a filtered copy's row keeps its answer, served or walked"
    );

    let later = Sealing::of(&[OBJECT]);
    let memo = recorder.copy_memo.take().expect("the memo");
    let mut recorder = RecordingHost::new(later.world.clone()).with_copy_memo(memo);
    assert_eq!(copy(&mut recorder, &mut sealed, &request).expect("copied"), copied_to("src"));
    assert_eq!(
        (later.copied(), later.asked_sealed()),
        (0, 0),
        "a fresh recorder over the same cache is served without a walk or a sealing question"
    );
    let other = filtered_copy(root, &["a.nix"]);
    assert_eq!(copy(&mut recorder, &mut sealed, &other).expect("copied"), copied_to("src"));
    assert_eq!(later.copied(), 1, "another accepted set is another question");
}

#[test]
fn a_filtered_copy_the_host_will_not_allow_is_walked() {
    let mut sealed = no_sealed();
    let request = filtered_copy(Rc::new(mounted(&format!("{MOUNT}/src"))), &["a.nix"]);
    let first = Sealing::of(&[]);
    let memo = copy_over(fresh_memo("/nix/store"), &mut sealed, &first, &request);
    assert_eq!(first.copied(), 1, "the first ask walks and is remembered");

    let refusing = Sealing::of(&[]);
    refusing.refuse_allow.set(true);
    copy_over(memo, &mut sealed, &refusing, &request);
    assert_eq!(
        refusing.copied(),
        1,
        "the remembered copy could not be allowed, so it walked"
    );
    assert!(refusing.allowed().is_empty());
}

#[test]
fn a_filtered_copy_under_a_mounted_root_is_served_without_a_sealing_question() {
    let mut sealed = no_sealed();
    let request = filtered_copy(Rc::new(mounted(&format!("{MOUNT}/src"))), &["a.nix"]);
    let sealing = Sealing::of(&[]);
    let mut recorder =
        RecordingHost::new(sealing.world.clone()).with_copy_memo(fresh_memo("/nix/store"));
    assert_eq!(copy(&mut recorder, &mut sealed, &request).expect("copied"), copied_to("src"));
    assert_eq!(copy(&mut recorder, &mut sealed, &request).expect("copied"), copied_to("src"));
    assert_eq!((sealing.copied(), sealing.asked_sealed()), (1, 0));
}

#[test]
fn a_filtered_copy_under_a_mutable_root_always_walks() {
    let mut sealed = no_sealed();
    let unsealed = Sealing::of(&[]);
    let mut recorder =
        RecordingHost::new(unsealed.world.clone()).with_copy_memo(fresh_memo("/nix/store"));
    let in_object = filtered_copy(ambient_path(&format!("/nix/store/{OBJECT}/src")), &["a.nix"]);
    assert_eq!(copy(&mut recorder, &mut sealed, &in_object).expect("copied"), copied_to("src"));
    assert_eq!(copy(&mut recorder, &mut sealed, &in_object).expect("copied"), copied_to("src"));
    assert_eq!(
        (unsealed.copied(), unsealed.asked_sealed()),
        (2, 1),
        "an unsealed object walks every time and is asked about once per handle"
    );

    let outside = filtered_copy(ambient_path("/home/someone/src"), &["a.nix"]);
    assert_eq!(copy(&mut recorder, &mut sealed, &outside).expect("copied"), copied_to("src"));
    assert_eq!(copy(&mut recorder, &mut sealed, &outside).expect("copied"), copied_to("src"));
    assert_eq!(
        (unsealed.copied(), unsealed.asked_sealed()),
        (4, 1),
        "outside the store: no sealing question, every ask walks"
    );

    let sealed_now = Sealing::of(&[OBJECT]);
    let memo = recorder.copy_memo.take().expect("the memo");
    copy_over(memo, &mut sealed, &sealed_now, &in_object);
    assert_eq!(
        sealed_now.copied(),
        1,
        "nothing was remembered while the object was unsealed"
    );
    assert_eq!(
        sealed_now.asked_sealed(),
        0,
        "declined for the handle: not asked again"
    );
}

#[test]
fn a_remembered_copy_the_store_lost_is_walked_again_and_remembered_again() {
    let mut sealed = no_sealed();
    let request = filtered_copy(ambient_path(&format!("/nix/store/{OBJECT}/src")), &["a.nix"]);
    let first = Sealing::of(&[OBJECT]);
    let memo = copy_over(fresh_memo("/nix/store"), &mut sealed, &first, &request);
    assert_eq!(first.copied(), 1);

    let lost_path = copied_to("src");
    let lost = Sealing::lacking(&[OBJECT], &[lost_path.as_str()]);
    let memo = copy_over(memo, &mut sealed, &lost, &request);
    assert_eq!(
        lost.copied(),
        1,
        "the store does not hold the remembered path: walked"
    );

    let held = Sealing::of(&[OBJECT]);
    copy_over(memo, &mut sealed, &held, &request);
    assert_eq!(held.copied(), 0, "the walk rewrote the entry");
}

#[test]
fn a_copy_entry_that_fails_its_digest_or_shape_is_no_entry() {
    let key = mixed("k", &[]);
    let mut copies = DirCopies::open(DirRecords::new());
    assert_eq!(copies.get(&key), None);
    copies.insert(&key, "/nix/store/x-src");
    assert_eq!(copies.get(&key), Some("/nix/store/x-src".to_owned()));

    let body = "/nix/store/x-src\n";
    let body_hash = taken(&records::body_digest(body));
    let text = records::record_text(&body_hash, body);
    let (line, read) = records::record_parts(&text).expect("a digest line");
    assert_eq!((line.as_str(), read.as_str()), (body_hash.to_hex().as_str(), body));
    copies.records.load(&key.to_hex(), Some((line.clone(), read, body_hash)));
    assert_eq!(copies.get(&key), Some("/nix/store/x-src".to_owned()));

    let other = "/nix/store/y-src\n";
    copies.records.load(
        &key.to_hex(),
        Some((line, other.to_owned(), taken(&records::body_digest(other)))),
    );
    assert_eq!(
        copies.get(&key),
        None,
        "a body that does not match its digest is no entry"
    );
    copies.records.insert(&key.to_hex(), "/nix/store/x-src\n/nix/store/y-src\n");
    assert_eq!(copies.get(&key), None, "two paths are no answer");
    copies.records.insert(&key.to_hex(), "");
    assert_eq!(copies.get(&key), None, "an empty body is no answer");
}

#[test]
fn the_store_filtered_trace_line_names_its_route_and_every_cost_field() {
    let root = ambient_path(&format!("/nix/store/{OBJECT}/src"));
    let request = filtered_copy(root, &["a.nix"]);
    let line = store_filtered_trace(
        "walk",
        &request,
        &CopyCost::default(),
        7,
        9,
        &Ok(copied_to("src")),
    );
    assert!(
        line.starts_with(&format!(
            "ixe question: StoreFiltered served=walk root=/nix/store/{OBJECT}/src "
        )),
        "{line}"
    );
    for field in [
        "accepted=1",
        "method=NixArchive",
        "immutable_ns=0",
        "key_ns=0",
        "get_ns=0",
        "valid_ns=0",
        "allow_ns=0",
        "record_ns=7",
        "total_ns=9",
    ] {
        assert!(line.contains(field), "{line} lacks {field}");
    }
    assert!(line.ends_with(&format!("-> {}", copied_to("src"))), "{line}");
    let failed = store_filtered_trace(
        "nomemo",
        &request,
        &CopyCost::default(),
        0,
        0,
        &Err(StoreError::NoStore),
    );
    assert!(
        failed.contains("served=nomemo") && failed.ends_with("-> error"),
        "{failed}"
    );
}

#[test]
fn the_copy_memo_key_carries_the_store_directory() {
    let mut sealed = no_sealed();
    let request = filtered_copy(Rc::new(mounted(&format!("{MOUNT}/src"))), &["a.nix"]);
    let here = Sealing::of(&[]);
    let mut memo = copy_over(fresh_memo("/nix/store"), &mut sealed, &here, &request);
    let elsewhere = Sealing::of(&[]);
    memo.store_dir = Some("/other/store".to_owned());
    copy_over(memo, &mut sealed, &elsewhere, &request);
    assert_eq!(
        (here.copied(), elsewhere.copied()),
        (1, 1),
        "each store directory walks its own copy"
    );
    let question = Question::StoreFiltered(Box::new(request));
    assert_ne!(
        copy_key(&question, &Some("/nix/store".to_owned())),
        copy_key(&question, &None)
    );
}

#[test]
fn pruning_the_copy_memo_keeps_the_most_recently_used_entries() {
    let now = 4 * STALE_TEMPORARY;
    let listed = |name: &str, modified: u64| Listed { name: name.to_owned(), modified };
    let listing = vec![
        listed("0", now),
        listed("1", 1001),
        listed("2", 1002),
        listed("3", 1003),
        listed("4", 1004),
        listed(".tmp-9-9", now),
        listed(".tmp-8-8", 1000),
    ];
    let mut gone = records::prune_to(&listing, now, 2);
    gone.sort();
    assert_eq!(
        gone,
        vec![".tmp-8-8".to_owned(), "1".to_owned(), "2".to_owned(), "3".to_owned()],
        "the touched entry, the newest and a temporary with a live writer survive"
    );
    assert!(records::prune_to(&listing, 1000, 5).is_empty());
}

/// The names of a directory's records, as they stand after a prune to `keep`.
fn pruned(names: &[String], keep: usize) -> Vec<String> {
    let listing: Vec<Listed> = names
        .iter()
        .zip(1000..)
        .map(|(name, modified)| Listed { name: name.clone(), modified })
        .collect();
    let gone = records::prune_to(&listing, 2000, keep);
    names.iter().filter(|name| !gone.contains(name)).cloned().collect()
}

#[test]
fn the_copy_memo_prunes_on_open_and_on_its_own_insert_cadence() {
    let key = |i: u64| mixed("key", &[i.to_le_bytes().to_vec()]);

    let ten: Vec<String> = (0..10).map(|i| key(i).to_hex()).collect();
    let left = pruned(&ten, 4);
    assert_eq!(left.len(), 4, "opening over the cap prunes to it");
    assert_eq!(left, ten[6..], "and the most recently used stay");
    assert_eq!(pruned(&ten, usize::MAX).len(), 10);

    let mut a = DirCopies::open_keeping(DirRecords::new(), 3);
    let mut b = DirCopies::open_keeping(DirRecords::new(), 3);
    let mut in_a: Vec<String> = Vec::new();
    let mut in_b: Vec<String> = Vec::new();
    let insert = |copies: &mut DirCopies, files: &mut Vec<String>, i: u64, path: &str| {
        copies.insert(&key(i), path);
        files.push(key(i).to_hex());
        if copies.take_due() {
            *files = pruned(files, copies.keep);
        }
    };
    for i in 0..COPY_MEMO_PRUNE_EVERY {
        insert(&mut a, &mut in_a, i, "/nix/store/a-src");
        if i % 2 == 0 {
            insert(&mut b, &mut in_b, i, "/nix/store/b-src");
        }
    }
    assert_eq!(in_a.len(), 3, "the 64th insert through a pruned a to its cap");
    assert_eq!(in_b.len(), 32, "b has had 32 inserts and no prune yet");
    for i in COPY_MEMO_PRUNE_EVERY..(COPY_MEMO_PRUNE_EVERY + 32) {
        insert(&mut b, &mut in_b, i, "/nix/store/b-src");
    }
    assert_eq!(in_b.len(), 3, "b's own 64th insert pruned b");
    assert_eq!((a.keep, COPY_MEMO_PRUNE_EVERY, COPY_MEMO_KEEP), (3, 64, 8192));
}

#[test]
fn a_sealed_record_without_its_digest_is_no_record() {
    let mut memo = DirSealed::open(DirRecords::new());
    memo.records.load(OBJECT, None);
    assert_eq!(memo.get(OBJECT), None, "an empty entry is no record");
    memo.insert(OBJECT, &vec!["result".to_owned()]);
    assert_eq!(memo.get(OBJECT), Some(vec!["result".to_owned()]));
    let body = "result\n";
    let line = taken(&records::body_digest(body)).to_hex();
    let tampered = format!("{body}other\n");
    let now = taken(&records::body_digest(&tampered));
    memo.records.load(OBJECT, Some((line, tampered, now)));
    assert_eq!(
        memo.get(OBJECT),
        None,
        "a body that does not match its digest is no record"
    );
    memo.decline(OBJECT);
    assert!(memo.declined(OBJECT));
    memo.insert(OBJECT, &Vec::new());
    assert!(!memo.declined(OBJECT));
    assert_eq!(memo.get(OBJECT), Some(Vec::new()));
}

#[test]
fn the_recorder_forwards_every_effect_to_the_host_behind_it() {
    let inner = World::new(|w| {
        w.read_file = Box::new(|_| Ok("text".to_owned()));
        w.path_exists = Box::new(|_| Ok(true));
        w.get_env = Box::new(|_| Some("v".to_owned()));
        w.copy_to_store = Box::new(|_| Ok("/nix/store/xyz".to_owned()));
        w.ensure_path = Box::new(|_| Ok(()));
        w.store_text = Box::new(|_| Ok("/nix/store/text".to_owned()));
        w.write_derivation = Box::new(|_| Ok("/nix/store/a.drv".to_owned()));
        w.store_filtered = Box::new(|_| Ok("/nix/store/filtered".to_owned()));
        w.fetch = Box::new(|_| Ok("/nix/store/fetched".to_owned()));
        w.fetch_tree = Box::new(|_| Ok("{}".to_owned()));
    });
    let mut host = RecordingHost::new(inner.clone());
    drop(host.read_file(&ambient_path("/f")));
    drop(host.read_dir(&ambient_path("/d")));
    let _ = host.path_exists_checked(&ambient_path("/e"));
    drop(host.file_type(&ambient_path("/t")));
    drop(host.get_env("V"));
    drop(host.copy_to_store(&ambient_path("/c")));
    assert_eq!(host.ensure_path("/p"), Ok(()));
    drop(host.store_text("t", "bytes", &Vec::new()));
    drop(host.write_derivation("a", "Derive([])", &object(b"Derive([])")));
    drop(copy(
        &mut host,
        &mut no_sealed(),
        &FilteredCopy {
            root: ambient_path("/s"),
            name: "s".to_owned(),
            method: PathMethod::NixArchive,
            accepted: None,
            expected_sha256: None,
            inherit_references: false,
        },
    ));
    drop(host.fetch(&FetchRequest {
        url: "https://u/x".to_owned(),
        name: "x".to_owned(),
        kind: FetchKind::File,
        expected_sha256: None,
    }));
    drop(host.fetch_tree(&FetchTreeRequest {
        attrs: TextMap::new(),
        fetcher: TreeFetcher::Tree,
    }));
    host.warn("a warning cppnix would print");
    host.trace("a trace line builtins.trace would print");

    assert_eq!(
        inner.log(),
        vec![
            "read_file /f",
            "read_dir /d",
            "path_exists /e",
            "file_type /t",
            "get_env V",
            "copy_to_store /c",
            "ensure_path /p",
            "store_text t",
            "write_derivation a",
            "store_filtered /s",
            "fetch https://u/x",
            "fetch_tree fetchTree",
            "warn a warning cppnix would print",
            "trace a trace line builtins.trace would print",
        ],
        "an effect did not reach the host behind the recorder"
    );
    assert_eq!(host.take().len(), 12);
    assert_eq!(
        host.take_emissions(),
        vec![
            Emission::Warn("a warning cppnix would print".to_owned()),
            Emission::Trace("a trace line builtins.trace would print".to_owned()),
        ]
    );
}

#[test]
fn a_quiet_recorder_keeps_what_is_said_to_itself_until_it_is_replayed() {
    let inner = World::new(|_| {});
    let mut host = RecordingHost::quiet(inner.clone());
    host.warn("careful");
    host.trace("tracing");
    assert!(inner.log().is_empty());
    for emission in host.take_emissions() {
        emission.replay(&inner);
    }
    assert_eq!(inner.log(), vec!["warn careful", "trace tracing"]);
    assert!(host.take_emissions().is_empty());
}

#[test]
fn the_recorder_logs_every_kind_of_question_in_order() {
    let mut host = RecordingHost::new(fake());
    drop(host.read_file(&ambient_path("/a")));
    let _ = host.path_exists_checked(&ambient_path("/a"));
    drop(host.get_env("SET"));
    let read_set = host.take();
    assert_eq!(read_set.len(), 3);
    assert_eq!(
        read_set.questions(),
        vec![
            Question::ReadFile(ambient_path("/a")),
            Question::PathExists(ambient_path("/a")),
            Question::GetEnv("SET".to_owned()),
        ]
    );
    assert!(host.take().is_empty());
}

#[test]
fn a_row_is_logged_once_and_the_repeats_are_counted() {
    let contents = Rc::new(Cell::new(1));
    let mut host = RecordingHost::new(fake_at(contents.clone()));
    for _ in 0..3 {
        drop(host.read_file(&ambient_path("/a")));
    }
    contents.set(2);
    drop(host.read_file(&ambient_path("/a")));
    let set = host.take();
    assert_eq!((set.len(), set.rows_deduped), (2, 2));
    drop(host.read_file(&ambient_path("/a")));
    assert_eq!(host.take().len(), 1, "a log that was taken starts anew");
}

#[test]
fn a_derivation_that_is_written_again_is_kept_once() {
    let world = World::new(|w| w.write_derivation = Box::new(|n| Ok(format!("/nix/store/{n}.drv"))));
    let mut host = RecordingHost::new(world);
    let id = object(b"Derive([])");
    drop(host.write_derivation("a", "Derive([])", &id));
    drop(host.write_derivation("b", "Derive([])", &id));
    let set = host.take();
    assert_eq!(set.aterms, vec![(id, b"Derive([])".to_vec())]);
    assert_eq!((set.aterms_reused, set.len()), (1, 2));
}

const DRV: &str = "/nix/store/00000000000000000000000000000000-a.drv";
const OUT: &str = "/nix/store/00000000000000000000000000000000-a";
const SRC: &str = "/nix/store/00000000000000000000000000000000-src";

struct Building {
    world: World,
    held: Rc<RefCell<Vec<String>>>,
    allow_fails: Rc<Cell<bool>>,
}

impl Building {
    fn holding(held: &[&str]) -> Building {
        let held: Rc<RefCell<Vec<String>>> =
            Rc::new(RefCell::new(held.iter().map(|p| (*p).to_owned()).collect()));
        let allow_fails = Rc::new(Cell::new(false));
        let (seen, fails) = (held.clone(), allow_fails.clone());
        let world = World::new(move |w| {
            w.write_derivation = Box::new(|name| {
                if name == "fail" {
                    return Err(StoreError::Failed("refused".to_owned()));
                }
                Ok(format!("/nix/store/00000000000000000000000000000000-{name}.drv"))
            });
            w.realise = Box::new(|_| Ok(TextMap::new()));
            w.valid_paths = Box::new(move |p| seen.borrow().contains(&p.to_owned()));
            w.allow_closures = Box::new(move |_| {
                if fails.get() {
                    Err(StoreError::Failed("cannot allow".to_owned()))
                } else {
                    Ok(())
                }
            });
        });
        Building { world, held, allow_fails }
    }

    fn recorder(&self, ca: bool, ifd: bool) -> RecordingHost<World> {
        let mut placeholders = TextMap::new();
        placeholders.insert(built(DRV, "out").display(), "/placeholder".to_owned());
        RecordingHost::new(self.world.clone()).realising_by_validity(ca, ifd, placeholders)
    }

    fn realised(&self) -> usize {
        self.world.count("realise")
    }

    fn allowed(&self) -> Vec<Vec<String>> {
        self.world.0.allowed.borrow().clone()
    }
}

fn built(drv: &str, output: &str) -> ContextElem {
    ContextElem::Built { drv: drv.to_owned(), output: output.to_owned() }
}

fn write(recorder: &mut RecordingHost<World>, name: &str, aterm: &str) -> Result<String, StoreError> {
    recorder.write_derivation(name, aterm, &object(aterm.as_bytes()))
}

#[test]
fn a_live_realisation_of_a_held_derivation_this_evaluation_wrote_is_not_built() {
    let aterm = format!(r#"Derive([("out","{OUT}","","")],[],[],"x86_64-linux","/bin/sh",[],[])"#);
    let context = vec![built(DRV, "out"), ContextElem::Opaque(SRC.to_owned())];
    let empty: TextMap<String> = TextMap::new();

    let blocked_store = Building::holding(&[DRV, OUT, SRC]);
    let mut blocked = blocked_store.recorder(false, false);
    assert_eq!(write(&mut blocked, "a", &aterm).expect("written"), DRV);
    assert!(blocked.begin(&Slow::Realise(context.clone())).is_none());
    assert_eq!(
        blocked_store.world.count("begin"),
        1,
        "disabled IFD reaches the host policy check"
    );
    assert_eq!(blocked.realise(&context).expect("host answer"), empty);
    assert_eq!(
        blocked_store.realised(),
        1,
        "held outputs cannot bypass host policy"
    );
    assert!(blocked_store.allowed().is_empty());
    let opaque = vec![ContextElem::Opaque(SRC.to_owned())];
    assert_eq!(blocked.realise(&opaque).expect("opaque path"), empty);
    assert_eq!(
        blocked_store.realised(),
        1,
        "ordinary paths keep the validity fast path"
    );

    let store = Building::holding(&[DRV, OUT, SRC]);
    let mut recorder = store.recorder(false, true);
    assert_eq!(write(&mut recorder, "a", &aterm).expect("written"), DRV);
    assert!(
        recorder.begin(&Slow::Realise(context.clone())).is_none(),
        "nothing to build: not begun"
    );
    assert_eq!(
        store.world.count("begin"),
        0,
        "the host behind it is not asked to begin it either"
    );
    assert!(store.allowed().is_empty(), "declining to begin allows nothing");
    assert_eq!(recorder.realise(&context).expect("realised"), empty);
    assert_eq!(store.realised(), 0, "nothing is built");
    assert_eq!(
        store.allowed(),
        vec![vec![OUT.to_owned()]],
        "the built output is allowed once, as a realisation would allow it"
    );
    let served = recorder.take();
    let mut control = RecordingHost::new(store.world.clone());
    assert_eq!(write(&mut control, "a", &aterm).expect("written"), DRV);
    assert_eq!(control.realise(&context).expect("realised"), empty);
    assert_eq!(store.realised(), 1, "the control asks");
    assert_eq!(
        served.entries()[1],
        control.take().entries()[1],
        "the served row is the asked route's row with nothing to build"
    );
    store.world.forget();

    let other = "/nix/store/11111111111111111111111111111111-b.drv";
    store.held.borrow_mut().push(other.to_owned());
    let mut recorder = store.recorder(false, true);
    let unwritten = vec![built(other, "out")];
    assert_eq!(recorder.realise(&unwritten).expect("realised"), empty);
    assert_eq!(
        store.realised(),
        1,
        "a derivation not written here is asked about"
    );

    let mut recorder = store.recorder(false, true);
    assert_eq!(write(&mut recorder, "a", &aterm).expect("written"), DRV);
    assert_eq!(recorder.realise(&context).expect("realised"), empty);
    assert_eq!(store.realised(), 1);
    assert!(recorder.begin(&Slow::Realise(context.clone())).is_none());
    store.world.0.allowed.borrow_mut().clear();
    store.held.borrow_mut().retain(|path| path != OUT);
    assert_eq!(recorder.realise(&context).expect("realised"), empty);
    assert_eq!(store.realised(), 2, "an output the store lost is asked for");
    assert!(
        store.allowed().is_empty(),
        "nothing was allowed for the answer the store withdrew"
    );
    store.held.borrow_mut().push(OUT.to_owned());

    let mut recorder = store.recorder(true, true);
    assert_eq!(write(&mut recorder, "a", &aterm).expect("written"), DRV);
    let mut expected = TextMap::new();
    expected.insert("/placeholder".to_owned(), OUT.to_owned());
    assert_eq!(recorder.realise(&context).expect("realised"), expected);
    assert_eq!(store.realised(), 2);

    let mut recorder = store.recorder(false, true);
    let unwritten_drv = "/nix/store/00000000000000000000000000000000-fail.drv";
    assert!(write(&mut recorder, "fail", &aterm).is_err());
    store.held.borrow_mut().push(unwritten_drv.to_owned());
    let of_failed_write = vec![built(unwritten_drv, "out")];
    assert_eq!(recorder.realise(&of_failed_write).expect("realised"), empty);
    assert_eq!(store.realised(), 3, "a failed write leaves nothing to stand on");
    assert_eq!(write(&mut recorder, "a", &aterm).expect("written"), DRV);
    let no_such_output = vec![built(DRV, "dev")];
    assert_eq!(recorder.realise(&no_such_output).expect("realised"), empty);
    assert_eq!(store.realised(), 4, "an output the derivation lacks asks");
    let floating = r#"Derive([("out","","","")],[],[],"x86_64-linux","/bin/sh",[],[])"#;
    let floating_drv = write(&mut recorder, "f", floating).expect("written");
    store.held.borrow_mut().push(floating_drv.clone());
    let of_floating = vec![built(&floating_drv, "out")];
    assert_eq!(recorder.realise(&of_floating).expect("realised"), empty);
    assert_eq!(
        store.realised(),
        5,
        "a floating output has no path to stand on"
    );
    store.world.0.allowed.borrow_mut().clear();
    store.allow_fails.set(true);
    assert_eq!(recorder.realise(&context).expect("realised"), empty);
    assert_eq!(
        store.realised(),
        6,
        "outputs the host cannot allow are asked for"
    );
    store.allow_fails.set(false);
    let plain = vec![
        ContextElem::Opaque(SRC.to_owned()),
        ContextElem::DrvDeep(DRV.to_owned()),
    ];
    assert_eq!(recorder.realise(&plain).expect("realised"), empty);
    assert_eq!(
        store.realised(),
        6,
        "held opaque and deep elements have nothing to build"
    );
    assert!(
        store.allowed().is_empty(),
        "no built output, nothing to allow"
    );

    let mut recorder = RecordingHost::new(store.world.clone());
    assert_eq!(write(&mut recorder, "a", &aterm).expect("written"), DRV);
    assert_eq!(recorder.realise(&context).expect("realised"), empty);
    assert_eq!(store.realised(), 7);
}

fn fetching(asynchronous: bool) -> World {
    let answered: Rc<RefCell<BTreeMap<u64, String>>> = Rc::new(RefCell::new(BTreeMap::new()));
    let minted = answered.clone();
    let fetched = |request: &FetchRequest| {
        format!("/nix/store/0000000000000000000000000000000a-{}", request.name)
    };
    World::new(move |w| {
        w.fetch = Box::new(move |r| Ok(fetched(r)));
        w.begin = Box::new(move |question| {
            if !asynchronous {
                return None;
            }
            let Slow::Fetch(request) = question else {
                return None;
            };
            let ticket = minted.borrow().len() as u64 + 1;
            minted.borrow_mut().insert(ticket, fetched(request));
            Some(Ticket(ticket))
        });
        w.collect = Box::new(move |ticket| {
            let answer = answered.borrow_mut().remove(&ticket.0)?;
            Some(SlowAnswer::Store(Ok(answer)))
        });
    })
}

fn request() -> FetchRequest {
    FetchRequest {
        url: "http://example.invalid/x".to_owned(),
        name: "x".to_owned(),
        kind: FetchKind::File,
        expected_sha256: None,
    }
}

#[test]
fn a_begun_question_records_as_the_blocking_one() {
    let mut recorder = RecordingHost::new(fetching(false));
    let _ = recorder.fetch(&request());
    let by_blocking = recorder.take();

    let mut recorder = RecordingHost::new(fetching(true));
    let ticket = recorder
        .begin(&Slow::Fetch(request()))
        .expect("the host declined to begin a fetch");
    let _ = recorder
        .collect(ticket, true)
        .expect("the host did not answer a ticket it minted");
    let by_beginning = recorder.take();
    assert_eq!(by_blocking, by_beginning, "the two routes recorded differently");
}

#[test]
fn beginning_a_question_records_nothing_on_its_own() {
    let mut recorder = RecordingHost::new(fetching(true));
    let _ = recorder
        .begin(&Slow::Fetch(request()))
        .expect("the host declined to begin a fetch");
    let so_far = recorder.take();
    assert!(
        so_far.questions().is_empty(),
        "a begun question was already recorded: {so_far:?}"
    );
}

#[test]
fn a_declined_object_is_not_asked_about_again_by_a_replay() {
    let mut sealed = no_sealed();
    let in_object = filtered_copy(ambient_path(&format!("/nix/store/{OBJECT}/src")), &["a.nix"]);
    let unsealed = Sealing::of(&[]);
    copy_over(fresh_memo("/nix/store"), &mut sealed, &unsealed, &in_object);
    assert_eq!(unsealed.asked_sealed(), 1);
    assert!(sealed.declined(OBJECT));

    let rows = vec![(
        Question::ReadFile(ambient_path(&format!("/nix/store/{OBJECT}/src/a.nix"))),
        Recorded::Digest(Digest::Known(mixed("a", &[]))),
    )];
    let mut memo = Some(sealed);
    let known = readset::replay::sealed_objects(
        &rows,
        &unsealed.world,
        &Some("/nix/store".to_owned()),
        &mut memo,
    );
    assert!(known.is_empty());
    assert_eq!(unsealed.asked_sealed(), 1, "one handle serves the copies and the replays");
}

#[test]
fn a_sealed_record_that_cannot_be_written_leaves_the_decline() {
    let mut memo = no_sealed();
    memo.decline(OBJECT);
    memo.insert(OBJECT, &vec!["result".to_owned()]);
    assert!(!memo.declined(OBJECT));
    memo.unwritten(OBJECT, None);
    assert!(memo.declined(OBJECT), "the write failed: declined as before");
    assert_eq!(memo.get(OBJECT), None);

    memo.insert(OBJECT, &vec!["result".to_owned()]);
    let body = "result\n";
    let digest = taken(&records::body_digest(body));
    memo.written(OBJECT, Some((digest.to_hex(), body.to_owned(), digest)));
    assert!(!memo.declined(OBJECT), "a record that was written ends the decline");
    assert_eq!(memo.get(OBJECT), Some(vec!["result".to_owned()]));
    memo.unwritten(OBJECT, None);
    assert!(!memo.declined(OBJECT), "for good");
}

#[test]
fn a_copy_that_cannot_be_written_is_not_counted() {
    let key = mixed("k", &[]);
    let mut copies = DirCopies::open_keeping(DirRecords::new(), 3);
    for i in 1..COPY_MEMO_PRUNE_EVERY {
        copies.insert(&mixed("key", &[i.to_le_bytes().to_vec()]), "/nix/store/a-src");
    }
    copies.insert(&key, "/nix/store/x-src");
    assert!(copies.due);
    copies.unwritten(&key, None);
    assert_eq!(copies.get(&key), None);
    assert_eq!((copies.inserts, copies.due), (COPY_MEMO_PRUNE_EVERY - 1, false));
    copies.insert(&key, "/nix/store/x-src");
    assert!(copies.take_due());
}

#[test]
fn a_miss_that_is_remembered_counts_and_keeps_the_limit() {
    let mut sealed = no_sealed();
    let request = filtered_copy(Rc::new(mounted(&format!("{MOUNT}/src"))), &["a.nix"]);
    let world = Sealing::of(&[]);
    let memo = copy_over(fresh_memo("/nix/store"), &mut sealed, &world, &request);
    assert_eq!((memo.copies.inserts, memo.copies.keep, memo.copies.due), (1, 8192, false));
    let memo = copy_over(memo, &mut sealed, &world, &request);
    assert_eq!(memo.copies.inserts, 1, "a served copy is not counted");
}

#[test]
fn a_quiet_recorder_starts_empty() {
    let world = Sealing::of(&[]);
    let mut quiet = RecordingHost::quiet(world.world.clone());
    assert!(!quiet.forward_emissions && quiet.copy_memo.is_none());
    assert_eq!((quiet.rows_deduped, quiet.aterms_reused), (0, 0));
    assert!(quiet.begun.is_empty() && quiet.written.is_empty() && quiet.aterms.is_empty());
    assert!(quiet.take().is_empty() && quiet.take_emissions().is_empty());
}

#[test]
fn a_look_tells_a_copy_that_may_have_changed_from_one_to_make_and_one_made() {
    let mut sealed = no_sealed();
    let mut memo = fresh_memo("/nix/store");
    let world = Sealing::of(&[OBJECT]);
    let asked = |root: &str| {
        Question::StoreFiltered(Box::new(filtered_copy(ambient_path(root), &["a.nix"])))
    };
    let inside = asked(&format!("/nix/store/{OBJECT}/src"));
    let outside = asked("/home/someone/src");
    let key = hashed(&memo.key_of(&inside));
    let other = Question::GetEnv("V".to_owned());
    assert_eq!(memo.look(&other, &key, &world.world, &mut sealed), CopyLookup::Mutable);
    assert_eq!(memo.look(&outside, &key, &world.world, &mut sealed), CopyLookup::Mutable);
    assert_eq!(memo.look(&inside, &key, &world.world, &mut sealed), CopyLookup::Miss(key));
    memo.remember(&key, &copied_to("src"));
    assert_eq!(
        memo.look(&inside, &key, &world.world, &mut sealed),
        CopyLookup::Served(copied_to("src"))
    );
}

#[test]
fn derivations_are_kept_in_the_order_of_their_names() {
    let name = |first: u8, last: u8| {
        let mut bytes = [7; 32];
        bytes[0] = first;
        bytes[31] = last;
        ObjId { hash: readset::digest::Hash::from_bytes(bytes) }
    };
    let world = World::new(|w| {
        w.write_derivation = Box::new(|_| Ok("/nix/store/a.drv".to_owned()));
    });
    let mut recorder = RecordingHost::new(world);
    for (id, text) in [(name(200, 0), "d"), (name(3, 9), "c"), (name(3, 1), "b"), (name(0, 255), "a")] {
        recorder.write_derivation("n", text, &id).expect("written");
    }
    recorder.write_derivation("n", "c", &name(3, 9)).expect("written again");
    let set = recorder.take();
    assert_eq!(
        set.aterms,
        vec![
            (name(0, 255), b"a".to_vec()),
            (name(3, 1), b"b".to_vec()),
            (name(3, 9), b"c".to_vec()),
            (name(200, 0), b"d".to_vec()),
        ]
    );
    assert_eq!(set.aterms_reused, 1);

    let cache = ResultCache::new();
    let folded = Folded { rows: Vec::new(), rows_folded: 0 };
    let identity = EvalId { key: mixed("identity", &[]) };
    let (_, action) = cache.record(&identity, &set, folded, &EvalResult::default());
    let RecordAction::CheckAterm(first, _) = action else {
        panic!("the texts come first")
    };
    assert_eq!(first, name(0, 255), "the least name is checked first");
}
