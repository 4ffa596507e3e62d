#![allow(dead_code, unused_imports)]

use readset::cache::{
    Held, Lookup, LookupAction, LookupEvent, ObjectRead, ResultCache, RowRead,
};
use readset::codec::CanonValue;
use readset::copies::CopyMemo;
use readset::digest;
use readset::digest::{Digest, ObjId, Part, Preimage, WriteDrvAnswer};
use readset::host::{
    DrvSource, FileType, FlakeCall, Host, ImportedSource, Links, LookupError, Sealed, Slow,
    SlowAnswer, StoreError, StorePathResult, Ticket,
};
use readset::ordered::{TextMap, TextSet};
use readset::purity::{verdict, PathReads, Verdict};
use readset::question::{Question, Recorded, WitnessRow};
use readset::readset::{EvalId, Folded, ReadSet};
use readset::recorder::{Emission, RecordingHost};
use readset::recording::{RecordAction, RecordEvent};
use readset::records::{DirCopies, DirRecords, DirSealed};
use readset::replay::{ReplayFailure, Settings};
use readset::result::EvalResult;
use readset::task::{
    AcceptedPath, FetchKind, FetchRequest, FetchTreeRequest, FilteredCopy, PathMethod,
    SearchPathEntry, TreeAttr, TreeFetcher,
};
use readset::validity::{Fetched, Given};
use readset::value::{ambient_path, ContextElem, PathValue, Root};
use readset::witness;
use readset::cache::{eval_domain, request_value};
use readset::readset::question_argument_digest;
use std::cell::{Cell, RefCell};
use std::collections::BTreeMap;
use std::rc::Rc;

/// A hash that tells apart whatever the tests tell apart.
fn mixed(tag: &str, fields: &[Vec<u8>]) -> digest::Hash {
    let mut out = [0u8; 32];
    for lane in 0..4u64 {
        let mut h: u64 = 0xcbf2_9ce4_8422_2325 ^ (lane.wrapping_mul(0x9e37_79b9_7f4a_7c15));
        let mut eat = |bytes: &[u8]| {
            for b in (bytes.len() as u64).to_le_bytes().iter().chain(bytes) {
                h = (h ^ u64::from(*b)).wrapping_mul(0x0000_0100_0000_01b3);
                h ^= h >> 29;
            }
        };
        eat(tag.as_bytes());
        for field in fields {
            eat(field);
        }
        out[lane as usize * 8..lane as usize * 8 + 8].copy_from_slice(&h.to_le_bytes());
    }
    digest::Hash::from_bytes(out)
}

fn taken(d: &Digest) -> digest::Hash {
    match d {
        Digest::Known(h) => *h,
        Digest::Read(fields) => mixed(digest::READ_TAG, fields),
    }
}

fn hashed(p: &Preimage) -> digest::Hash {
    let fields: Vec<Vec<u8>> = p
        .parts
        .iter()
        .map(|part| match part {
            Part::Bytes(b) => b.clone(),
            Part::Digest(d) => taken(d).to_vec(),
        })
        .collect();
    mixed(&p.tag, &fields)
}

fn object(bytes: &[u8]) -> ObjId {
    ObjId { hash: mixed("object", &[bytes.to_vec()]) }
}

fn id(module: &[u8]) -> EvalId {
    let none = mixed("none", &[]);
    EvalId {
        key: hashed(&EvalId::of(&mixed("m", &[module.to_vec()]), "evaluator", &none, &none, &none)),
    }
}

fn told(parts: &[&str]) -> Digest {
    Digest::Read(parts.iter().map(|p| p.as_bytes().to_vec()).collect())
}

/// What a world answers; each answer can be replaced.
struct Answers {
    import_source: Box<dyn Fn(&PathValue) -> Result<ImportedSource, String>>,
    read_file: Box<dyn Fn(&PathValue) -> Result<String, String>>,
    read_dir: Box<dyn Fn(&PathValue) -> Result<Vec<(String, FileType)>, String>>,
    path_exists: Box<dyn Fn(&PathValue) -> Result<bool, String>>,
    dir_exists: Box<dyn Fn(&PathValue) -> Result<bool, String>>,
    file_type: Box<dyn Fn(&PathValue) -> Result<Option<FileType>, String>>,
    get_env: Box<dyn Fn(&str) -> Option<String>>,
    copy_to_store: Box<dyn Fn(&PathValue) -> Result<String, StoreError>>,
    store_text: Box<dyn Fn(&str) -> Result<String, StoreError>>,
    write_derivation: Box<dyn Fn(&str) -> Result<String, StoreError>>,
    realise: Box<dyn Fn(&Vec<ContextElem>) -> Result<TextMap<String>, StoreError>>,
    ensure_path: Box<dyn Fn(&str) -> Result<(), StoreError>>,
    store_filtered: Box<dyn Fn(&FilteredCopy) -> Result<String, StoreError>>,
    fetch: Box<dyn Fn(&FetchRequest) -> Result<String, StoreError>>,
    fetch_tree: Box<dyn Fn(&FetchTreeRequest) -> Result<String, StoreError>>,
    valid_paths: Box<dyn Fn(&str) -> bool>,
    sealed: Box<dyn Fn(&str) -> bool>,
    allow_paths: Box<dyn Fn(&Vec<String>) -> Result<(), StoreError>>,
    allow_closures: Box<dyn Fn(&Vec<String>) -> Result<(), StoreError>>,
    begin: Box<dyn Fn(&Slow) -> Option<Ticket>>,
    collect: Box<dyn Fn(Ticket) -> Option<SlowAnswer>>,
}

struct Told {
    answers: Answers,
    log: RefCell<Vec<String>>,
    asked: RefCell<Vec<Vec<String>>>,
    allowed: RefCell<Vec<Vec<String>>>,
}

/// A host whose answers a test chooses, and which notes what it is asked.
#[derive(Clone)]
struct World(Rc<Told>);

impl World {
    fn new(change: impl FnOnce(&mut Answers)) -> World {
        let mut answers = Answers {
            import_source: Box::new(|_| Err("not asked".to_owned())),
            read_file: Box::new(|_| Err("no".to_owned())),
            read_dir: Box::new(|_| Ok(Vec::new())),
            path_exists: Box::new(|_| Ok(false)),
            dir_exists: Box::new(|_| Ok(false)),
            file_type: Box::new(|_| Ok(Some(FileType::Regular))),
            get_env: Box::new(|_| None),
            copy_to_store: Box::new(|_| Err(StoreError::NoStore)),
            store_text: Box::new(|_| Err(StoreError::NoStore)),
            write_derivation: Box::new(|_| Err(StoreError::NoStore)),
            realise: Box::new(|_| Err(StoreError::NoStore)),
            ensure_path: Box::new(|_| Err(StoreError::NoStore)),
            store_filtered: Box::new(|_| Err(StoreError::NoStore)),
            fetch: Box::new(|_| Err(StoreError::NoStore)),
            fetch_tree: Box::new(|_| Err(StoreError::NoStore)),
            valid_paths: Box::new(|_| false),
            sealed: Box::new(|_| false),
            allow_paths: Box::new(|_| Ok(())),
            allow_closures: Box::new(|_| Ok(())),
            begin: Box::new(|_| None),
            collect: Box::new(|_| None),
        };
        change(&mut answers);
        World(Rc::new(Told {
            answers,
            log: RefCell::new(Vec::new()),
            asked: RefCell::new(Vec::new()),
            allowed: RefCell::new(Vec::new()),
        }))
    }

    fn note(&self, what: String) {
        self.0.log.borrow_mut().push(what);
    }

    fn log(&self) -> Vec<String> {
        self.0.log.borrow().clone()
    }

    fn count(&self, method: &str) -> usize {
        self.log().iter().filter(|l| l.split(' ').next() == Some(method)).count()
    }

    fn forget(&self) {
        self.0.log.borrow_mut().clear();
        self.0.asked.borrow_mut().clear();
        self.0.allowed.borrow_mut().clear();
    }
}

impl Host for World {
    fn import_source(&self, path: &PathValue) -> Result<ImportedSource, String> {
        self.note(format!("import_source {}", path.path));
        (self.0.answers.import_source)(path)
    }
    fn read_file(&self, path: &PathValue) -> Result<String, String> {
        self.note(format!("read_file {}", path.path));
        (self.0.answers.read_file)(path)
    }
    fn read_file_bytes(&self, path: &PathValue) -> Result<Vec<u8>, String> {
        self.note(format!("read_file_bytes {}", path.path));
        (self.0.answers.read_file)(path).map(String::into_bytes)
    }
    fn read_dir(&self, path: &PathValue) -> Result<Vec<(String, FileType)>, String> {
        self.note(format!("read_dir {}", path.path));
        (self.0.answers.read_dir)(path)
    }
    fn path_exists_checked(&self, path: &PathValue) -> Result<bool, String> {
        self.note(format!("path_exists {}", path.path));
        (self.0.answers.path_exists)(path)
    }
    fn dir_exists_checked(&self, path: &PathValue) -> Result<bool, String> {
        self.note(format!("dir_exists {}", path.path));
        (self.0.answers.dir_exists)(path)
    }
    fn file_type(&self, path: &PathValue) -> Result<Option<FileType>, String> {
        self.note(format!("file_type {}", path.path));
        (self.0.answers.file_type)(path)
    }
    fn file_type_resolved(&self, path: &PathValue) -> Result<FileType, String> {
        self.note(format!("file_type_resolved {}", path.path));
        Err("no".to_owned())
    }
    fn get_env(&self, name: &str) -> Option<String> {
        self.note(format!("get_env {name}"));
        (self.0.answers.get_env)(name)
    }
    fn copy_to_store(&self, path: &PathValue) -> Result<String, StoreError> {
        self.note(format!("copy_to_store {}", path.path));
        (self.0.answers.copy_to_store)(path)
    }
    fn store_path(&self, path: &PathValue) -> Result<StorePathResult, StoreError> {
        self.note(format!("store_path {}", path.path));
        Err(StoreError::NoStore)
    }
    fn find_file(&self, _: &Vec<SearchPathEntry>, name: &str) -> Result<PathValue, LookupError> {
        self.note(format!("find_file {name}"));
        Err(LookupError::NoResolver)
    }
    fn nix_path(&self) -> Result<Vec<SearchPathEntry>, LookupError> {
        self.note("nix_path".to_owned());
        Err(LookupError::NoResolver)
    }
    fn store_text(&self, name: &str, _: &str, _: &Vec<String>) -> Result<String, StoreError> {
        self.note(format!("store_text {name}"));
        (self.0.answers.store_text)(name)
    }
    fn write_derivation(&self, name: &str, _: &str) -> Result<String, StoreError> {
        self.note(format!("write_derivation {name}"));
        (self.0.answers.write_derivation)(name)
    }
    fn realise(&self, context: &Vec<ContextElem>) -> Result<TextMap<String>, StoreError> {
        self.note("realise".to_owned());
        (self.0.answers.realise)(context)
    }
    fn ensure_path(&self, path: &str) -> Result<(), StoreError> {
        self.note(format!("ensure_path {path}"));
        (self.0.answers.ensure_path)(path)
    }
    fn store_filtered(&self, request: &FilteredCopy) -> Result<String, StoreError> {
        self.note(format!("store_filtered {}", request.root.path));
        (self.0.answers.store_filtered)(request)
    }
    fn fetch(&self, request: &FetchRequest) -> Result<String, StoreError> {
        self.note(format!("fetch {}", request.url));
        (self.0.answers.fetch)(request)
    }
    fn fetch_tree(&self, request: &FetchTreeRequest) -> Result<String, StoreError> {
        self.note(format!("fetch_tree {}", request.fetcher.as_str()));
        (self.0.answers.fetch_tree)(request)
    }
    fn lock_flake(&self, flake_ref: &str) -> Result<FlakeCall, StoreError> {
        self.note(format!("lock_flake {flake_ref}"));
        Err(StoreError::NoStore)
    }
    fn parse_flake_ref(&self, flake_ref: &str) -> Result<String, StoreError> {
        self.note(format!("parse_flake_ref {flake_ref}"));
        Err(StoreError::NoStore)
    }
    fn flake_ref_to_string(&self, _: &TextMap<TreeAttr>) -> Result<String, StoreError> {
        self.note("flake_ref_to_string".to_owned());
        Err(StoreError::NoStore)
    }
    fn valid_paths(&self, paths: &Vec<String>) -> Result<TextSet, StoreError> {
        self.note("valid_paths".to_owned());
        self.0.asked.borrow_mut().push(paths.clone());
        let mut held = TextSet::new();
        for path in paths {
            if (self.0.answers.valid_paths)(path) {
                held.insert(path.clone());
            }
        }
        Ok(held)
    }
    fn sealed_paths(&self, objects: &Vec<String>) -> Result<Links, StoreError> {
        self.note("sealed_paths".to_owned());
        let mut links = Links::new();
        for object in objects {
            if (self.0.answers.sealed)(object) {
                links.insert(object.clone(), Vec::new());
            }
        }
        Ok(links)
    }
    fn allow_paths(&self, paths: &Vec<String>) -> Result<(), StoreError> {
        self.note("allow_paths".to_owned());
        let answer = (self.0.answers.allow_paths)(paths);
        if answer.is_ok() {
            self.0.allowed.borrow_mut().push(paths.clone());
        }
        answer
    }
    fn allow_closures(&self, outputs: &Vec<String>) -> Result<(), StoreError> {
        self.note("allow_closures".to_owned());
        let answer = (self.0.answers.allow_closures)(outputs);
        if answer.is_ok() {
            self.0.allowed.borrow_mut().push(outputs.clone());
        }
        answer
    }
    fn settle(&self) -> Result<(), StoreError> {
        Ok(())
    }
    fn warn(&self, message: &str) {
        self.note(format!("warn {message}"));
    }
    fn trace(&self, message: &str) {
        self.note(format!("trace {message}"));
    }
    fn begin(&self, question: &Slow) -> Option<Ticket> {
        self.note("begin".to_owned());
        (self.0.answers.begin)(question)
    }
    fn collect(&self, ticket: Ticket, _: bool) -> Option<SlowAnswer> {
        self.note("collect".to_owned());
        (self.0.answers.collect)(ticket)
    }
}

/// A world with a file `/a`, whose contents are a version, and a variable `SET`.
fn fake_at(version: Rc<Cell<u8>>) -> World {
    World::new(move |w| {
        w.read_file = Box::new(move |p| match p.path.as_str() {
            "/a" => Ok(format!("v{}", version.get())),
            other => Err(format!("path '{other}' does not exist")),
        });
        w.read_dir = Box::new(|_| Ok(vec![("x".to_owned(), FileType::Regular)]));
        w.path_exists = Box::new(|p| Ok(p.path == "/a"));
        w.get_env = Box::new(|name| match name {
            "SET" => Some("yes".to_owned()),
            _ => None,
        });
    })
}

fn fake() -> World {
    fake_at(Rc::new(Cell::new(1)))
}

const MOUNT: &str = "/nix/store/aaaaaaaaaaaaaaaaaaaaaaaaaaaaaaaa-src";
const OBJECT: &str = "00000000000000000000000000000000-source";

fn mounted(spelling: &str) -> PathValue {
    PathValue::new(Root::mounted(MOUNT), spelling)
}

fn in_store() -> Settings {
    Settings { store_dir: Some("/nix/store".to_owned()), ..Settings::default() }
}

fn nothing_given() -> Given {
    Given { objects: Vec::new(), placeholders: TextMap::new() }
}

fn rows_of(questions: Vec<Question>) -> Vec<WitnessRow> {
    questions
        .into_iter()
        .map(|q| (q, Recorded::Digest(told(&["test-row-never-recorded"]))))
        .collect()
}

fn replayed_rows(rows: &Vec<WitnessRow>, host: &World) -> ReadSet {
    match ReadSet::replay(rows, host, &Settings::default(), &nothing_given()) {
        Ok(Some(set)) => set,
        Ok(None) => unreachable!("replay refused; a purity setting is on in this test"),
        Err(error) => unreachable!("replay failed: {error:?}"),
    }
}

fn replayed(questions: Vec<Question>, host: &World) -> ReadSet {
    replayed_rows(&rows_of(questions), host)
}

fn questions(rows: &Vec<WitnessRow>) -> Vec<&Question> {
    rows.iter().map(|(question, _)| question).collect()
}

fn result(value: &str) -> EvalResult {
    EvalResult {
        status: "ok".to_owned(),
        value: value.to_owned(),
        emissions: Vec::new(),
        token: None,
        pos: None,
    }
}

fn one_of_each() -> Vec<Question> {
    let path = |spelling: &str| Rc::new(PathValue::ambient(spelling));
    let mut tree = TextMap::new();
    tree.insert("type".to_owned(), TreeAttr::Str("git".to_owned()));
    tree.insert("url".to_owned(), TreeAttr::Str("/argument/repo".to_owned()));
    tree.insert("shallow".to_owned(), TreeAttr::Bool(true));
    tree.insert("revCount".to_owned(), TreeAttr::Int(7));
    let mut flake = TextMap::new();
    flake.insert("type".to_owned(), TreeAttr::Str("github".to_owned()));
    flake.insert("shallow".to_owned(), TreeAttr::Bool(false));
    flake.insert("revCount".to_owned(), TreeAttr::Int(11));
    let pin = "sha256-1BdlSaqjNlSVCcgD/PocqAwbnGQ+lyfL6h9WK6+MCJc=".to_owned();
    vec![
        Question::ReadFile(path("/argument/read-file")),
        Question::ReadDir(path("/argument/read-dir")),
        Question::PathExists(path("/argument/path-exists")),
        Question::FileType(path("/argument/file-type")),
        Question::GetEnv("ARGUMENT_GET_ENV".to_owned()),
        Question::CopyToStore(path("/argument/copy-to-store")),
        Question::FindFile {
            entries: vec![
                SearchPathEntry {
                    prefix: "nixpkgs".to_owned(),
                    path: "/argument/nixpkgs".to_owned(),
                },
                SearchPathEntry {
                    prefix: String::new(),
                    path: "/argument/fallback".to_owned(),
                },
            ],
            name: "nixpkgs".to_owned(),
        },
        Question::NixPath,
        Question::EnsurePath("/argument/ensure-path".to_owned()),
        Question::StoreText {
            name: "argument-store-text".to_owned(),
            contents: "argument contents".to_owned(),
            references: vec![
                "/argument/store-text-ref-a".to_owned(),
                "/argument/store-text-ref-b".to_owned(),
            ],
        },
        Question::StoreFiltered(Box::new(FilteredCopy {
            root: path("/argument/store-filtered"),
            name: "argument-name".to_owned(),
            method: PathMethod::Flat,
            accepted: Some(vec![
                AcceptedPath {
                    path: "/argument/store-filtered/a".to_owned(),
                    file_type: FileType::Regular,
                },
                AcceptedPath {
                    path: "/argument/store-filtered/d".to_owned(),
                    file_type: FileType::Directory,
                },
            ]),
            expected_sha256: Some(pin.clone()),
            inherit_references: true,
        })),
        Question::Fetch(Box::new(FetchRequest {
            url: "https://argument.example/fetch.tar.gz".to_owned(),
            name: "argument-fetch-name".to_owned(),
            kind: FetchKind::Tarball,
            expected_sha256: Some(pin),
        })),
        Question::FetchTree(Box::new(FetchTreeRequest { attrs: tree, fetcher: TreeFetcher::Git })),
        Question::FileTypeResolved(path("/argument/file-type-resolved")),
        Question::LockFlake("path:/argument/flake".to_owned()),
        Question::Realise(vec![
            ContextElem::Opaque("/argument/realise-opaque".to_owned()),
            ContextElem::DrvDeep("/argument/realise-deep.drv".to_owned()),
            ContextElem::Built {
                drv: "/argument/realise-built.drv".to_owned(),
                output: "dev".to_owned(),
            },
        ]),
        Question::ReadFileBytes(path("/argument/read-file-bytes")),
        Question::ParseFlakeRef("github:argument/parse-flake-ref".to_owned()),
        Question::FlakeRefToString(flake),
        Question::Import(path("/argument/import")),
        Question::StorePath(path("/argument/store-path")),
        Question::DirExists(path("/argument/dir-exists")),
        Question::WriteDrv {
            name: "argument-write-drv".to_owned(),
            answer: WriteDrvAnswer::Written("/nix/store/argument-write-drv.drv".to_owned()),
            aterm: object(b"Derive([])"),
        },
        Question::Tree(path("/argument/tree")),
    ]
}

#[test]
fn streamed_replay_matches_materialized_keys_for_every_question() {
    let identity = id(b"streamed-question-census");
    let given = nothing_given();
    let mut answered = 0;
    let mut failed = 0;
    for question in one_of_each() {
        let rows = rows_of(vec![question]);
        let settings = Settings::default();
        let materialized = ReadSet::replay(&rows, &fake(), &settings, &given)
            .map(|set| set.map(|set| set.key(&identity)));
        let streamed = ReadSet::replay_key_with(&rows, &fake(), &settings, &given, &mut None, &identity);
        match (materialized, streamed) {
            (Ok(expected), Ok(actual)) => {
                assert_eq!(actual, expected);
                answered += 1;
            }
            (Err(expected), Err(actual)) => {
                assert_eq!(actual, expected);
                failed += 1;
            }
            (expected, actual) => panic!("replay differs: {expected:?} vs {actual:?}"),
        }
        let pure = Settings { pure_eval: true, ..settings };
        let expected = ReadSet::replay(&rows, &fake(), &pure, &given)
            .map(|set| set.map(|set| set.key(&identity)));
        let actual = ReadSet::replay_key_with(&rows, &fake(), &pure, &given, &mut None, &identity);
        assert_eq!(format!("{actual:?}"), format!("{expected:?}"));
    }
    assert_eq!(answered + failed, 24);
    assert!(answered > 20, "the census must exercise successful hashing");
    assert!(failed > 0, "missing ATerm failures must be exercised");
}

#[test]
fn streamed_replay_hashes_changed_answers_and_recovers_the_original_key() {
    let identity = id(b"streamed-world-edit");
    let settings = Settings::default();
    let questions = vec![
        Question::ReadFile(ambient_path("/a")),
        Question::GetEnv("SET".to_owned()),
    ];
    let recorded = replayed(questions, &fake());
    let original = recorded.key(&identity);
    for version in [1, 2, 1] {
        let materialized_host = fake_at(Rc::new(Cell::new(version)));
        let streamed_host = fake_at(Rc::new(Cell::new(version)));
        let materialized =
            ReadSet::replay(recorded.entries(), &materialized_host, &settings, &nothing_given())
                .expect("replay")
                .expect("allowed")
                .key(&identity);
        let streamed = ReadSet::replay_key_with(
            recorded.entries(),
            &streamed_host,
            &settings,
            &nothing_given(),
            &mut None,
            &identity,
        )
        .expect("replay")
        .expect("allowed");
        assert_eq!(streamed, materialized);
        assert_eq!(streamed == original, version == 1);
    }
}

#[test]
fn reads_under_a_mounted_root_fold_into_one_tree_row() {
    let inner = fake();
    let mut recorder = RecordingHost::new(inner.clone());
    drop(recorder.read_dir(&mounted(MOUNT)));
    drop(recorder.read_file(&mounted(&format!("{MOUNT}/a.nix"))));
    drop(recorder.read_file(&ambient_path("/a")));
    drop(recorder.path_exists_checked(&mounted(&format!("{MOUNT}/b"))));
    let unfolded = recorder.take();
    assert_eq!(unfolded.len(), 4);

    let settings = Settings::default();
    let folded = unfolded.fold_trees(&inner, &settings, &mut None);
    assert_eq!(
        questions(&folded.rows),
        [
            &Question::Tree(Rc::new(mounted(MOUNT))),
            &Question::ReadFile(ambient_path("/a")),
        ],
        "one tree row where the first mounted read was; the ambient read kept"
    );
    assert_eq!(folded.rows_folded, 2, "three mounted rows became one");
    assert_eq!(folded.rows[0].1, Recorded::Digest(digest::digest_tree(true)));
    let again = ReadSet::of_rows(folded.rows.clone()).fold_trees(&inner, &settings, &mut None);
    assert_eq!(
        again,
        Folded { rows: folded.rows.clone(), rows_folded: 0 },
        "folding is idempotent"
    );

    let replay = replayed_rows(&folded.rows, &inner);
    let key = ReadSet::key_of(&folded.rows, &id(b"m"));
    assert_eq!(replay.key(&id(b"m")), key, "the tree row takes its record");
    assert_ne!(key, unfolded.key(&id(b"m")));
}

fn sealing(sealed: &'static [&'static str], absent: Vec<String>) -> World {
    World::new(move |w| {
        w.read_file = Box::new(|p| Ok(format!("contents of {}", p.path)));
        w.read_dir = Box::new(|_| Ok(vec![("a".to_owned(), FileType::Regular)]));
        w.path_exists = Box::new(|_| Ok(true));
        w.dir_exists = Box::new(|_| Ok(true));
        w.sealed = Box::new(move |o| sealed.contains(&o));
        w.valid_paths = Box::new(move |p| !absent.contains(&p.to_owned()));
    })
}

#[test]
fn reads_under_a_sealed_object_fold_and_replay_while_it_stays_sealed() {
    let settings = in_store();
    let world = sealing(&[OBJECT], Vec::new());
    let mut recorder = RecordingHost::new(world.clone());
    drop(recorder.read_file(&ambient_path(&format!("/nix/store/{OBJECT}/default.nix"))));
    drop(recorder.read_dir(&ambient_path(&format!("/nix/store/{OBJECT}/lib"))));
    drop(recorder.read_file(&ambient_path("/etc/hosts")));
    let unfolded = recorder.take();

    let folded = unfolded.fold_trees(&world, &settings, &mut None);
    assert_eq!(
        questions(&folded.rows),
        [
            &Question::Tree(ambient_path(&format!("/nix/store/{OBJECT}"))),
            &Question::ReadFile(ambient_path("/etc/hosts")),
        ]
    );
    assert_eq!(folded.rows_folded, 1, "two rows under the object became one");
    let key = ReadSet::key_of(&folded.rows, &id(b"m"));

    let replay = ReadSet::replay(&folded.rows, &world, &settings, &nothing_given())
        .expect("replay")
        .expect("not refused");
    assert_eq!(replay.key(&id(b"m")), key, "sealed: the tree row takes its record");
    let streamed = ReadSet::replay_key_with(
        &folded.rows,
        &sealing(&[OBJECT], Vec::new()),
        &settings,
        &nothing_given(),
        &mut None,
        &id(b"m"),
    )
    .expect("streamed replay")
    .expect("allowed");
    assert_eq!(streamed, key, "streaming retains sealed row answers");

    let unsealed = sealing(&[], Vec::new());
    let replay = ReadSet::replay(&folded.rows, &unsealed, &settings, &nothing_given())
        .expect("replay")
        .expect("not refused");
    assert_eq!(
        replay.entries()[0].1,
        Recorded::Digest(digest::digest_tree(false)),
        "unsealed: the tree row is asked and answers the other constant"
    );
    assert_ne!(replay.key(&id(b"m")), key);

    let kept = unfolded.fold_trees(&unsealed, &settings, &mut None);
    assert_eq!(&kept.rows, unfolded.entries(), "nothing folds under an unsealed object");
    assert_eq!(kept.rows_folded, 0);
}

#[test]
fn a_tree_row_gets_the_purity_verdict_of_the_reads_it_stands_for() {
    let path = Rc::new(mounted(&format!("{MOUNT}/a.nix")));
    let tree = Question::Tree(Rc::new(mounted(MOUNT)));
    let reads = [
        Question::Import(path.clone()),
        Question::ReadFile(path.clone()),
        Question::ReadFileBytes(path.clone()),
        Question::ReadDir(path.clone()),
        Question::PathExists(path.clone()),
        Question::DirExists(path.clone()),
        Question::FileType(path.clone()),
        Question::FileTypeResolved(path.clone()),
    ];
    for path_reads in [PathReads::Direct, PathReads::ThroughEmbedder] {
        let settings = Settings { pure_eval: true, path_reads, ..Settings::default() };
        let asks = |question: &Question| {
            matches!(
                verdict(&question.as_need_path(), settings.purity(), settings.path_reads),
                Verdict::Ask
            )
        };
        for read in &reads {
            assert_eq!(
                asks(read),
                asks(&tree),
                "{read:?} and the tree row are judged apart"
            );
        }
    }
}

#[test]
fn answer_digests_keep_the_v1_domain() {
    assert_eq!(digest::READ_TAG, "ixe-read-v1");
    assert_eq!(
        digest::digest_file(&Ok("contents".to_owned())),
        told(&["file-ok", "contents"])
    );
}

#[test]
fn evaluation_keys_use_the_v3_domain() {
    let read_set = ReadSet::of_rows(Vec::new());
    let identity = id(b"module");
    let key = read_set.key(&identity);
    assert_eq!(
        key,
        Preimage {
            tag: "ixe-eval-result-v3".to_owned(),
            parts: vec![Part::Bytes(identity.as_hash().to_vec())],
        }
    );
    assert_ne!(key.tag, "ixe-eval-result-v2");
}

#[test]
fn replay_refuses_to_read_when_access_is_off() {
    let host = World::new(|w| {
        w.read_file = Box::new(|_| Ok("secret".to_owned()));
        w.path_exists = Box::new(|_| Ok(true));
        w.get_env = Box::new(|_| Some("v".to_owned()));
    });
    let questions = || {
        rows_of(vec![
            Question::ReadFile(ambient_path("/etc/shadow")),
            Question::GetEnv("SECRET".to_owned()),
            Question::PathExists(ambient_path("/private")),
        ])
    };

    let pure = Settings { pure_eval: true, ..Settings::default() };
    let refused = ReadSet::replay(&questions(), &host, &pure, &nothing_given());
    let read_with_access_off: Vec<String> =
        host.log().into_iter().filter(|l| !l.starts_with("valid_paths")).collect();

    assert!(
        read_with_access_off.is_empty(),
        "replay reached the world with access off: {read_with_access_off:?}"
    );
    assert!(
        matches!(refused, Ok(None)),
        "replay must refuse rather than return an empty read set, which \
         would key as though the questions had been asked and answered"
    );

    assert!(matches!(
        ReadSet::replay(&questions(), &host, &Settings::default(), &nothing_given()),
        Ok(Some(_))
    ));
    assert_eq!(
        host.log().iter().filter(|l| !l.starts_with("valid_paths")).count(),
        3
    );
}

#[test]
fn replay_reads_again_when_the_embedder_answers() {
    let host = World::new(|w| {
        w.read_file = Box::new(|_| Ok("from the accessor".to_owned()));
        w.path_exists = Box::new(|_| Ok(true));
    });
    let questions = || {
        rows_of(vec![
            Question::ReadFile(ambient_path("/nix/store/aaa-source/flake.nix")),
            Question::PathExists(ambient_path("/nix/store/aaa-source")),
            Question::FileType(ambient_path("/nix/store/aaa-source")),
        ])
    };
    let standalone_settings = Settings {
        pure_eval: true,
        path_reads: PathReads::Direct,
        ..Settings::default()
    };
    let bridged_settings = Settings {
        pure_eval: true,
        path_reads: PathReads::ThroughEmbedder,
        ..Settings::default()
    };

    let standalone = ReadSet::replay(&questions(), &host, &standalone_settings, &nothing_given());
    let bridged = ReadSet::replay(&questions(), &host, &bridged_settings, &nothing_given());
    let asked: Vec<String> =
        host.log().into_iter().filter(|l| !l.starts_with("valid_paths")).collect();

    assert!(
        matches!(standalone, Ok(None)),
        "a direct read set must not replay under pure-eval"
    );
    assert!(
        matches!(bridged, Ok(Some(_))),
        "with the embedder's read hooks installed replay has to ask"
    );
    assert_eq!(asked.len(), 3, "replay asked {asked:?}");
}

#[test]
fn an_empty_witness_still_replays_with_access_off() {
    let nothing = World::new(|_| {});
    let pure = Settings { pure_eval: true, ..Settings::default() };
    let replayed = ReadSet::replay(&Vec::new(), &nothing, &pure, &nothing_given());
    assert!(matches!(replayed, Ok(Some(set)) if set.is_empty()));
}

fn store_holding(held: Vec<String>) -> World {
    World::new(move |w| {
        w.store_filtered = Box::new(|r| {
            Ok(format!("/nix/store/00000000000000000000000000000000-{}", r.name))
        });
        w.realise = Box::new(|_| Ok(TextMap::new()));
        w.write_derivation = Box::new(|name| Ok(format!("/nix/store/{name}.drv")));
        w.valid_paths = Box::new(move |p| held.contains(&p.to_owned()));
    })
}

#[test]
fn a_filtered_copy_under_a_mounted_root_replays_by_validity() {
    let request = |root: Rc<PathValue>, name: &str| FilteredCopy {
        root,
        name: name.to_owned(),
        method: PathMethod::Flat,
        accepted: None,
        expected_sha256: None,
        inherit_references: false,
    };
    let mount = "/nix/store/00000000000000000000000000000000-source";
    let under = Rc::new(PathValue::new(Root::mounted(mount), &format!("{mount}/lib")));
    let ambient = ambient_path("/etc/lib");
    let no_key = mixed("no memo", &[]);
    let mut sealed = DirSealed::open(DirRecords::new());

    let recording = store_holding(Vec::new());
    let mut recorder = RecordingHost::new(recording.clone());
    let mounted_path = recorder
        .store_filtered(&request(under.clone(), "mounted"), &no_key, &mut sealed)
        .expect("copy");
    recorder
        .store_filtered(&request(ambient.clone(), "ambient"), &no_key, &mut sealed)
        .expect("copy");
    let recorded = recorder.take();
    assert_eq!(
        recorded.entries()[0].1,
        Recorded::Answer(mounted_path.clone()),
        "the copy under the mounted root keeps its answer"
    );
    assert!(
        matches!(recorded.entries()[1].1, Recorded::Answer(_)),
        "the copy under the ambient root keeps its answer too; whether its \
         source could have changed is decided at replay"
    );
    let settings = Settings::default();
    let identity = id(b"copies");

    let holding = store_holding(vec![mounted_path.clone()]);
    let observed = ReadSet::replay(recorded.entries(), &holding, &settings, &nothing_given())
        .expect("replay")
        .expect("not refused");
    let copied = |w: &World| -> Vec<String> {
        w.log().into_iter().filter(|l| l.starts_with("store_filtered")).collect()
    };
    assert_eq!(
        copied(&holding),
        vec!["store_filtered /etc/lib".to_owned()],
        "only the copy under the ambient root is made again"
    );
    assert_eq!(
        *holding.0.allowed.borrow(),
        vec![vec![mounted_path.clone()]],
        "the copy served by validity is allowed as the live copy was; the \
         remade copy allows through its own hook"
    );
    assert_eq!(
        observed.key(&identity),
        recorded.key(&identity),
        "a held copy keys exactly as the copy did"
    );

    let lost = store_holding(Vec::new());
    let remade = ReadSet::replay(recorded.entries(), &lost, &settings, &nothing_given())
        .expect("replay")
        .expect("not refused");
    assert_eq!(
        copied(&lost),
        vec![
            format!("store_filtered {mount}/lib"),
            "store_filtered /etc/lib".to_owned()
        ],
        "a copy the store lost is made again"
    );
    assert_eq!(remade.key(&identity), recorded.key(&identity));
}

const DRV: &str = "/nix/store/00000000000000000000000000000000-a.drv";
const OUT: &str = "/nix/store/00000000000000000000000000000000-a";
const SRC: &str = "/nix/store/00000000000000000000000000000000-src";

fn aterm() -> String {
    format!(r#"Derive([("out","{OUT}","","")],[],[],"x86_64-linux","/bin/sh",[],[])"#)
}

fn context() -> Vec<ContextElem> {
    vec![
        ContextElem::Built { drv: DRV.to_owned(), output: "out".to_owned() },
        ContextElem::Opaque(SRC.to_owned()),
    ]
}

fn placeholders() -> TextMap<String> {
    let mut m = TextMap::new();
    m.insert(context()[0].display(), "/placeholder".to_owned());
    m
}

#[test]
fn a_held_realisation_replays_as_nothing_to_build() {
    let name = object(aterm().as_bytes());
    let rows = rows_of(vec![
        Question::WriteDrv {
            name: "a".to_owned(),
            answer: WriteDrvAnswer::Written(DRV.to_owned()),
            aterm: name,
        },
        Question::Realise(context()),
    ]);
    let given = Given {
        objects: vec![(name, Fetched::Found(aterm().into_bytes()))],
        placeholders: placeholders(),
    };
    let all = || vec![DRV.to_owned(), OUT.to_owned(), SRC.to_owned()];
    let settings = Settings::default();

    let disabled = Settings { allow_import_from_derivation: false, ..Settings::default() };
    let blocked = store_holding(all());
    assert!(
        ReadSet::replay(&rows, &blocked, &disabled, &given).expect("replay").is_none(),
        "a preexisting successful Built row cannot bypass disabled IFD"
    );
    assert_eq!(blocked.count("realise"), 0, "rejection precedes host effects");
    assert!(blocked.0.allowed.borrow().is_empty());

    let holding = store_holding(all());
    let observed = ReadSet::replay(&rows, &holding, &settings, &given)
        .expect("replay")
        .expect("not refused");
    assert_eq!(holding.count("realise"), 0, "nothing is built");
    assert_eq!(
        *holding.0.allowed.borrow(),
        vec![vec![OUT.to_owned()]],
        "the built output is allowed as a realisation would allow it"
    );
    assert_eq!(
        observed.entries()[1].1.digest(),
        digest::digest_realise(&Ok(TextMap::new())),
        "the answer is the empty rewrite map, not the recorded digest"
    );

    let ca = Settings { ca_derivations: true, ..Settings::default() };
    let rewriting = store_holding(all());
    let observed = ReadSet::replay(&rows, &rewriting, &ca, &given)
        .expect("replay")
        .expect("not refused");
    assert_eq!(rewriting.count("realise"), 0);
    let mut expected = TextMap::new();
    expected.insert("/placeholder".to_owned(), OUT.to_owned());
    assert_eq!(
        observed.entries()[1].1.digest(),
        digest::digest_realise(&Ok(expected))
    );

    let partial = store_holding(vec![DRV.to_owned(), SRC.to_owned()]);
    drop(ReadSet::replay(&rows, &partial, &settings, &given).expect("replay"));
    assert_eq!(
        partial.count("realise"),
        1,
        "a realisation standing on a path the store lost is re-run"
    );
    assert!(partial.0.allowed.borrow().is_empty());
}

#[test]
fn replay_checks_a_held_derivation_instead_of_rewriting_it() {
    let row = |name: &str, text: &str| Question::WriteDrv {
        name: name.to_owned(),
        answer: WriteDrvAnswer::Written(format!("/nix/store/{name}.drv")),
        aterm: object(text.as_bytes()),
    };
    let rows = || rows_of(vec![row("held", "Derive([held])"), row("gone", "Derive([gone])")]);
    let given = Given {
        objects: vec![
            (object(b"Derive([held])"), Fetched::Found(b"Derive([held])".to_vec())),
            (object(b"Derive([gone])"), Fetched::Found(b"Derive([gone])".to_vec())),
        ],
        placeholders: TextMap::new(),
    };
    let settings = Settings::default();
    let written = |w: &World| -> Vec<String> {
        w.log().into_iter().filter(|l| l.starts_with("write_derivation")).collect()
    };

    let checking = store_holding(vec!["/nix/store/held.drv".to_owned()]);
    let observed = ReadSet::replay(&rows(), &checking, &settings, &given)
        .expect("replay")
        .expect("not refused");
    assert_eq!(
        *checking.0.asked.borrow(),
        vec![
            vec!["/nix/store/gone.drv".to_owned(), "/nix/store/held.drv".to_owned()],
            vec!["/nix/store/gone.drv".to_owned()]
        ],
        "one validity question for the whole witness, its paths sorted, then one at the row of \
         the derivation it did not hold"
    );
    assert_eq!(
        written(&checking),
        vec!["write_derivation gone".to_owned()],
        "only the derivation the store lost is written"
    );
    let streamed_host = store_holding(vec!["/nix/store/held.drv".to_owned()]);
    let streamed = ReadSet::replay_key_with(
        &rows(),
        &streamed_host,
        &settings,
        &given,
        &mut None,
        &id(b"streamed-effects"),
    )
    .expect("streamed replay")
    .expect("allowed");
    assert_eq!(streamed, observed.key(&id(b"streamed-effects")));
    assert_eq!(*streamed_host.0.asked.borrow(), *checking.0.asked.borrow());
    assert_eq!(written(&streamed_host), written(&checking));

    let rewriting = store_holding(Vec::new());
    let rewritten = ReadSet::replay(&rows(), &rewriting, &settings, &given)
        .expect("replay")
        .expect("not refused");
    assert_eq!(
        written(&rewriting),
        vec!["write_derivation held".to_owned(), "write_derivation gone".to_owned()]
    );
    assert_eq!(
        observed, rewritten,
        "a held derivation answers exactly as its write would"
    );
}

#[test]
fn a_derivation_that_cannot_be_replayed_says_why() {
    let rows = || {
        rows_of(vec![Question::WriteDrv {
            name: "x".to_owned(),
            answer: WriteDrvAnswer::Written("/nix/store/x.drv".to_owned()),
            aterm: object(b"text"),
        }])
    };
    let id = object(b"text");
    let given = |f: Fetched| Given { objects: vec![(id, f)], placeholders: TextMap::new() };
    let settings = Settings::default();
    let replay = |w: &World, g: &Given| ReadSet::replay(&rows(), w, &settings, g).err();
    let store = store_holding(Vec::new());
    assert_eq!(replay(&store, &nothing_given()), Some(ReplayFailure::MissingAterm(id)));
    assert_eq!(replay(&store, &given(Fetched::Missing)), Some(ReplayFailure::MissingAterm(id)));
    assert_eq!(replay(&store, &given(Fetched::Corrupt)), Some(ReplayFailure::CorruptAterm(id)));
    assert_eq!(
        replay(&store, &given(Fetched::Failed("io".to_owned()))),
        Some(ReplayFailure::Cas { aterm: id, error: "io".to_owned() })
    );
    assert_eq!(
        replay(&store, &given(Fetched::Found(vec![0xff]))),
        Some(ReplayFailure::InvalidAterm(id))
    );
    let found = || given(Fetched::Found(b"text".to_vec()));
    let elsewhere = World::new(|w| {
        w.write_derivation = Box::new(|_| Ok("/nix/store/other.drv".to_owned()));
    });
    assert_eq!(
        replay(&elsewhere, &found()),
        Some(ReplayFailure::DrvPathMismatch {
            expected: "/nix/store/x.drv".to_owned(),
            written: "/nix/store/other.drv".to_owned(),
        })
    );
    let refusing = World::new(|_| {});
    assert_eq!(
        replay(&refusing, &found()),
        Some(ReplayFailure::WriteDrv {
            drv_path: "/nix/store/x.drv".to_owned(),
            refusal: StoreError::NoStore,
        })
    );
}

#[test]
fn a_store_that_stops_producing_a_path_changes_the_key() {
    let there = Rc::new(Cell::new(true));
    let seen = there.clone();
    let inner = World::new(move |w| {
        w.ensure_path = Box::new(move |_| {
            if seen.get() {
                Ok(())
            } else {
                Err(StoreError::Failed("path is not valid".to_owned()))
            }
        });
    });
    let mut host = RecordingHost::new(inner.clone());
    drop(host.ensure_path("/nix/store/xyz"));
    let recorded = host.take();
    let identity = id(b"ensure");
    there.set(false);
    assert_ne!(
        recorded.key(&identity),
        replayed(recorded.questions(), &inner).key(&identity)
    );
}

#[test]
fn import_replay_reasks_the_callers_original_path() {
    let moved = Rc::new(Cell::new(false));
    let seen = moved.clone();
    let inner = World::new(move |w| {
        w.import_source = Box::new(move |path| {
            let target = if path.path.ends_with("current.nix") && seen.get() {
                "v2.nix"
            } else {
                "v1.nix"
            };
            let mount = "/nix/store/00000000000000000000000000000000-source";
            Ok(ImportedSource::Nix {
                path: PathValue::new(Root::mounted(mount), &format!("{mount}/{target}")),
                text: target.to_owned(),
            })
        });
    });
    let mut recorder = RecordingHost::new(inner.clone());
    let asked = ambient_path("/nix/store/00000000000000000000000000000000-source/current.nix");
    recorder.import_source(&asked).expect("first import");
    let recorded = recorder.take();
    assert_eq!(recorded.questions(), vec![Question::Import(asked)]);

    moved.set(true);
    let identity = id(b"moving import");
    assert_ne!(
        recorded.key(&identity),
        replayed(recorded.questions(), &inner).key(&identity)
    );
}

#[test]
fn a_read_under_a_mounted_root_replays_from_the_record_without_asking() {
    let edited = Rc::new(Cell::new(false));
    let seen = edited.clone();
    let inner = World::new(move |w| {
        w.read_dir = Box::new(move |_| {
            let name = if seen.get() { "after" } else { "before" };
            Ok(vec![(name.to_owned(), FileType::Regular)])
        });
        w.file_type = Box::new(|_| Ok(None));
    });
    let mount = "/nix/store/00000000000000000000000000000000-source";
    let under = Rc::new(PathValue::new(Root::mounted(mount), &format!("{mount}/lib")));
    let ambient = ambient_path("/etc/lib");
    let none = Sealed::new();
    assert!(Question::ReadDir(under.clone()).replays_from_record(&none, &None));
    assert!(!Question::ReadDir(ambient.clone()).replays_from_record(&none, &None));
    assert!(
        !Question::CopyToStore(under.clone()).replays_from_record(&none, &None),
        "an effect under a mounted root still asks, or replays by validity"
    );

    let mut recorder = RecordingHost::new(inner.clone());
    recorder.read_dir(&under).expect("mounted listing");
    recorder.read_dir(&ambient).expect("ambient listing");
    let recorded = recorder.take();
    assert_eq!(recorded.entries().len(), 2);
    let recorded_mounted_digest = recorded.entries()[0].1.digest();
    inner.forget();

    edited.set(true);
    let observed = ReadSet::replay(recorded.entries(), &inner, &Settings::default(), &nothing_given())
        .expect("replay")
        .expect("not refused");
    let listed: Vec<String> = inner.log().into_iter().filter(|l| l.starts_with("read_dir")).collect();
    assert_eq!(
        listed,
        vec!["read_dir /etc/lib".to_owned()],
        "only the ambient listing was asked again"
    );
    assert_eq!(
        observed.entries()[0].1.digest(),
        recorded_mounted_digest,
        "the mounted row keeps its recorded digest"
    );
    assert_ne!(
        observed.entries()[1].1.digest(),
        recorded.entries()[1].1.digest(),
        "the ambient row keys from the answer given now"
    );
    let identity = id(b"mounted-vs-ambient");
    assert_ne!(recorded.key(&identity), observed.key(&identity));
}

#[test]
fn vanished_mount_is_not_replayed_as_the_same_negative_existence_answer() {
    let gone = Rc::new(Cell::new(false));
    let (seen, seen_too) = (gone.clone(), gone.clone());
    let inner = World::new(move |w| {
        w.path_exists = Box::new(move |_| {
            if seen.get() { Err("mounted root disappeared".to_owned()) } else { Ok(false) }
        });
        w.dir_exists = Box::new(move |_| {
            if seen_too.get() { Err("mounted root disappeared".to_owned()) } else { Ok(false) }
        });
    });
    let mut recorder = RecordingHost::new(inner.clone());
    let path = ambient_path("/missing");
    assert_eq!(recorder.path_exists_checked(&path), Ok(false));
    let recorded = recorder.take();
    gone.set(true);
    let identity = id(b"existence");
    assert_ne!(
        recorded.key(&identity),
        replayed(recorded.questions(), &inner).key(&identity)
    );

    gone.set(false);
    let mut recorder = RecordingHost::new(inner.clone());
    let path = ambient_path("/missing/");
    assert_eq!(recorder.dir_exists_checked(&path), Ok(false));
    let recorded = recorder.take();
    assert_eq!(recorded.questions(), vec![Question::DirExists(path)]);
    gone.set(true);
    let identity = id(b"directory-existence");
    assert_ne!(
        recorded.key(&identity),
        replayed(recorded.questions(), &inner).key(&identity)
    );
}

#[test]
fn replaying_an_unchanged_world_reproduces_the_key() {
    let inner = fake();
    let mut host = RecordingHost::new(inner.clone());
    drop(host.read_file(&ambient_path("/a")));
    let recorded = host.take();
    let module = id(b"module");
    assert_eq!(
        recorded.key(&module),
        replayed(recorded.questions(), &inner).key(&module)
    );
}

#[test]
fn a_changed_file_changes_the_key() {
    let contents = Rc::new(Cell::new(1));
    let inner = fake_at(contents.clone());
    let mut host = RecordingHost::new(inner.clone());
    drop(host.read_file(&ambient_path("/a")));
    let recorded = host.take();
    let module = id(b"module");
    contents.set(2);
    assert_ne!(
        recorded.key(&module),
        replayed(recorded.questions(), &inner).key(&module)
    );
}

#[test]
fn a_changed_environment_variable_changes_the_key() {
    let set = Rc::new(Cell::new(true));
    let seen = set.clone();
    let inner = World::new(move |w| {
        w.get_env = Box::new(move |_| if seen.get() { Some("a".to_owned()) } else { None });
    });
    let mut host = RecordingHost::new(inner.clone());
    drop(host.get_env("V"));
    let recorded = host.take();
    let module = id(b"module");
    set.set(false);
    assert_ne!(
        recorded.key(&module),
        replayed(recorded.questions(), &inner).key(&module)
    );
}

#[test]
fn an_unset_variable_does_not_digest_as_an_empty_one() {
    let unset = World::new(|_| {});
    let empty = World::new(|w| w.get_env = Box::new(|_| Some(String::new())));
    let question = Question::GetEnv("V".to_owned());
    assert_ne!(
        question.ask(&unset, &nothing_given()).expect("plain replay"),
        question.ask(&empty, &nothing_given()).expect("plain replay")
    );
}

#[test]
fn a_file_appearing_changes_the_key() {
    let inner = fake();
    let mut host = RecordingHost::new(inner);
    drop(host.read_file(&ambient_path("/missing")));
    let recorded = host.take();
    let module = id(b"module");
    let now_present = World::new(|w| {
        w.read_file = Box::new(|_| Ok("appeared".to_owned()));
        w.path_exists = Box::new(|_| Ok(true));
    });
    assert_ne!(
        recorded.key(&module),
        replayed(recorded.questions(), &now_present).key(&module)
    );
}

#[test]
fn question_order_is_part_of_the_key() {
    let inner = fake();
    let module = id(b"module");

    let mut one = RecordingHost::new(inner.clone());
    drop(one.read_file(&ambient_path("/a")));
    let _ = one.path_exists_checked(&ambient_path("/a"));
    let first = one.take();

    let mut other = RecordingHost::new(inner);
    let _ = other.path_exists_checked(&ambient_path("/a"));
    drop(other.read_file(&ambient_path("/a")));
    let second = other.take();

    assert_ne!(first.key(&module), second.key(&module));
}

#[test]
fn interpolating_a_path_is_a_question_the_read_set_sees() {
    let version = Rc::new(Cell::new(1));
    let seen = version.clone();
    let inner = World::new(move |w| {
        w.copy_to_store = Box::new(move |p| {
            Ok(format!("/nix/store/{}-{}", seen.get(), p.path.trim_start_matches('/')))
        });
    });
    let mut host = RecordingHost::new(inner.clone());
    assert_eq!(
        host.copy_to_store(&ambient_path("/a")),
        Ok("/nix/store/1-a".to_owned())
    );
    let recorded = host.take();
    assert_eq!(
        recorded.questions(),
        vec![Question::CopyToStore(ambient_path("/a"))],
        "the copy did not reach the host, so no read set can see it"
    );
    let module_hash = id(b"module");
    version.set(2);
    assert_ne!(
        recorded.key(&module_hash),
        replayed(recorded.questions(), &inner).key(&module_hash)
    );
}

fn key_of(q: Question) -> Preimage {
    ReadSet::of_rows(vec![(q, Recorded::Digest(told(&["same-answer"])))]).key(&id(b"module"))
}

#[test]
fn two_fetches_of_one_url_do_not_share_a_key() {
    let request = |name: &str, kind: FetchKind, sha: Option<&str>| {
        key_of(Question::Fetch(Box::new(FetchRequest {
            url: "https://u/x.tar.gz".to_owned(),
            name: name.to_owned(),
            kind,
            expected_sha256: sha.map(str::to_owned),
        })))
    };
    let pin = "sha256-1BdlSaqjNlSVCcgD/PocqAwbnGQ+lyfL6h9WK6+MCJc=";
    let base = request("source", FetchKind::Tarball, Some(pin));
    assert_ne!(base, request("other", FetchKind::Tarball, Some(pin)));
    assert_ne!(base, request("source", FetchKind::File, Some(pin)));
    assert_ne!(base, request("source", FetchKind::Tarball, None));
    assert_ne!(
        base,
        request(
            "source",
            FetchKind::Tarball,
            Some("sha256-AAAAAAAAAAAAAAAAAAAAAAAAAAAAAAAAAAAAAAAAAAA=")
        )
    );
}

#[test]
fn two_filtered_copies_of_one_root_do_not_share_a_key() {
    let request = |accepted: Option<Vec<AcceptedPath>>, name: &str| {
        key_of(Question::StoreFiltered(Box::new(FilteredCopy {
            root: ambient_path("/src"),
            name: name.to_owned(),
            method: PathMethod::NixArchive,
            accepted,
            expected_sha256: None,
            inherit_references: false,
        })))
    };
    let entry = |path: &str| AcceptedPath {
        path: path.to_owned(),
        file_type: FileType::Regular,
    };
    let base = request(Some(vec![entry("/src/a")]), "src");
    assert_ne!(base, request(Some(vec![entry("/src/b")]), "src"));
    assert_ne!(base, request(Some(vec![entry("/src/a"), entry("/src/b")]), "src"));
    assert_ne!(
        base,
        request(
            Some(vec![AcceptedPath {
                path: "/src/a".to_owned(),
                file_type: FileType::Symlink,
            }]),
            "src"
        )
    );
    assert_ne!(request(Some(Vec::new()), "src"), request(None, "src"));
    assert_ne!(base, request(Some(vec![entry("/src/a")]), "other"));
}

#[test]
fn an_empty_read_set_keys_on_the_module() {
    let empty = ReadSet::of_rows(Vec::new());
    assert_ne!(empty.key(&id(b"one")), empty.key(&id(b"two")));
}

#[test]
fn only_copies_pinned_fetches_and_locked_final_trees_name_their_object() {
    let fetch = |sha: Option<&str>| {
        Question::Fetch(Box::new(FetchRequest {
            url: "https://u/x.tar.gz".to_owned(),
            name: "x".to_owned(),
            kind: FetchKind::Tarball,
            expected_sha256: sha.map(str::to_owned),
        }))
    };
    let copy = "/nix/store/00000000000000000000000000000000-x";
    assert_eq!(
        fetch(Some("sha256-AAAA")).named_object(copy).as_deref(),
        Some(copy)
    );
    assert_eq!(fetch(None).named_object(copy), None);

    let tree = |fetcher: TreeFetcher, locked: bool| {
        let mut attrs = TextMap::new();
        attrs.insert("type".to_owned(), TreeAttr::Str("github".to_owned()));
        if locked {
            attrs.insert("narHash".to_owned(), TreeAttr::Str("sha256-AAAA".to_owned()));
        }
        Question::FetchTree(Box::new(FetchTreeRequest { attrs, fetcher }))
    };
    let answer = format!("{{\"outPath\":\"{copy}\",\"narHash\":\"sha256-AAAA\"}}");
    assert_eq!(
        tree(TreeFetcher::FinalTree, true).named_object(&answer).as_deref(),
        Some(copy)
    );
    assert_eq!(tree(TreeFetcher::Tree, true).named_object(&answer), None);
    assert_eq!(tree(TreeFetcher::Git, true).named_object(&answer), None);
    assert_eq!(tree(TreeFetcher::FinalTree, false).named_object(&answer), None);
    assert_eq!(
        tree(TreeFetcher::FinalTree, true).named_object("not json"),
        None,
        "an answer with no outPath has no witness and asks"
    );
}

#[test]
fn import_witness_distinguishes_kind_name_and_every_output() {
    let drv = || {
        let mut outputs = TextMap::new();
        outputs.insert("out".to_owned(), "/placeholder".to_owned());
        DrvSource {
            path: "/nix/store/11111111111111111111111111111111-demo.drv".to_owned(),
            name: "demo".to_owned(),
            outputs,
        }
    };
    let import = |d: DrvSource| digest::digest_import(&Ok(ImportedSource::Derivation(d)));
    let before = import(drv());
    let mut changed = drv();
    changed.name = "other".to_owned();
    assert_ne!(before, import(changed));
    let mut changed = drv();
    changed.outputs.insert("out".to_owned(), "/different".to_owned());
    assert_ne!(before, import(changed));
    let mut changed = drv();
    changed.outputs.insert("dev".to_owned(), "/placeholder".to_owned());
    assert_ne!(before, import(changed));
    assert_ne!(
        before,
        digest::digest_import(&Ok(ImportedSource::Nix {
            path: PathValue::ambient(&drv().path),
            text: "demo".to_owned(),
        }))
    );
}

#[test]
fn a_question_is_counted_by_what_it_asks() {
    let counted = |q: &Question| hashed(&question_argument_digest(q));
    let all = one_of_each();
    for (i, a) in all.iter().enumerate() {
        for b in &all[..i] {
            assert_ne!(counted(a), counted(b), "{a:?} and {b:?}");
        }
    }
    let p = question_argument_digest(&Question::GetEnv("SET".to_owned()));
    assert_eq!(p.tag, "ixe-question-argument-v1");
    assert_eq!(p.parts, vec![Part::Bytes(vec![5]), Part::Bytes(b"SET".to_vec())]);
    let mut bytes = [0u8; 32];
    for (i, b) in bytes.iter_mut().enumerate() {
        *b = i as u8;
    }
    let half = digest::Hash::from_bytes(bytes).shortened();
    assert_eq!(half.to_vec(), (0..16).collect::<Vec<u8>>());
}

#[test]
fn results_are_filed_under_their_key_in_one_domain() {
    let domain = eval_domain();
    assert_eq!((domain.effect, domain.yields), ("ix-eval.evaluate", "module-result"));
    let key = mixed("key", &[]);
    assert_eq!(request_value(&key), CanonValue::Bytes(key.to_vec()));
}

#[test]
fn an_empty_context_has_nothing_to_build_for() {
    let placeholders = TextMap::new();
    let nothing = readset::validity::nothing_to_build(
        &Vec::new(),
        &Vec::new(),
        true,
        false,
        &placeholders,
    );
    assert!(nothing.is_none());
}
