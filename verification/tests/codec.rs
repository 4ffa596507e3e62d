#![allow(dead_code, unused_imports)]

use readset::cache::{
    Held, Lookup, LookupAction, LookupEvent, ObjectRead, ResultCache, RowRead,
};
use readset::codec::CanonValue;
use readset::copies::CopyMemo;
use readset::digest;
use readset::digest::{Digest, ObjId, Part, Preimage, WriteDrvAnswer};
use readset::host::{
    DrvSource, FileType, FlakeCall, Host, ImportedSource, Links, LookupError, Sealed, Slow,
    SlowAnswer, StoreError, StorePathResult, Ticket,
};
use readset::ordered::{TextMap, TextSet};
use readset::purity::{verdict, PathReads, Verdict};
use readset::question::{Question, Recorded, WitnessRow};
use readset::readset::{EvalId, Folded, ReadSet};
use readset::recorder::{Emission, RecordingHost};
use readset::recording::{RecordAction, RecordEvent};
use readset::records::{DirCopies, DirRecords, DirSealed};
use readset::replay::{ReplayFailure, Settings};
use readset::result::EvalResult;
use readset::task::{
    AcceptedPath, FetchKind, FetchRequest, FetchTreeRequest, FilteredCopy, PathMethod,
    SearchPathEntry, TreeAttr, TreeFetcher,
};
use readset::validity::{Fetched, Given};
use readset::value::{ambient_path, ContextElem, PathValue, Root};
use readset::witness;
use std::cell::{Cell, RefCell};
use std::collections::BTreeMap;
use std::rc::Rc;

/// A hash that tells apart whatever the tests tell apart.
fn mixed(tag: &str, fields: &[Vec<u8>]) -> digest::Hash {
    let mut out = [0u8; 32];
    for lane in 0..4u64 {
        let mut h: u64 = 0xcbf2_9ce4_8422_2325 ^ (lane.wrapping_mul(0x9e37_79b9_7f4a_7c15));
        let mut eat = |bytes: &[u8]| {
            for b in (bytes.len() as u64).to_le_bytes().iter().chain(bytes) {
                h = (h ^ u64::from(*b)).wrapping_mul(0x0000_0100_0000_01b3);
                h ^= h >> 29;
            }
        };
        eat(tag.as_bytes());
        for field in fields {
            eat(field);
        }
        out[lane as usize * 8..lane as usize * 8 + 8].copy_from_slice(&h.to_le_bytes());
    }
    digest::Hash::from_bytes(out)
}

fn taken(d: &Digest) -> digest::Hash {
    match d {
        Digest::Known(h) => *h,
        Digest::Read(fields) => mixed(digest::READ_TAG, fields),
    }
}

fn hashed(p: &Preimage) -> digest::Hash {
    let fields: Vec<Vec<u8>> = p
        .parts
        .iter()
        .map(|part| match part {
            Part::Bytes(b) => b.clone(),
            Part::Digest(d) => taken(d).to_vec(),
        })
        .collect();
    mixed(&p.tag, &fields)
}

fn object(bytes: &[u8]) -> ObjId {
    ObjId { hash: mixed("object", &[bytes.to_vec()]) }
}

fn id(module: &[u8]) -> EvalId {
    let none = mixed("none", &[]);
    EvalId {
        key: hashed(&EvalId::of(&mixed("m", &[module.to_vec()]), "evaluator", &none, &none, &none)),
    }
}

fn told(parts: &[&str]) -> Digest {
    Digest::Read(parts.iter().map(|p| p.as_bytes().to_vec()).collect())
}

/// What a world answers; each answer can be replaced.
struct Answers {
    import_source: Box<dyn Fn(&PathValue) -> Result<ImportedSource, String>>,
    read_file: Box<dyn Fn(&PathValue) -> Result<String, String>>,
    read_dir: Box<dyn Fn(&PathValue) -> Result<Vec<(String, FileType)>, String>>,
    path_exists: Box<dyn Fn(&PathValue) -> Result<bool, String>>,
    dir_exists: Box<dyn Fn(&PathValue) -> Result<bool, String>>,
    file_type: Box<dyn Fn(&PathValue) -> Result<Option<FileType>, String>>,
    get_env: Box<dyn Fn(&str) -> Option<String>>,
    copy_to_store: Box<dyn Fn(&PathValue) -> Result<String, StoreError>>,
    store_text: Box<dyn Fn(&str) -> Result<String, StoreError>>,
    write_derivation: Box<dyn Fn(&str) -> Result<String, StoreError>>,
    realise: Box<dyn Fn(&Vec<ContextElem>) -> Result<TextMap<String>, StoreError>>,
    ensure_path: Box<dyn Fn(&str) -> Result<(), StoreError>>,
    store_filtered: Box<dyn Fn(&FilteredCopy) -> Result<String, StoreError>>,
    fetch: Box<dyn Fn(&FetchRequest) -> Result<String, StoreError>>,
    fetch_tree: Box<dyn Fn(&FetchTreeRequest) -> Result<String, StoreError>>,
    valid_paths: Box<dyn Fn(&str) -> bool>,
    sealed: Box<dyn Fn(&str) -> bool>,
    allow_paths: Box<dyn Fn(&Vec<String>) -> Result<(), StoreError>>,
    allow_closures: Box<dyn Fn(&Vec<String>) -> Result<(), StoreError>>,
    begin: Box<dyn Fn(&Slow) -> Option<Ticket>>,
    collect: Box<dyn Fn(Ticket) -> Option<SlowAnswer>>,
}

struct Told {
    answers: Answers,
    log: RefCell<Vec<String>>,
    asked: RefCell<Vec<Vec<String>>>,
    allowed: RefCell<Vec<Vec<String>>>,
}

/// A host whose answers a test chooses, and which notes what it is asked.
#[derive(Clone)]
struct World(Rc<Told>);

impl World {
    fn new(change: impl FnOnce(&mut Answers)) -> World {
        let mut answers = Answers {
            import_source: Box::new(|_| Err("not asked".to_owned())),
            read_file: Box::new(|_| Err("no".to_owned())),
            read_dir: Box::new(|_| Ok(Vec::new())),
            path_exists: Box::new(|_| Ok(false)),
            dir_exists: Box::new(|_| Ok(false)),
            file_type: Box::new(|_| Ok(Some(FileType::Regular))),
            get_env: Box::new(|_| None),
            copy_to_store: Box::new(|_| Err(StoreError::NoStore)),
            store_text: Box::new(|_| Err(StoreError::NoStore)),
            write_derivation: Box::new(|_| Err(StoreError::NoStore)),
            realise: Box::new(|_| Err(StoreError::NoStore)),
            ensure_path: Box::new(|_| Err(StoreError::NoStore)),
            store_filtered: Box::new(|_| Err(StoreError::NoStore)),
            fetch: Box::new(|_| Err(StoreError::NoStore)),
            fetch_tree: Box::new(|_| Err(StoreError::NoStore)),
            valid_paths: Box::new(|_| false),
            sealed: Box::new(|_| false),
            allow_paths: Box::new(|_| Ok(())),
            allow_closures: Box::new(|_| Ok(())),
            begin: Box::new(|_| None),
            collect: Box::new(|_| None),
        };
        change(&mut answers);
        World(Rc::new(Told {
            answers,
            log: RefCell::new(Vec::new()),
            asked: RefCell::new(Vec::new()),
            allowed: RefCell::new(Vec::new()),
        }))
    }

    fn note(&self, what: String) {
        self.0.log.borrow_mut().push(what);
    }

    fn log(&self) -> Vec<String> {
        self.0.log.borrow().clone()
    }

    fn count(&self, method: &str) -> usize {
        self.log().iter().filter(|l| l.split(' ').next() == Some(method)).count()
    }

    fn forget(&self) {
        self.0.log.borrow_mut().clear();
        self.0.asked.borrow_mut().clear();
        self.0.allowed.borrow_mut().clear();
    }
}

impl Host for World {
    fn import_source(&self, path: &PathValue) -> Result<ImportedSource, String> {
        self.note(format!("import_source {}", path.path));
        (self.0.answers.import_source)(path)
    }
    fn read_file(&self, path: &PathValue) -> Result<String, String> {
        self.note(format!("read_file {}", path.path));
        (self.0.answers.read_file)(path)
    }
    fn read_file_bytes(&self, path: &PathValue) -> Result<Vec<u8>, String> {
        self.note(format!("read_file_bytes {}", path.path));
        (self.0.answers.read_file)(path).map(String::into_bytes)
    }
    fn read_dir(&self, path: &PathValue) -> Result<Vec<(String, FileType)>, String> {
        self.note(format!("read_dir {}", path.path));
        (self.0.answers.read_dir)(path)
    }
    fn path_exists_checked(&self, path: &PathValue) -> Result<bool, String> {
        self.note(format!("path_exists {}", path.path));
        (self.0.answers.path_exists)(path)
    }
    fn dir_exists_checked(&self, path: &PathValue) -> Result<bool, String> {
        self.note(format!("dir_exists {}", path.path));
        (self.0.answers.dir_exists)(path)
    }
    fn file_type(&self, path: &PathValue) -> Result<Option<FileType>, String> {
        self.note(format!("file_type {}", path.path));
        (self.0.answers.file_type)(path)
    }
    fn file_type_resolved(&self, path: &PathValue) -> Result<FileType, String> {
        self.note(format!("file_type_resolved {}", path.path));
        Err("no".to_owned())
    }
    fn get_env(&self, name: &str) -> Option<String> {
        self.note(format!("get_env {name}"));
        (self.0.answers.get_env)(name)
    }
    fn copy_to_store(&self, path: &PathValue) -> Result<String, StoreError> {
        self.note(format!("copy_to_store {}", path.path));
        (self.0.answers.copy_to_store)(path)
    }
    fn store_path(&self, path: &PathValue) -> Result<StorePathResult, StoreError> {
        self.note(format!("store_path {}", path.path));
        Err(StoreError::NoStore)
    }
    fn find_file(&self, _: &Vec<SearchPathEntry>, name: &str) -> Result<PathValue, LookupError> {
        self.note(format!("find_file {name}"));
        Err(LookupError::NoResolver)
    }
    fn nix_path(&self) -> Result<Vec<SearchPathEntry>, LookupError> {
        self.note("nix_path".to_owned());
        Err(LookupError::NoResolver)
    }
    fn store_text(&self, name: &str, _: &str, _: &Vec<String>) -> Result<String, StoreError> {
        self.note(format!("store_text {name}"));
        (self.0.answers.store_text)(name)
    }
    fn write_derivation(&self, name: &str, _: &str) -> Result<String, StoreError> {
        self.note(format!("write_derivation {name}"));
        (self.0.answers.write_derivation)(name)
    }
    fn realise(&self, context: &Vec<ContextElem>) -> Result<TextMap<String>, StoreError> {
        self.note("realise".to_owned());
        (self.0.answers.realise)(context)
    }
    fn ensure_path(&self, path: &str) -> Result<(), StoreError> {
        self.note(format!("ensure_path {path}"));
        (self.0.answers.ensure_path)(path)
    }
    fn store_filtered(&self, request: &FilteredCopy) -> Result<String, StoreError> {
        self.note(format!("store_filtered {}", request.root.path));
        (self.0.answers.store_filtered)(request)
    }
    fn fetch(&self, request: &FetchRequest) -> Result<String, StoreError> {
        self.note(format!("fetch {}", request.url));
        (self.0.answers.fetch)(request)
    }
    fn fetch_tree(&self, request: &FetchTreeRequest) -> Result<String, StoreError> {
        self.note(format!("fetch_tree {}", request.fetcher.as_str()));
        (self.0.answers.fetch_tree)(request)
    }
    fn lock_flake(&self, flake_ref: &str) -> Result<FlakeCall, StoreError> {
        self.note(format!("lock_flake {flake_ref}"));
        Err(StoreError::NoStore)
    }
    fn parse_flake_ref(&self, flake_ref: &str) -> Result<String, StoreError> {
        self.note(format!("parse_flake_ref {flake_ref}"));
        Err(StoreError::NoStore)
    }
    fn flake_ref_to_string(&self, _: &TextMap<TreeAttr>) -> Result<String, StoreError> {
        self.note("flake_ref_to_string".to_owned());
        Err(StoreError::NoStore)
    }
    fn valid_paths(&self, paths: &Vec<String>) -> Result<TextSet, StoreError> {
        self.note("valid_paths".to_owned());
        self.0.asked.borrow_mut().push(paths.clone());
        let mut held = TextSet::new();
        for path in paths {
            if (self.0.answers.valid_paths)(path) {
                held.insert(path.clone());
            }
        }
        Ok(held)
    }
    fn sealed_paths(&self, objects: &Vec<String>) -> Result<Links, StoreError> {
        self.note("sealed_paths".to_owned());
        let mut links = Links::new();
        for object in objects {
            if (self.0.answers.sealed)(object) {
                links.insert(object.clone(), Vec::new());
            }
        }
        Ok(links)
    }
    fn allow_paths(&self, paths: &Vec<String>) -> Result<(), StoreError> {
        self.note("allow_paths".to_owned());
        let answer = (self.0.answers.allow_paths)(paths);
        if answer.is_ok() {
            self.0.allowed.borrow_mut().push(paths.clone());
        }
        answer
    }
    fn allow_closures(&self, outputs: &Vec<String>) -> Result<(), StoreError> {
        self.note("allow_closures".to_owned());
        let answer = (self.0.answers.allow_closures)(outputs);
        if answer.is_ok() {
            self.0.allowed.borrow_mut().push(outputs.clone());
        }
        answer
    }
    fn settle(&self) -> Result<(), StoreError> {
        Ok(())
    }
    fn warn(&self, message: &str) {
        self.note(format!("warn {message}"));
    }
    fn trace(&self, message: &str) {
        self.note(format!("trace {message}"));
    }
    fn begin(&self, question: &Slow) -> Option<Ticket> {
        self.note("begin".to_owned());
        (self.0.answers.begin)(question)
    }
    fn collect(&self, ticket: Ticket, _: bool) -> Option<SlowAnswer> {
        self.note("collect".to_owned());
        (self.0.answers.collect)(ticket)
    }
}

/// A world with a file `/a`, whose contents are a version, and a variable `SET`.
fn fake_at(version: Rc<Cell<u8>>) -> World {
    World::new(move |w| {
        w.read_file = Box::new(move |p| match p.path.as_str() {
            "/a" => Ok(format!("v{}", version.get())),
            other => Err(format!("path '{other}' does not exist")),
        });
        w.read_dir = Box::new(|_| Ok(vec![("x".to_owned(), FileType::Regular)]));
        w.path_exists = Box::new(|p| Ok(p.path == "/a"));
        w.get_env = Box::new(|name| match name {
            "SET" => Some("yes".to_owned()),
            _ => None,
        });
    })
}

fn fake() -> World {
    fake_at(Rc::new(Cell::new(1)))
}

const MOUNT: &str = "/nix/store/aaaaaaaaaaaaaaaaaaaaaaaaaaaaaaaa-src";
const OBJECT: &str = "00000000000000000000000000000000-source";

fn mounted(spelling: &str) -> PathValue {
    PathValue::new(Root::mounted(MOUNT), spelling)
}

fn in_store() -> Settings {
    Settings { store_dir: Some("/nix/store".to_owned()), ..Settings::default() }
}

fn nothing_given() -> Given {
    Given { objects: Vec::new(), placeholders: TextMap::new() }
}

fn rows_of(questions: Vec<Question>) -> Vec<WitnessRow> {
    questions
        .into_iter()
        .map(|q| (q, Recorded::Digest(told(&["test-row-never-recorded"]))))
        .collect()
}

fn replayed_rows(rows: &Vec<WitnessRow>, host: &World) -> ReadSet {
    match ReadSet::replay(rows, host, &Settings::default(), &nothing_given()) {
        Ok(Some(set)) => set,
        Ok(None) => unreachable!("replay refused; a purity setting is on in this test"),
        Err(error) => unreachable!("replay failed: {error:?}"),
    }
}

fn replayed(questions: Vec<Question>, host: &World) -> ReadSet {
    replayed_rows(&rows_of(questions), host)
}

fn questions(rows: &Vec<WitnessRow>) -> Vec<&Question> {
    rows.iter().map(|(question, _)| question).collect()
}

fn result(value: &str) -> EvalResult {
    EvalResult {
        status: "ok".to_owned(),
        value: value.to_owned(),
        emissions: Vec::new(),
        token: None,
        pos: None,
    }
}

fn one_of_each() -> Vec<Question> {
    let path = |spelling: &str| Rc::new(PathValue::ambient(spelling));
    let mut tree = TextMap::new();
    tree.insert("type".to_owned(), TreeAttr::Str("git".to_owned()));
    tree.insert("url".to_owned(), TreeAttr::Str("/argument/repo".to_owned()));
    tree.insert("shallow".to_owned(), TreeAttr::Bool(true));
    tree.insert("revCount".to_owned(), TreeAttr::Int(7));
    let mut flake = TextMap::new();
    flake.insert("type".to_owned(), TreeAttr::Str("github".to_owned()));
    flake.insert("shallow".to_owned(), TreeAttr::Bool(false));
    flake.insert("revCount".to_owned(), TreeAttr::Int(11));
    let pin = "sha256-1BdlSaqjNlSVCcgD/PocqAwbnGQ+lyfL6h9WK6+MCJc=".to_owned();
    vec![
        Question::ReadFile(path("/argument/read-file")),
        Question::ReadDir(path("/argument/read-dir")),
        Question::PathExists(path("/argument/path-exists")),
        Question::FileType(path("/argument/file-type")),
        Question::GetEnv("ARGUMENT_GET_ENV".to_owned()),
        Question::CopyToStore(path("/argument/copy-to-store")),
        Question::FindFile {
            entries: vec![
                SearchPathEntry {
                    prefix: "nixpkgs".to_owned(),
                    path: "/argument/nixpkgs".to_owned(),
                },
                SearchPathEntry {
                    prefix: String::new(),
                    path: "/argument/fallback".to_owned(),
                },
            ],
            name: "nixpkgs".to_owned(),
        },
        Question::NixPath,
        Question::EnsurePath("/argument/ensure-path".to_owned()),
        Question::StoreText {
            name: "argument-store-text".to_owned(),
            contents: "argument contents".to_owned(),
            references: vec![
                "/argument/store-text-ref-a".to_owned(),
                "/argument/store-text-ref-b".to_owned(),
            ],
        },
        Question::StoreFiltered(Box::new(FilteredCopy {
            root: path("/argument/store-filtered"),
            name: "argument-name".to_owned(),
            method: PathMethod::Flat,
            accepted: Some(vec![
                AcceptedPath {
                    path: "/argument/store-filtered/a".to_owned(),
                    file_type: FileType::Regular,
                },
                AcceptedPath {
                    path: "/argument/store-filtered/d".to_owned(),
                    file_type: FileType::Directory,
                },
            ]),
            expected_sha256: Some(pin.clone()),
            inherit_references: true,
        })),
        Question::Fetch(Box::new(FetchRequest {
            url: "https://argument.example/fetch.tar.gz".to_owned(),
            name: "argument-fetch-name".to_owned(),
            kind: FetchKind::Tarball,
            expected_sha256: Some(pin),
        })),
        Question::FetchTree(Box::new(FetchTreeRequest { attrs: tree, fetcher: TreeFetcher::Git })),
        Question::FileTypeResolved(path("/argument/file-type-resolved")),
        Question::LockFlake("path:/argument/flake".to_owned()),
        Question::Realise(vec![
            ContextElem::Opaque("/argument/realise-opaque".to_owned()),
            ContextElem::DrvDeep("/argument/realise-deep.drv".to_owned()),
            ContextElem::Built {
                drv: "/argument/realise-built.drv".to_owned(),
                output: "dev".to_owned(),
            },
        ]),
        Question::ReadFileBytes(path("/argument/read-file-bytes")),
        Question::ParseFlakeRef("github:argument/parse-flake-ref".to_owned()),
        Question::FlakeRefToString(flake),
        Question::Import(path("/argument/import")),
        Question::StorePath(path("/argument/store-path")),
        Question::DirExists(path("/argument/dir-exists")),
        Question::WriteDrv {
            name: "argument-write-drv".to_owned(),
            answer: WriteDrvAnswer::Written("/nix/store/argument-write-drv.drv".to_owned()),
            aterm: object(b"Derive([])"),
        },
        Question::Tree(path("/argument/tree")),
    ]
}

use readset::codec::{question_from, question_value, row_from, row_value};
use readset::refusal::RefusalToken;
use readset::result::{decode_result, encode_result, SrcPos};

fn text(s: &str) -> CanonValue {
    CanonValue::Str(s.to_owned())
}

fn map(fields: Vec<(&'static str, CanonValue)>) -> CanonValue {
    CanonValue::Table(fields.into_iter().map(|(k, v)| (text(k), v)).collect())
}

#[test]
fn a_mounted_tree_row_survives_the_witness_codec() {
    let question = Question::Tree(Rc::new(mounted(MOUNT)));
    assert_eq!(
        question_from(&question_value(&question)).as_ref(),
        Some(&question)
    );
}

#[test]
fn every_question_variant_is_listed() {
    let all = one_of_each();
    let mut seen: Vec<u8> = all.iter().map(Question::tag).collect();
    seen.sort_unstable();
    assert_eq!(
        seen,
        (1..=24).collect::<Vec<u8>>(),
        "a variant has no sample, or one is covered twice"
    );
}

#[test]
fn every_question_variant_round_trips_through_the_witness_codec() {
    let all = one_of_each();
    assert!(all.len() >= 7, "the enum shrank: {all:?}");
    for question in &all {
        let encoded = question_value(question);
        let decoded = question_from(&encoded);
        assert_eq!(
            decoded.as_ref(),
            Some(question),
            "{question:?} does not survive the witness codec, so it can never cache-hit"
        );
    }
}

#[test]
fn an_unversioned_legacy_witness_fails_before_question_decoding() {
    let module = mixed("legacy-module", &[b"unchanged source".to_vec()]);
    let legacy = map(vec![
        ("module", CanonValue::Bytes(module.to_vec())),
        (
            "questions",
            CanonValue::Array(vec![CanonValue::Array(vec![
                CanonValue::Int(10),
                text("legacy.drv"),
                text("Derive([])"),
            ])]),
        ),
    ]);
    assert_eq!(
        witness::witness_rows(&legacy),
        None,
        "an unversioned tag 10 row was reinterpreted as StoreText"
    );
}

#[test]
fn no_two_question_variants_share_a_tag() {
    let all = one_of_each();
    let mut tags: Vec<u8> = all.iter().map(Question::tag).collect();
    tags.sort_unstable();
    let mut unique = tags.clone();
    unique.dedup();
    assert_eq!(tags, unique, "duplicate question tags: {tags:?}");
    assert!(!tags.contains(&0), "tag 0 is reserved for 'absent'");
}

fn known_rows() -> Vec<WitnessRow> {
    one_of_each()
        .into_iter()
        .enumerate()
        .map(|(i, question)| {
            let answer = mixed("answer", &[vec![i as u8]]);
            (question, Recorded::Digest(Digest::Known(answer)))
        })
        .collect()
}

#[test]
fn a_witness_naming_every_question_reads_back() {
    let rows = known_rows();
    assert_eq!(witness::witness_rows(&witness::witness_value(&rows)), Some(rows));
}

#[test]
fn a_kept_answer_is_refused_on_a_question_that_cannot_use_it() {
    let mount = "/nix/store/00000000000000000000000000000000-source";
    let mounted = Question::CopyToStore(Rc::new(PathValue::new(
        Root::mounted(mount),
        &format!("{mount}/x"),
    )));
    let read = Question::ReadFile(ambient_path("/etc/x"));
    let copy = "/nix/store/00000000000000000000000000000000-x";
    let kept = |question: &Question| CanonValue::Array(vec![question_value(question), text(copy)]);
    assert_eq!(
        row_from(&kept(&mounted)),
        Some((mounted.clone(), Recorded::Answer(copy.to_owned())))
    );
    assert_eq!(row_from(&kept(&read)), None);
    assert_eq!(Recorded::answer(&read, copy.to_owned()), None);
    assert_eq!(
        Recorded::Answer(copy.to_owned()).digest(),
        digest::digest_store_copy(&Ok(copy.to_owned())),
        "a kept answer digests as the recording host digested it"
    );
    let row = (mounted, Recorded::Answer(copy.to_owned()));
    assert_eq!(row_from(&row_value(&row)), Some(row));
}

#[test]
fn the_refusal_token_survives_the_result_codec() {
    let result = EvalResult {
        status: "unimplemented".to_owned(),
        value: "effect domain 'x'".to_owned(),
        emissions: Vec::new(),
        token: Some(RefusalToken::EffectDomain),
        pos: None,
    };
    let back = decode_result(&encode_result(&result)).expect("did not decode");
    assert_eq!(back.token, Some(RefusalToken::EffectDomain));
    assert_eq!(back.status, result.status);
}

#[test]
fn a_result_row_missing_any_field_is_refused() {
    let names = ["status", "value", "emissions", "token", "pos"];
    let fields = |omitted: usize| -> Vec<(&'static str, CanonValue)> {
        let all = vec![
            ("status", text("ok")),
            ("value", text("1")),
            ("emissions", CanonValue::Array(Vec::new())),
            ("token", text("")),
            ("pos", CanonValue::Array(Vec::new())),
        ];
        all.into_iter().enumerate().filter(|(i, _)| *i != omitted).map(|(_, f)| f).collect()
    };
    assert!(
        decode_result(&map(fields(names.len()))).is_some(),
        "the complete row decodes"
    );
    for omitted in 0..names.len() {
        assert_eq!(
            decode_result(&map(fields(omitted))),
            None,
            "a row without {:?} must not decode",
            names[omitted]
        );
    }
}

#[test]
fn a_result_row_with_an_unknown_token_is_refused() {
    let row = map(vec![
        ("status", text("unimplemented")),
        ("value", text("something")),
        ("emissions", CanonValue::Array(Vec::new())),
        ("token", text("no-such-token")),
        ("pos", CanonValue::Array(Vec::new())),
    ]);
    assert_eq!(decode_result(&row), None);
}

#[test]
fn emissions_survive_the_result_codec() {
    let result = EvalResult {
        status: "ok".to_owned(),
        value: "1".to_owned(),
        token: None,
        pos: None,
        emissions: vec![
            Emission::Warn("first".to_owned()),
            Emission::Trace("second".to_owned()),
        ],
    };
    assert_eq!(decode_result(&encode_result(&result)).as_ref(), Some(&result));
}

#[test]
fn a_result_row_with_a_malformed_emission_list_is_refused() {
    let bad = map(vec![
        ("status", text("ok")),
        ("value", text("1")),
        ("emissions", CanonValue::Array(vec![CanonValue::Int(7)])),
    ]);
    assert_eq!(decode_result(&bad), None);
    let unknown = map(vec![
        ("status", text("ok")),
        ("value", text("1")),
        ("token", text("")),
        ("pos", CanonValue::Array(Vec::new())),
        (
            "emissions",
            CanonValue::Array(vec![CanonValue::Array(vec![text("shout"), text("x")])]),
        ),
    ]);
    assert_eq!(decode_result(&unknown), None);
}

#[test]
fn a_place_survives_the_result_codec_but_for_an_empty_file() {
    let at = |file: Option<&str>| EvalResult {
        pos: Some(SrcPos { file: file.map(str::to_owned), line: 4_294_967_295, column: 0 }),
        ..result("v")
    };
    for file in [Some("/a.nix"), None] {
        assert_eq!(decode_result(&encode_result(&at(file))), Some(at(file)));
    }
    assert_eq!(decode_result(&encode_result(&at(Some("")))), Some(at(None)));
    let row = |line: &str| {
        map(vec![
            ("status", text("ok")),
            ("value", text("v")),
            ("token", text("")),
            ("emissions", CanonValue::Array(Vec::new())),
            ("pos", CanonValue::Array(vec![text(""), text(line), text("2")])),
        ])
    };
    for (line, read) in [
        ("7", Some(7)),
        ("+7", Some(7)),
        ("007", Some(7)),
        ("+", None),
        ("", None),
        ("-1", None),
        ("4294967296", None),
    ] {
        assert_eq!(
            decode_result(&row(line)).and_then(|r| r.pos).map(|p| p.line),
            read,
            "{line:?}"
        );
    }
}

#[test]
fn the_default_result_is_empty() {
    assert_eq!(
        EvalResult::default(),
        EvalResult { status: String::new(), ..result("") }
    );
}

#[test]
fn witnesses_of_other_formats_or_with_a_bad_row_are_refused() {
    let rows = || CanonValue::Array(vec![]);
    let of = |format: &str, rows: CanonValue| {
        witness::witness_rows(&map(vec![("format", text(format)), ("rows", rows)]))
    };
    assert_eq!(of(witness::WITNESS_FORMAT, rows()), Some(Vec::new()));
    assert_eq!(of("ixe-witness-v7", rows()), None);
    assert_eq!(of(witness::WITNESS_FORMAT, text("rows")), None);
    assert_eq!(of(witness::WITNESS_FORMAT, CanonValue::Array(vec![CanonValue::Int(1)])), None);
    assert_eq!(witness::witness_rows(&CanonValue::Array(vec![])), None);
}

fn shape_of(rows: &Vec<WitnessRow>) -> digest::Hash {
    let rows: Vec<digest::Hash> = witness::shape_rows(rows).iter().map(hashed).collect();
    hashed(&witness::witness_shape(&rows))
}

#[test]
fn a_witness_is_kept_only_beside_its_own_file() {
    let rows = known_rows();
    let identity = id(b"sidecar");
    let shape = shape_of(&rows);
    let sidecar = witness::witness_sidecar(&rows, &shape);
    let aterm = object(b"Derive([])").hash.to_hex();
    assert_eq!(
        sidecar,
        format!("ixe-witness-meta-v1\n{}\n{aterm}\n", shape.to_hex())
    );
    assert_eq!(witness::witness_refs(&sidecar), Some(vec![aterm.clone()]));
    let file = || witness::WitnessFile::Value(witness::witness_value(&rows));
    let get = |file: witness::WitnessFile, sidecar: Option<String>| {
        witness::DirWitness::get_with_shape(&identity, &file, &Some(shape), &sidecar)
    };
    let hex = identity.as_hash().to_hex();
    let malformed = Err(format!(
        "evaluation witness {hex} is malformed or has an unsupported format"
    ));
    assert_eq!(get(file(), Some(sidecar.clone())), Ok(Some((rows.clone(), shape))));
    assert_eq!(get(file(), None), malformed);
    assert_eq!(get(file(), Some(sidecar.replace(&aterm, &"0".repeat(64)))), malformed);
    assert_eq!(get(file(), Some(sidecar.to_uppercase())), malformed);
    assert_eq!(get(witness::WitnessFile::Garbled, Some(sidecar.clone())), malformed);
    assert_eq!(get(witness::WitnessFile::Absent, Some(sidecar.clone())), Ok(None));
    assert_eq!(
        get(witness::WitnessFile::Failed("denied".to_owned()), Some(sidecar)),
        Err(format!("evaluation witness {hex} could not be read: denied"))
    );
}

#[test]
fn lines_of_a_sidecar_may_end_in_returns() {
    let hash = "ab".repeat(32);
    let crlf = format!("ixe-witness-meta-v1\r\n{hash}\r\n{hash}");
    assert_eq!(
        witness::witness_metadata(&crlf),
        Some((hash.clone(), vec![hash.clone()]))
    );
    assert_eq!(witness::witness_metadata("ixe-witness-meta-v1\n"), None);
    assert_eq!(witness::witness_metadata(&format!("ixe-witness-meta-v1\n{hash}\n\n")), None);
    assert_eq!(witness::witness_metadata(&format!("other\n{hash}\n")), None);
}

#[test]
fn the_newest_witness_is_filed_under_its_evaluation_and_the_older_apart() {
    let identity = id(b"slots");
    assert_eq!(witness::witness_slot(&identity, 0), witness::Slot::Itself(identity));
    assert_eq!(
        witness::witness_slot(&identity, 3),
        witness::Slot::Hashed(Preimage {
            tag: "ixe-witness-slot-v1".to_owned(),
            parts: vec![
                Part::Bytes(identity.as_hash().to_vec()),
                Part::Bytes(vec![3, 0, 0, 0, 0, 0, 0, 0]),
            ],
        })
    );
}

fn text_value(s: &str) -> CanonValue {
    CanonValue::Str(s.to_owned())
}

fn text_values(items: &[&str]) -> CanonValue {
    CanonValue::Array(items.iter().map(|item| text_value(item)).collect())
}

/// A question's value with one more item at its end.
fn lengthened(question: &Question) -> CanonValue {
    match readset::codec::question_value(question) {
        CanonValue::Array(mut parts) => {
            parts.push(text_value("more"));
            CanonValue::Array(parts)
        }
        _ => unreachable!("a question is a list"),
    }
}

#[test]
fn an_emission_of_three_texts_is_no_emission() {
    let result = EvalResult {
        status: "ok".to_owned(),
        emissions: vec![Emission::Warn("m".to_owned())],
        ..EvalResult::default()
    };
    let value = readset::result::encode_result(&result);
    assert_eq!(readset::result::decode_result(&value), Some(result));
    let CanonValue::Table(mut entries) = value else {
        unreachable!("a result is a table")
    };
    for (name, item) in &mut entries {
        if *name == text_value("emissions") {
            *item = CanonValue::Array(vec![text_values(&["warn", "m", "x"])]);
        }
    }
    assert_eq!(readset::result::decode_result(&CanonValue::Table(entries)), None);
}

#[test]
fn a_position_of_four_texts_is_no_position() {
    let placed = |items: &[&str]| {
        let value = readset::result::encode_result(&EvalResult::default());
        let CanonValue::Table(mut entries) = value else {
            unreachable!("a result is a table")
        };
        for (name, item) in &mut entries {
            if *name == text_value("pos") {
                *item = text_values(items);
            }
        }
        readset::result::decode_result(&CanonValue::Table(entries))
    };
    assert!(placed(&["/f", "1", "2"]).is_some_and(|result| result.pos.is_some()));
    assert_eq!(placed(&["/f", "1", "2", "3"]), None);
    assert_eq!(placed(&["/f", "1"]), None);
}

#[test]
fn a_filtered_question_is_read_only_where_its_lists_have_their_lengths() {
    let request = |accepted: Option<Vec<AcceptedPath>>, inherit_references: bool| {
        Question::StoreFiltered(Box::new(FilteredCopy {
            root: ambient_path("/src"),
            name: "src".to_owned(),
            method: PathMethod::NixArchive,
            accepted,
            expected_sha256: Some("h".to_owned()),
            inherit_references,
        }))
    };
    let with = |question: &Question, at: usize, items: &[&str]| {
        let CanonValue::Array(mut parts) = readset::codec::question_value(question) else {
            unreachable!("a question is a list")
        };
        parts[at] = text_values(items);
        readset::codec::question_from(&CanonValue::Array(parts))
    };
    let plain = request(None, false);
    assert_eq!(with(&plain, 5, &["unfiltered"]), Some(plain.clone()));
    assert_eq!(with(&plain, 5, &["unfiltered", "/src/a"]), None);
    assert_eq!(with(&plain, 5, &["filtered"]), Some(request(Some(Vec::new()), false)));
    assert_eq!(with(&plain, 5, &["filtered", "/src/a"]), None);
    assert_eq!(with(&plain, 4, &["h"]), Some(plain.clone()));
    assert_eq!(with(&plain, 4, &["h", "h"]), None, "a pin is one text");
    let method = PathMethod::NixArchive.as_str();
    assert_eq!(
        with(&plain, 3, &["src", method, "inherit-references"]),
        Some(request(None, true))
    );
    assert_eq!(with(&plain, 3, &["src", method, "inherit-references", "more"]), None);
    assert_eq!(with(&plain, 3, &["src"]), None);
}

#[test]
fn what_follows_the_arguments_of_a_question_is_not_read() {
    let questions = [
        Question::ReadFile(ambient_path("/f")),
        Question::ReadDir(ambient_path("/d")),
        Question::CopyToStore(ambient_path("/c")),
        Question::Tree(ambient_path("/t")),
        Question::GetEnv("V".to_owned()),
        Question::NixPath,
        Question::EnsurePath("/p".to_owned()),
        Question::LockFlake("f".to_owned()),
        Question::ParseFlakeRef("f".to_owned()),
    ];
    for question in &questions {
        let value = readset::codec::question_value(question);
        assert_eq!(readset::codec::question_from(&value).as_ref(), Some(question));
        assert_eq!(
            readset::codec::question_from(&lengthened(question)).as_ref(),
            Some(question)
        );
    }
    let ensure = CanonValue::Array(vec![CanonValue::Int(9), text_value("/p"), text_value("x")]);
    assert_eq!(
        readset::codec::question_from(&ensure),
        Some(Question::EnsurePath("/p".to_owned()))
    );
}

#[test]
fn a_fetch_with_an_item_too_many_is_no_question() {
    let attrs = || {
        let mut attrs = TextMap::new();
        attrs.insert("rev".to_owned(), TreeAttr::Str("r".to_owned()));
        attrs
    };
    let fetch = FetchRequest {
        url: "u".to_owned(),
        name: "n".to_owned(),
        kind: FetchKind::File,
        expected_sha256: None,
    };
    let questions = [
        Question::Fetch(Box::new(fetch)),
        Question::FetchTree(Box::new(FetchTreeRequest {
            attrs: attrs(),
            fetcher: TreeFetcher::Tree,
        })),
        Question::FlakeRefToString(attrs()),
    ];
    for question in &questions {
        let value = readset::codec::question_value(question);
        assert_eq!(readset::codec::question_from(&value).as_ref(), Some(question));
        assert_eq!(readset::codec::question_from(&lengthened(question)), None, "{question:?}");
    }
}
