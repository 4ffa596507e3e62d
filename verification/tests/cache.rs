#![allow(dead_code, unused_imports)]

use readset::cache::{
    Held, Lookup, LookupAction, LookupEvent, ObjectRead, ResultCache, RowRead,
};
use readset::codec::CanonValue;
use readset::copies::CopyMemo;
use readset::digest;
use readset::digest::{Digest, ObjId, Part, Preimage, WriteDrvAnswer};
use readset::host::{
    DrvSource, FileType, FlakeCall, Host, ImportedSource, Links, LookupError, Sealed, Slow,
    SlowAnswer, StoreError, StorePathResult, Ticket,
};
use readset::ordered::{TextMap, TextSet};
use readset::purity::{verdict, PathReads, Verdict};
use readset::question::{Question, Recorded, WitnessRow};
use readset::readset::{EvalId, Folded, ReadSet};
use readset::recorder::{Emission, RecordingHost};
use readset::recording::{RecordAction, RecordEvent};
use readset::records::{DirCopies, DirRecords, DirSealed};
use readset::replay::{ReplayFailure, Settings};
use readset::result::EvalResult;
use readset::task::{
    AcceptedPath, FetchKind, FetchRequest, FetchTreeRequest, FilteredCopy, PathMethod,
    SearchPathEntry, TreeAttr, TreeFetcher,
};
use readset::validity::{Fetched, Given};
use readset::value::{ambient_path, ContextElem, PathValue, Root};
use readset::witness;
use std::cell::{Cell, RefCell};
use std::collections::BTreeMap;
use std::rc::Rc;

/// A hash that tells apart whatever the tests tell apart.
fn mixed(tag: &str, fields: &[Vec<u8>]) -> digest::Hash {
    let mut out = [0u8; 32];
    for lane in 0..4u64 {
        let mut h: u64 = 0xcbf2_9ce4_8422_2325 ^ (lane.wrapping_mul(0x9e37_79b9_7f4a_7c15));
        let mut eat = |bytes: &[u8]| {
            for b in (bytes.len() as u64).to_le_bytes().iter().chain(bytes) {
                h = (h ^ u64::from(*b)).wrapping_mul(0x0000_0100_0000_01b3);
                h ^= h >> 29;
            }
        };
        eat(tag.as_bytes());
        for field in fields {
            eat(field);
        }
        out[lane as usize * 8..lane as usize * 8 + 8].copy_from_slice(&h.to_le_bytes());
    }
    digest::Hash::from_bytes(out)
}

fn taken(d: &Digest) -> digest::Hash {
    match d {
        Digest::Known(h) => *h,
        Digest::Read(fields) => mixed(digest::READ_TAG, fields),
    }
}

fn hashed(p: &Preimage) -> digest::Hash {
    let fields: Vec<Vec<u8>> = p
        .parts
        .iter()
        .map(|part| match part {
            Part::Bytes(b) => b.clone(),
            Part::Digest(d) => taken(d).to_vec(),
        })
        .collect();
    mixed(&p.tag, &fields)
}

fn object(bytes: &[u8]) -> ObjId {
    ObjId { hash: mixed("object", &[bytes.to_vec()]) }
}

fn id(module: &[u8]) -> EvalId {
    let none = mixed("none", &[]);
    EvalId {
        key: hashed(&EvalId::of(&mixed("m", &[module.to_vec()]), "evaluator", &none, &none, &none)),
    }
}

fn told(parts: &[&str]) -> Digest {
    Digest::Read(parts.iter().map(|p| p.as_bytes().to_vec()).collect())
}

/// What a world answers; each answer can be replaced.
struct Answers {
    import_source: Box<dyn Fn(&PathValue) -> Result<ImportedSource, String>>,
    read_file: Box<dyn Fn(&PathValue) -> Result<String, String>>,
    read_dir: Box<dyn Fn(&PathValue) -> Result<Vec<(String, FileType)>, String>>,
    path_exists: Box<dyn Fn(&PathValue) -> Result<bool, String>>,
    dir_exists: Box<dyn Fn(&PathValue) -> Result<bool, String>>,
    file_type: Box<dyn Fn(&PathValue) -> Result<Option<FileType>, String>>,
    get_env: Box<dyn Fn(&str) -> Option<String>>,
    copy_to_store: Box<dyn Fn(&PathValue) -> Result<String, StoreError>>,
    store_text: Box<dyn Fn(&str) -> Result<String, StoreError>>,
    write_derivation: Box<dyn Fn(&str) -> Result<String, StoreError>>,
    realise: Box<dyn Fn(&Vec<ContextElem>) -> Result<TextMap<String>, StoreError>>,
    ensure_path: Box<dyn Fn(&str) -> Result<(), StoreError>>,
    store_filtered: Box<dyn Fn(&FilteredCopy) -> Result<String, StoreError>>,
    fetch: Box<dyn Fn(&FetchRequest) -> Result<String, StoreError>>,
    fetch_tree: Box<dyn Fn(&FetchTreeRequest) -> Result<String, StoreError>>,
    valid_paths: Box<dyn Fn(&str) -> bool>,
    sealed: Box<dyn Fn(&str) -> bool>,
    allow_paths: Box<dyn Fn(&Vec<String>) -> Result<(), StoreError>>,
    allow_closures: Box<dyn Fn(&Vec<String>) -> Result<(), StoreError>>,
    begin: Box<dyn Fn(&Slow) -> Option<Ticket>>,
    collect: Box<dyn Fn(Ticket) -> Option<SlowAnswer>>,
}

struct Told {
    answers: Answers,
    log: RefCell<Vec<String>>,
    asked: RefCell<Vec<Vec<String>>>,
    allowed: RefCell<Vec<Vec<String>>>,
}

/// A host whose answers a test chooses, and which notes what it is asked.
#[derive(Clone)]
struct World(Rc<Told>);

impl World {
    fn new(change: impl FnOnce(&mut Answers)) -> World {
        let mut answers = Answers {
            import_source: Box::new(|_| Err("not asked".to_owned())),
            read_file: Box::new(|_| Err("no".to_owned())),
            read_dir: Box::new(|_| Ok(Vec::new())),
            path_exists: Box::new(|_| Ok(false)),
            dir_exists: Box::new(|_| Ok(false)),
            file_type: Box::new(|_| Ok(Some(FileType::Regular))),
            get_env: Box::new(|_| None),
            copy_to_store: Box::new(|_| Err(StoreError::NoStore)),
            store_text: Box::new(|_| Err(StoreError::NoStore)),
            write_derivation: Box::new(|_| Err(StoreError::NoStore)),
            realise: Box::new(|_| Err(StoreError::NoStore)),
            ensure_path: Box::new(|_| Err(StoreError::NoStore)),
            store_filtered: Box::new(|_| Err(StoreError::NoStore)),
            fetch: Box::new(|_| Err(StoreError::NoStore)),
            fetch_tree: Box::new(|_| Err(StoreError::NoStore)),
            valid_paths: Box::new(|_| false),
            sealed: Box::new(|_| false),
            allow_paths: Box::new(|_| Ok(())),
            allow_closures: Box::new(|_| Ok(())),
            begin: Box::new(|_| None),
            collect: Box::new(|_| None),
        };
        change(&mut answers);
        World(Rc::new(Told {
            answers,
            log: RefCell::new(Vec::new()),
            asked: RefCell::new(Vec::new()),
            allowed: RefCell::new(Vec::new()),
        }))
    }

    fn note(&self, what: String) {
        self.0.log.borrow_mut().push(what);
    }

    fn log(&self) -> Vec<String> {
        self.0.log.borrow().clone()
    }

    fn count(&self, method: &str) -> usize {
        self.log().iter().filter(|l| l.split(' ').next() == Some(method)).count()
    }

    fn forget(&self) {
        self.0.log.borrow_mut().clear();
        self.0.asked.borrow_mut().clear();
        self.0.allowed.borrow_mut().clear();
    }
}

impl Host for World {
    fn import_source(&self, path: &PathValue) -> Result<ImportedSource, String> {
        self.note(format!("import_source {}", path.path));
        (self.0.answers.import_source)(path)
    }
    fn read_file(&self, path: &PathValue) -> Result<String, String> {
        self.note(format!("read_file {}", path.path));
        (self.0.answers.read_file)(path)
    }
    fn read_file_bytes(&self, path: &PathValue) -> Result<Vec<u8>, String> {
        self.note(format!("read_file_bytes {}", path.path));
        (self.0.answers.read_file)(path).map(String::into_bytes)
    }
    fn read_dir(&self, path: &PathValue) -> Result<Vec<(String, FileType)>, String> {
        self.note(format!("read_dir {}", path.path));
        (self.0.answers.read_dir)(path)
    }
    fn path_exists_checked(&self, path: &PathValue) -> Result<bool, String> {
        self.note(format!("path_exists {}", path.path));
        (self.0.answers.path_exists)(path)
    }
    fn dir_exists_checked(&self, path: &PathValue) -> Result<bool, String> {
        self.note(format!("dir_exists {}", path.path));
        (self.0.answers.dir_exists)(path)
    }
    fn file_type(&self, path: &PathValue) -> Result<Option<FileType>, String> {
        self.note(format!("file_type {}", path.path));
        (self.0.answers.file_type)(path)
    }
    fn file_type_resolved(&self, path: &PathValue) -> Result<FileType, String> {
        self.note(format!("file_type_resolved {}", path.path));
        Err("no".to_owned())
    }
    fn get_env(&self, name: &str) -> Option<String> {
        self.note(format!("get_env {name}"));
        (self.0.answers.get_env)(name)
    }
    fn copy_to_store(&self, path: &PathValue) -> Result<String, StoreError> {
        self.note(format!("copy_to_store {}", path.path));
        (self.0.answers.copy_to_store)(path)
    }
    fn store_path(&self, path: &PathValue) -> Result<StorePathResult, StoreError> {
        self.note(format!("store_path {}", path.path));
        Err(StoreError::NoStore)
    }
    fn find_file(&self, _: &Vec<SearchPathEntry>, name: &str) -> Result<PathValue, LookupError> {
        self.note(format!("find_file {name}"));
        Err(LookupError::NoResolver)
    }
    fn nix_path(&self) -> Result<Vec<SearchPathEntry>, LookupError> {
        self.note("nix_path".to_owned());
        Err(LookupError::NoResolver)
    }
    fn store_text(&self, name: &str, _: &str, _: &Vec<String>) -> Result<String, StoreError> {
        self.note(format!("store_text {name}"));
        (self.0.answers.store_text)(name)
    }
    fn write_derivation(&self, name: &str, _: &str) -> Result<String, StoreError> {
        self.note(format!("write_derivation {name}"));
        (self.0.answers.write_derivation)(name)
    }
    fn realise(&self, context: &Vec<ContextElem>) -> Result<TextMap<String>, StoreError> {
        self.note("realise".to_owned());
        (self.0.answers.realise)(context)
    }
    fn ensure_path(&self, path: &str) -> Result<(), StoreError> {
        self.note(format!("ensure_path {path}"));
        (self.0.answers.ensure_path)(path)
    }
    fn store_filtered(&self, request: &FilteredCopy) -> Result<String, StoreError> {
        self.note(format!("store_filtered {}", request.root.path));
        (self.0.answers.store_filtered)(request)
    }
    fn fetch(&self, request: &FetchRequest) -> Result<String, StoreError> {
        self.note(format!("fetch {}", request.url));
        (self.0.answers.fetch)(request)
    }
    fn fetch_tree(&self, request: &FetchTreeRequest) -> Result<String, StoreError> {
        self.note(format!("fetch_tree {}", request.fetcher.as_str()));
        (self.0.answers.fetch_tree)(request)
    }
    fn lock_flake(&self, flake_ref: &str) -> Result<FlakeCall, StoreError> {
        self.note(format!("lock_flake {flake_ref}"));
        Err(StoreError::NoStore)
    }
    fn parse_flake_ref(&self, flake_ref: &str) -> Result<String, StoreError> {
        self.note(format!("parse_flake_ref {flake_ref}"));
        Err(StoreError::NoStore)
    }
    fn flake_ref_to_string(&self, _: &TextMap<TreeAttr>) -> Result<String, StoreError> {
        self.note("flake_ref_to_string".to_owned());
        Err(StoreError::NoStore)
    }
    fn valid_paths(&self, paths: &Vec<String>) -> Result<TextSet, StoreError> {
        self.note("valid_paths".to_owned());
        self.0.asked.borrow_mut().push(paths.clone());
        let mut held = TextSet::new();
        for path in paths {
            if (self.0.answers.valid_paths)(path) {
                held.insert(path.clone());
            }
        }
        Ok(held)
    }
    fn sealed_paths(&self, objects: &Vec<String>) -> Result<Links, StoreError> {
        self.note("sealed_paths".to_owned());
        let mut links = Links::new();
        for object in objects {
            if (self.0.answers.sealed)(object) {
                links.insert(object.clone(), Vec::new());
            }
        }
        Ok(links)
    }
    fn allow_paths(&self, paths: &Vec<String>) -> Result<(), StoreError> {
        self.note("allow_paths".to_owned());
        let answer = (self.0.answers.allow_paths)(paths);
        if answer.is_ok() {
            self.0.allowed.borrow_mut().push(paths.clone());
        }
        answer
    }
    fn allow_closures(&self, outputs: &Vec<String>) -> Result<(), StoreError> {
        self.note("allow_closures".to_owned());
        let answer = (self.0.answers.allow_closures)(outputs);
        if answer.is_ok() {
            self.0.allowed.borrow_mut().push(outputs.clone());
        }
        answer
    }
    fn settle(&self) -> Result<(), StoreError> {
        Ok(())
    }
    fn warn(&self, message: &str) {
        self.note(format!("warn {message}"));
    }
    fn trace(&self, message: &str) {
        self.note(format!("trace {message}"));
    }
    fn begin(&self, question: &Slow) -> Option<Ticket> {
        self.note("begin".to_owned());
        (self.0.answers.begin)(question)
    }
    fn collect(&self, ticket: Ticket, _: bool) -> Option<SlowAnswer> {
        self.note("collect".to_owned());
        (self.0.answers.collect)(ticket)
    }
}

/// A world with a file `/a`, whose contents are a version, and a variable `SET`.
fn fake_at(version: Rc<Cell<u8>>) -> World {
    World::new(move |w| {
        w.read_file = Box::new(move |p| match p.path.as_str() {
            "/a" => Ok(format!("v{}", version.get())),
            other => Err(format!("path '{other}' does not exist")),
        });
        w.read_dir = Box::new(|_| Ok(vec![("x".to_owned(), FileType::Regular)]));
        w.path_exists = Box::new(|p| Ok(p.path == "/a"));
        w.get_env = Box::new(|name| match name {
            "SET" => Some("yes".to_owned()),
            _ => None,
        });
    })
}

fn fake() -> World {
    fake_at(Rc::new(Cell::new(1)))
}

const MOUNT: &str = "/nix/store/aaaaaaaaaaaaaaaaaaaaaaaaaaaaaaaa-src";
const OBJECT: &str = "00000000000000000000000000000000-source";

fn mounted(spelling: &str) -> PathValue {
    PathValue::new(Root::mounted(MOUNT), spelling)
}

fn in_store() -> Settings {
    Settings { store_dir: Some("/nix/store".to_owned()), ..Settings::default() }
}

fn nothing_given() -> Given {
    Given { objects: Vec::new(), placeholders: TextMap::new() }
}

fn rows_of(questions: Vec<Question>) -> Vec<WitnessRow> {
    questions
        .into_iter()
        .map(|q| (q, Recorded::Digest(told(&["test-row-never-recorded"]))))
        .collect()
}

fn replayed_rows(rows: &Vec<WitnessRow>, host: &World) -> ReadSet {
    match ReadSet::replay(rows, host, &Settings::default(), &nothing_given()) {
        Ok(Some(set)) => set,
        Ok(None) => unreachable!("replay refused; a purity setting is on in this test"),
        Err(error) => unreachable!("replay failed: {error:?}"),
    }
}

fn replayed(questions: Vec<Question>, host: &World) -> ReadSet {
    replayed_rows(&rows_of(questions), host)
}

fn questions(rows: &Vec<WitnessRow>) -> Vec<&Question> {
    rows.iter().map(|(question, _)| question).collect()
}

fn result(value: &str) -> EvalResult {
    EvalResult {
        status: "ok".to_owned(),
        value: value.to_owned(),
        emissions: Vec::new(),
        token: None,
        pos: None,
    }
}

fn one_of_each() -> Vec<Question> {
    let path = |spelling: &str| Rc::new(PathValue::ambient(spelling));
    let mut tree = TextMap::new();
    tree.insert("type".to_owned(), TreeAttr::Str("git".to_owned()));
    tree.insert("url".to_owned(), TreeAttr::Str("/argument/repo".to_owned()));
    tree.insert("shallow".to_owned(), TreeAttr::Bool(true));
    tree.insert("revCount".to_owned(), TreeAttr::Int(7));
    let mut flake = TextMap::new();
    flake.insert("type".to_owned(), TreeAttr::Str("github".to_owned()));
    flake.insert("shallow".to_owned(), TreeAttr::Bool(false));
    flake.insert("revCount".to_owned(), TreeAttr::Int(11));
    let pin = "sha256-1BdlSaqjNlSVCcgD/PocqAwbnGQ+lyfL6h9WK6+MCJc=".to_owned();
    vec![
        Question::ReadFile(path("/argument/read-file")),
        Question::ReadDir(path("/argument/read-dir")),
        Question::PathExists(path("/argument/path-exists")),
        Question::FileType(path("/argument/file-type")),
        Question::GetEnv("ARGUMENT_GET_ENV".to_owned()),
        Question::CopyToStore(path("/argument/copy-to-store")),
        Question::FindFile {
            entries: vec![
                SearchPathEntry {
                    prefix: "nixpkgs".to_owned(),
                    path: "/argument/nixpkgs".to_owned(),
                },
                SearchPathEntry {
                    prefix: String::new(),
                    path: "/argument/fallback".to_owned(),
                },
            ],
            name: "nixpkgs".to_owned(),
        },
        Question::NixPath,
        Question::EnsurePath("/argument/ensure-path".to_owned()),
        Question::StoreText {
            name: "argument-store-text".to_owned(),
            contents: "argument contents".to_owned(),
            references: vec![
                "/argument/store-text-ref-a".to_owned(),
                "/argument/store-text-ref-b".to_owned(),
            ],
        },
        Question::StoreFiltered(Box::new(FilteredCopy {
            root: path("/argument/store-filtered"),
            name: "argument-name".to_owned(),
            method: PathMethod::Flat,
            accepted: Some(vec![
                AcceptedPath {
                    path: "/argument/store-filtered/a".to_owned(),
                    file_type: FileType::Regular,
                },
                AcceptedPath {
                    path: "/argument/store-filtered/d".to_owned(),
                    file_type: FileType::Directory,
                },
            ]),
            expected_sha256: Some(pin.clone()),
            inherit_references: true,
        })),
        Question::Fetch(Box::new(FetchRequest {
            url: "https://argument.example/fetch.tar.gz".to_owned(),
            name: "argument-fetch-name".to_owned(),
            kind: FetchKind::Tarball,
            expected_sha256: Some(pin),
        })),
        Question::FetchTree(Box::new(FetchTreeRequest { attrs: tree, fetcher: TreeFetcher::Git })),
        Question::FileTypeResolved(path("/argument/file-type-resolved")),
        Question::LockFlake("path:/argument/flake".to_owned()),
        Question::Realise(vec![
            ContextElem::Opaque("/argument/realise-opaque".to_owned()),
            ContextElem::DrvDeep("/argument/realise-deep.drv".to_owned()),
            ContextElem::Built {
                drv: "/argument/realise-built.drv".to_owned(),
                output: "dev".to_owned(),
            },
        ]),
        Question::ReadFileBytes(path("/argument/read-file-bytes")),
        Question::ParseFlakeRef("github:argument/parse-flake-ref".to_owned()),
        Question::FlakeRefToString(flake),
        Question::Import(path("/argument/import")),
        Question::StorePath(path("/argument/store-path")),
        Question::DirExists(path("/argument/dir-exists")),
        Question::WriteDrv {
            name: "argument-write-drv".to_owned(),
            answer: WriteDrvAnswer::Written("/nix/store/argument-write-drv.drv".to_owned()),
            aterm: object(b"Derive([])"),
        },
        Question::Tree(path("/argument/tree")),
    ]
}

use readset::cache::{sweep_complaint, VerifierCounts};
use readset::complaint::{show_replay_failure, Complaint, Severity};
use readset::copies;
use readset::filing;
use readset::filing::{Content, FileOp, MoveStage, Outcome};
use readset::history;
use readset::history::SlotFile;
use readset::retained::Retained;
use readset::result::decode_result;
use readset::witness::{DirWitness, Slot, WitnessFile, WitnessLookup, WITNESS_HISTORY};

fn same_value(value: &CanonValue) -> CanonValue {
    match value {
        CanonValue::Int(n) => CanonValue::Int(*n),
        CanonValue::Str(s) => CanonValue::Str(s.clone()),
        CanonValue::Bytes(b) => CanonValue::Bytes(b.clone()),
        CanonValue::Array(v) => CanonValue::Array(v.iter().map(same_value).collect()),
        CanonValue::Table(t) => {
            CanonValue::Table(t.iter().map(|(k, v)| (same_value(k), same_value(v))).collect())
        }
        CanonValue::Digest(d) => CanonValue::Bytes(taken(d).to_vec()),
    }
}

enum File {
    Value(CanonValue),
    Text(String),
    Garbled,
}

enum Kept {
    Bytes(Vec<u8>),
    Value(CanonValue),
}

/// A store in memory: objects, rows, witness files and sealed objects.
struct Disk {
    dir: DirWitness,
    files: RefCell<BTreeMap<String, File>>,
    objects: RefCell<BTreeMap<String, Kept>>,
    rows: RefCell<BTreeMap<String, ObjId>>,
    sealed: RefCell<Option<DirSealed>>,
}

impl Disk {
    fn new() -> Disk {
        Disk {
            dir: DirWitness::open("/cache/witness".to_owned()),
            files: RefCell::new(BTreeMap::new()),
            objects: RefCell::new(BTreeMap::new()),
            rows: RefCell::new(BTreeMap::new()),
            sealed: RefCell::new(Some(DirSealed::open(DirRecords::new()))),
        }
    }

    fn persistent(&self) -> ResultCache {
        ResultCache::persistent(self.dir.root.clone())
    }

    fn slot(&self, identity: &EvalId, slot: usize) -> EvalId {
        match witness::witness_slot(identity, slot as u64) {
            Slot::Itself(id) => id,
            Slot::Hashed(p) => EvalId { key: hashed(&p) },
        }
    }

    fn sidecar(&self, identity: &EvalId) -> Option<String> {
        match self.files.borrow().get(&self.dir.refs_path(identity)) {
            Some(File::Text(t)) => Some(t.clone()),
            _ => None,
        }
    }

    fn file(&self, identity: &EvalId) -> WitnessFile {
        match self.files.borrow().get(&self.dir.path(identity)) {
            None => WitnessFile::Absent,
            Some(File::Value(v)) => WitnessFile::Value(same_value(v)),
            Some(_) => WitnessFile::Garbled,
        }
    }

    fn held(&self, identity: &EvalId) -> Result<Option<Held>, String> {
        let file = self.file(identity);
        let shape = file.rows().map(|rows| shape_of(&rows));
        DirWitness::get_with_shape(identity, &file, &shape, &self.sidecar(identity))
            .map(|found| found.map(|(rows, shape)| Held { rows: Rc::new(rows), shape }))
    }

    fn get(&self, identity: &EvalId) -> WitnessLookup {
        let file = self.file(identity);
        let shape = file.rows().map(|rows| shape_of(&rows));
        DirWitness::get(identity, &file, &shape, &self.sidecar(identity))
    }

    fn found(&self, identity: &EvalId) -> Option<Vec<WitnessRow>> {
        match self.get(identity) {
            WitnessLookup::Found(rows) => Some(rows),
            _ => None,
        }
    }

    fn missing(&self, identity: &EvalId) -> bool {
        matches!(self.get(identity), WitnessLookup::Missing)
    }

    fn refused(&self, identity: &EvalId) -> bool {
        matches!(self.get(identity), WitnessLookup::Refused(_))
    }

    fn garble(&self, identity: &EvalId) {
        self.files.borrow_mut().insert(self.dir.path(identity), File::Garbled);
    }

    fn apply(&self, op: FileOp) -> Outcome {
        let mut files = self.files.borrow_mut();
        match op {
            FileOp::Remove(name) => match files.remove(&name) {
                Some(_) => Outcome::Done,
                None => Outcome::Absent,
            },
            FileOp::Write(name, content) => {
                let file = match content {
                    Content::Value(v) => File::Value(same_value(&v)),
                    Content::Text(t) => File::Text(t),
                };
                files.insert(name, file);
                Outcome::Done
            }
            FileOp::Rename(from, to) => match files.remove(&from) {
                Some(file) => {
                    files.insert(to, file);
                    Outcome::Done
                }
                None => Outcome::Absent,
            },
        }
    }

    /// Moves a witness, but for the steps from `limit` on.
    fn move_slot(&self, from: &EvalId, to: &EvalId, limit: usize) -> MoveStage {
        let mut stage = MoveStage::RemoveWitness;
        for _ in 0..limit {
            match stage.step(&self.dir, from, to, "/cache/witness/.tmp-1-1") {
                Some(op) => stage = stage.next(self.apply(op)),
                None => break,
            }
        }
        stage
    }

    fn put_first(&self, identity: &EvalId, rows: &Vec<WitnessRow>, limit: usize) {
        for op in filing::put_steps(&self.dir, identity, rows, &shape_of(rows)).into_iter().take(limit) {
            self.apply(op);
        }
    }

    fn put_history(&self, identity: &EvalId, rows: &Vec<WitnessRow>, shape: &digest::Hash) {
        let slots: Vec<SlotFile> = (0..WITNESS_HISTORY)
            .map(|slot| {
                let id = self.slot(identity, slot);
                SlotFile {
                    is_file: self.files.borrow().contains_key(&self.dir.path(&id)),
                    sidecar: self.sidecar(&id),
                }
            })
            .collect();
        for (from, to) in history::history_moves(history::history_end(&slots, shape)) {
            let stage = self.move_slot(&self.slot(identity, from), &self.slot(identity, to), 9);
            assert_eq!(stage, MoveStage::Finished);
        }
        for op in filing::put_steps(&self.dir, identity, rows, shape) {
            self.apply(op);
        }
    }

    fn put_bytes(&self, bytes: &[u8]) -> ObjId {
        let id = object(bytes);
        self.objects.borrow_mut().insert(id.hash.to_hex(), Kept::Bytes(bytes.to_vec()));
        id
    }

    fn put_value(&self, value: &CanonValue) -> ObjId {
        let value = same_value(value);
        let id = object(format!("{value:?}").as_bytes());
        self.objects.borrow_mut().insert(id.hash.to_hex(), Kept::Value(value));
        id
    }

    fn object(&self, id: &ObjId) -> ObjectRead {
        match self.objects.borrow().get(&id.hash.to_hex()) {
            None => ObjectRead::Missing,
            Some(Kept::Bytes(_)) => ObjectRead::Found(None),
            Some(Kept::Value(v)) => ObjectRead::Found(decode_result(v)),
        }
    }

    fn row(&self, key: &digest::Hash) -> RowRead {
        match self.rows.borrow().get(&key.to_hex()) {
            None => RowRead::Missing,
            Some(id) => RowRead::Found(*id),
        }
    }

    fn given(&self, rows: &Vec<WitnessRow>) -> Given {
        let mut objects = Vec::new();
        for (question, _) in rows {
            if let Question::WriteDrv { aterm, .. } = question {
                let fetched = match self.objects.borrow().get(&aterm.hash.to_hex()) {
                    Some(Kept::Bytes(b)) => Fetched::Found(b.clone()),
                    _ => Fetched::Missing,
                };
                objects.push((*aterm, fetched));
            }
        }
        Given { objects, placeholders: TextMap::new() }
    }

    fn forget(&self, cache: &mut ResultCache, identity: &EvalId, key: &digest::Hash, why: &str) {
        cache.forget(identity, key, why);
        for slot in 0..WITNESS_HISTORY {
            for op in filing::remove_steps(&self.dir, &self.slot(identity, slot)) {
                self.apply(op);
            }
        }
        self.rows.borrow_mut().remove(&key.to_hex());
    }

    fn lookup_with(
        &self,
        cache: &mut ResultCache,
        identity: &EvalId,
        host: &World,
        settings: &Settings,
        before_object: &dyn Fn(),
    ) -> Option<EvalResult> {
        let mut none = None;
        let mut shared = self.sealed.borrow_mut();
        let memo: &mut Option<DirSealed> =
            if cache.store.is_some() { &mut shared } else { &mut none };
        let (mut lookup, mut action) = cache.lookup(identity, false);
        loop {
            let event = match action {
                LookupAction::ReadWitness(slot) => {
                    LookupEvent::Witness(self.held(&self.slot(identity, slot as usize)))
                }
                LookupAction::CompareShape(slot, shape) => LookupEvent::SameShape(
                    witness::has_shape(&self.sidecar(&self.slot(identity, slot as usize)), &shape),
                ),
                LookupAction::Replay(rows) => LookupEvent::Replayed(
                    ReadSet::replay_key_with(
                        &rows,
                        host,
                        settings,
                        &self.given(&rows),
                        memo,
                        identity,
                    )
                    .map(|key| key.map(|p| hashed(&p))),
                ),
                LookupAction::ReadRow(key) => LookupEvent::Row(self.row(&key)),
                LookupAction::ReadObject(id) => {
                    before_object();
                    LookupEvent::Object(self.object(&id))
                }
                LookupAction::Serve(result) => return Some(result),
                LookupAction::Miss => return None,
            };
            (lookup, action) = cache.step(lookup, event);
        }
    }

    fn lookup(
        &self,
        cache: &mut ResultCache,
        identity: &EvalId,
        host: &World,
        settings: &Settings,
    ) -> Option<EvalResult> {
        self.lookup_with(cache, identity, host, settings, &|| ())
    }

    fn record(
        &self,
        cache: &mut ResultCache,
        identity: &EvalId,
        reads: &ReadSet,
        result: &EvalResult,
        host: &World,
        settings: &Settings,
    ) -> Result<(), String> {
        let mut none = None;
        let mut shared = self.sealed.borrow_mut();
        let memo: &mut Option<DirSealed> =
            if cache.store.is_some() { &mut shared } else { &mut none };
        let folded = reads.fold_trees(host, settings, memo);
        let (mut recording, mut action) = cache.record(identity, reads, folded, result);
        loop {
            let event = match action {
                RecordAction::CheckAterm(expected, bytes) => {
                    let stored = match self.objects.borrow().get(&expected.hash.to_hex()) {
                        Some(Kept::Bytes(b)) => Some(b.clone()),
                        _ => None,
                    };
                    RecordEvent::Aterm(object(&bytes), stored)
                }
                RecordAction::PutAterm(bytes) => RecordEvent::Put(self.put_bytes(&bytes)),
                RecordAction::TakeKey(p) => RecordEvent::Key(hashed(&p)),
                RecordAction::ReadObject(id) => RecordEvent::Object(self.object(&id)),
                RecordAction::PutResult(value) => RecordEvent::Put(self.put_value(&value)),
                RecordAction::TakeShape(rows) => {
                    let rows: Vec<digest::Hash> = rows.iter().map(hashed).collect();
                    RecordEvent::Shape(hashed(&witness::witness_shape(&rows)))
                }
                RecordAction::PutWitness(rows, shape) => {
                    self.put_history(identity, &rows, &shape);
                    RecordEvent::WitnessPut
                }
                RecordAction::PutRow(key, output) => {
                    self.rows.borrow_mut().insert(key.to_hex(), output);
                    RecordEvent::RowPut
                }
                RecordAction::Finished => return Ok(()),
                RecordAction::Refused(why) => return Err(why),
            };
            (recording, action) = cache.record_step(recording, event);
        }
    }
}

fn shape_of(rows: &Vec<WitnessRow>) -> digest::Hash {
    let rows: Vec<digest::Hash> = witness::shape_rows(rows).iter().map(hashed).collect();
    hashed(&witness::witness_shape(&rows))
}

fn read_a(host: &World) -> ReadSet {
    let mut recorder = RecordingHost::new(host.clone());
    drop(recorder.read_file(&ambient_path("/a")));
    recorder.take()
}

fn slots_of<'a>(cache: &'a ResultCache, identity: &EvalId) -> Vec<Option<&'a Held>> {
    match cache.slots.get(&identity.as_hash().to_hex()) {
        Some(history) => history.slots.iter().map(Option::as_ref).collect(),
        None => vec![None; WITNESS_HISTORY],
    }
}

fn sealing(objects: &[&str]) -> World {
    sealing_lacking(objects, &[])
}

fn sealing_lacking(objects: &[&str], absent: &[String]) -> World {
    let objects: Vec<String> = objects.iter().map(|o| (*o).to_owned()).collect();
    let absent = absent.to_vec();
    World::new(move |w| {
        w.read_file = Box::new(|p| Ok(format!("contents of {}", p.path)));
        w.sealed = Box::new(move |o| objects.contains(&o.to_owned()));
        w.valid_paths = Box::new(move |p| !absent.contains(&p.to_owned()));
    })
}

#[test]
fn a_recorded_witness_holds_the_tree_row_and_serves_the_hit() {
    let settings = in_store();
    let world = sealing(&[OBJECT]);
    let disk = Disk::new();
    let mut cache = ResultCache::new();
    let module = id(b"module");

    let mut recorder = RecordingHost::new(world.clone());
    drop(recorder.read_file(&ambient_path(&format!("/nix/store/{OBJECT}/default.nix"))));
    drop(recorder.read_file(&ambient_path(&format!("/nix/store/{OBJECT}/lib/a.nix"))));
    disk.record(&mut cache, &module, &recorder.take(), &result("v1"), &world, &settings)
        .expect("recorded");
    let held = slots_of(&cache, &module)[0].expect("a witness");
    assert_eq!(
        questions(&held.rows),
        vec![&Question::Tree(ambient_path(&format!("/nix/store/{OBJECT}")))],
        "the witness holds one tree row"
    );

    assert_eq!(
        disk.lookup(&mut cache, &module, &world, &settings),
        Some(result("v1"))
    );
    assert_eq!(
        disk.lookup(&mut cache, &module, &sealing(&[]), &settings),
        None,
        "unsealed: a miss"
    );
}

#[test]
fn a_persistent_fold_remembers_the_sealing_and_a_lost_object_still_replays() {
    let disk = Disk::new();
    let settings = in_store();
    let module = id(b"module");
    let world = sealing(&[OBJECT]);
    let mut recorder = RecordingHost::new(world.clone());
    drop(recorder.read_file(&ambient_path(&format!("/nix/store/{OBJECT}/default.nix"))));
    disk.record(
        &mut disk.persistent(),
        &module,
        &recorder.take(),
        &result("v1"),
        &world,
        &settings,
    )
    .expect("recorded");
    assert_eq!(
        world.count("sealed_paths"),
        1,
        "the fold asked about the object once"
    );
    assert_eq!(
        disk.sealed.borrow().as_ref().expect("the record").get(OBJECT),
        Some(Vec::new()),
        "the fold recorded the sealing"
    );

    let still = sealing(&[OBJECT]);
    assert_eq!(
        disk.lookup(&mut disk.persistent(), &module, &still, &settings),
        Some(result("v1"))
    );
    assert_eq!(
        still.count("sealed_paths"),
        0,
        "the replay took the recorded sealing"
    );

    let lost = sealing_lacking(&[OBJECT], &[format!("/nix/store/{OBJECT}")]);
    assert_eq!(
        disk.lookup(&mut disk.persistent(), &module, &lost, &settings),
        Some(result("v1")),
        "the object is gone: the sealed read still replays from its record"
    );
    assert_eq!(lost.count("sealed_paths"), 0, "and asked no host for it");
}

/// A world with a lazily mounted flake input: a fetch mounts its tree at its
/// store path, and the store has the object only from then on.
fn mounting() -> World {
    let held: Rc<RefCell<Vec<String>>> = Rc::new(RefCell::new(Vec::new()));
    let (fetched, copied, realised, seals, valid) =
        (held.clone(), held.clone(), held.clone(), held.clone(), held);
    World::new(move |w| {
        w.read_file = Box::new(|p| Ok(format!("contents of {}", p.path)));
        w.copy_to_store = Box::new(move |p| {
            copied.borrow_mut().push(p.path.clone());
            Ok(p.path.clone())
        });
        w.path_exists = Box::new(|_| Ok(true));
        w.dir_exists = Box::new(|_| Ok(true));
        w.read_dir = Box::new(|_| Ok(vec![("a".to_owned(), FileType::Regular)]));
        w.realise = Box::new(move |context| {
            for elem in context {
                let ContextElem::Opaque(path) = elem else {
                    return Err(StoreError::Failed("only opaque paths here".to_owned()));
                };
                if !realised.borrow().contains(path) {
                    return Err(StoreError::Failed(format!("path '{path}' is not valid")));
                }
            }
            Ok(TextMap::new())
        });
        w.fetch_tree = Box::new(move |_| {
            let object = format!("/nix/store/{OBJECT}");
            fetched.borrow_mut().push(object.clone());
            Ok(format!("{{\"narHash\":\"sha256-AAAA\",\"outPath\":\"{object}\"}}"))
        });
        w.sealed = Box::new(move |o| seals.borrow().contains(&format!("/nix/store/{o}")));
        w.valid_paths = Box::new(move |p| valid.borrow().contains(&p.to_owned()));
    })
}

#[test]
fn a_locked_final_tree_replays_from_its_record_without_fetching() {
    let disk = Disk::new();
    let settings = in_store();
    let object = format!("/nix/store/{OBJECT}");
    let request = |fetcher: TreeFetcher, locked: bool| {
        let mut attrs = TextMap::new();
        attrs.insert("type".to_owned(), TreeAttr::Str("github".to_owned()));
        if locked {
            attrs.insert("narHash".to_owned(), TreeAttr::Str("sha256-AAAA".to_owned()));
        }
        FetchTreeRequest { attrs, fetcher }
    };
    let record = |module: &EvalId, request: &FetchTreeRequest| {
        let world = mounting();
        let mut recorder = RecordingHost::new(world.clone());
        drop(recorder.fetch_tree(request));
        drop(recorder.read_file(&ambient_path(&format!("{object}/default.nix"))));
        assert_eq!(
            recorder.realise(&vec![ContextElem::Opaque(object.clone())]),
            Ok(TextMap::new()),
            "mounted: nothing to build"
        );
        let reads = recorder.take();
        disk.record(&mut disk.persistent(), module, &reads, &result("v1"), &world, &settings)
            .expect("recorded");
    };

    let locked_final = id(b"locked final");
    record(&locked_final, &request(TreeFetcher::FinalTree, true));
    assert_eq!(
        disk.sealed.borrow().as_ref().expect("the record").get(OBJECT),
        Some(Vec::new()),
        "the fold recorded the sealing through the mount"
    );
    let rows = disk.found(&locked_final).expect("the witness was not written");
    assert!(
        matches!(
            rows.as_slice(),
            [
                (Question::FetchTree(_), Recorded::Answer(_)),
                (Question::Tree(_), _),
                (Question::Realise(_), _)
            ]
        ),
        "the fetch row with its answer kept, one tree row for the read under the object, the realisation: {rows:?}"
    );

    let fresh = mounting();
    assert_eq!(
        disk.lookup(&mut disk.persistent(), &locked_final, &fresh, &settings),
        Some(result("v1"))
    );
    assert_eq!(fresh.count("fetch_tree"), 0, "the fetch row took its record");
    assert_eq!(
        fresh.count("valid_paths"),
        1,
        "the batch for the realisation's path; the realisation stood on the served fetch's mount, so no late question"
    );

    let copied = id(b"copied tree");
    {
        let world = mounting();
        let mut recorder = RecordingHost::new(world.clone());
        drop(recorder.fetch_tree(&request(TreeFetcher::FinalTree, true)));
        let root = PathValue::new(Root::mounted(&object), &object);
        assert_eq!(
            recorder.copy_to_store(&Rc::new(root)),
            Ok(object.clone()),
            "the tree's root copies to its own path"
        );
        let reads = recorder.take();
        disk.record(&mut disk.persistent(), &copied, &reads, &result("v1"), &world, &settings)
            .expect("recorded");
    }
    let fresh = mounting();
    assert_eq!(
        disk.lookup(&mut disk.persistent(), &copied, &fresh, &settings),
        Some(result("v1"))
    );
    assert_eq!(fresh.count("fetch_tree"), 0, "the fetch row took its record");
    assert_eq!(
        fresh.count("copy_to_store"),
        1,
        "the copy row asked: the store held no object at the path the served fetch handed out"
    );
    assert_eq!(
        fresh.count("valid_paths"),
        2,
        "the batch, then the copy's path asked again at its row"
    );

    let moving = id(b"fetchTree");
    record(&moving, &request(TreeFetcher::Tree, true));
    let asked = mounting();
    assert_eq!(
        disk.lookup(&mut disk.persistent(), &moving, &asked, &settings),
        Some(result("v1")),
        "the fetch answered the same: a hit"
    );
    assert_eq!(
        asked.count("fetch_tree"),
        1,
        "a `fetchTree` row asks: its `ref` may have moved"
    );

    let unlocked = id(b"final unlocked");
    record(&unlocked, &request(TreeFetcher::FinalTree, false));
    let asked = mounting();
    assert_eq!(
        disk.lookup(&mut disk.persistent(), &unlocked, &asked, &settings),
        Some(result("v1"))
    );
    assert_eq!(
        asked.count("fetch_tree"),
        1,
        "a final tree without a `narHash` asks"
    );
}

#[test]
fn an_unversioned_persistent_witness_is_reported_as_corruption() {
    let disk = Disk::new();
    let module = mixed("legacy-module", &[b"unchanged source".to_vec()]);
    let identity = id(b"unchanged source");
    let text = |s: &str| CanonValue::Str(s.to_owned());
    let legacy = CanonValue::Table(vec![
        (text("module"), CanonValue::Bytes(module.to_vec())),
        (
            text("questions"),
            CanonValue::Array(vec![CanonValue::Array(vec![
                CanonValue::Int(10),
                text("legacy.drv"),
                text("Derive([])"),
            ])]),
        ),
    ]);
    disk.files.borrow_mut().insert(disk.dir.path(&identity), File::Value(legacy));

    let mut cache = disk.persistent();
    assert_eq!(
        disk.lookup(&mut cache, &identity, &fake(), &Settings::default()),
        None
    );
    let complaints = cache.take_corruption();
    assert_eq!(
        complaints.len(),
        1,
        "legacy row was not counted: {complaints:?}"
    );
    assert!(
        complaints[0].message.contains(&identity.as_hash().to_hex()),
        "complaint does not identify the refused row: {complaints:?}"
    );
    assert!(cache.take_corruption().is_empty());
}

#[test]
fn an_evaluator_change_cannot_hit_an_old_persistent_result() {
    let disk = Disk::new();
    let settings = Settings::default();
    let module = mixed("module", &[b"unchanged importing root".to_vec()]);
    let none = mixed("none", &[]);
    let identity = |evaluator: &str| EvalId {
        key: hashed(&EvalId::of(&module, evaluator, &none, &none, &none)),
    };
    let before = identity("evaluator-before-per-attribute-positions");
    let fixed = identity("evaluator-with-per-attribute-positions");
    let nothing = ReadSet::of_rows(Vec::new());
    disk.record(&mut disk.persistent(), &before, &nothing, &result("null"), &fake(), &settings)
        .expect("recorded");

    let mut reopened = disk.persistent();
    assert_eq!(
        disk.lookup(&mut reopened, &before, &fake(), &settings),
        Some(result("null")),
        "the control row was not persisted, so the cross-evaluator miss proves nothing"
    );
    assert_eq!(
        disk.lookup(&mut reopened, &fixed, &fake(), &settings),
        None,
        "the fixed evaluator was served the stale result recorded by its predecessor"
    );
    let refs = disk.sidecar(&before).expect("a sidecar");
    assert_eq!(
        witness::witness_refs(&refs),
        Some(Vec::new()),
        "a witness with no derivation rows names objects"
    );
}

#[test]
fn a_result_swept_between_row_and_object_is_republished() {
    let disk = Disk::new();
    let identity = id(b"compiled module rooted by a row");
    let inner = fake();
    let settings = Settings::default();
    let read_set = read_a(&inner);

    let mut cache = disk.persistent();
    disk.record(&mut cache, &identity, &read_set, &result("before sweep"), &inner, &settings)
        .expect("recorded");
    assert_eq!(
        disk.lookup_with(&mut cache, &identity, &inner, &settings, &|| {
            disk.objects.borrow_mut().clear();
            disk.rows.borrow_mut().clear();
            disk.files.borrow_mut().clear();
        }),
        None,
        "lookup served an object removed after selecting its row"
    );
    let key = hashed(&read_set.key(&identity));
    assert!(
        cache.table.get(&key.to_hex()).is_none(),
        "failed lookup retained the in-memory row for the swept object"
    );
    assert!(
        slots_of(&cache, &identity)[0].is_none(),
        "failed lookup retained the in-memory witness for the swept object"
    );

    disk.record(&mut cache, &identity, &read_set, &result("after sweep"), &inner, &settings)
        .expect("recorded");
    assert_eq!(
        disk.lookup(&mut disk.persistent(), &identity, &inner, &settings),
        Some(result("after sweep")),
        "record republished a row without restoring its object"
    );
}

#[test]
fn an_unchanged_world_serves_the_memoised_result() {
    let inner = fake();
    let disk = Disk::new();
    let mut cache = ResultCache::new();
    let module = id(b"module");
    let settings = Settings::default();
    disk.record(&mut cache, &module, &read_a(&inner), &result("v1"), &inner, &settings)
        .expect("recorded");

    assert_eq!(
        disk.lookup(&mut cache, &module, &inner, &settings),
        Some(result("v1"))
    );
    assert_eq!((cache.hits(), cache.wasted_replays()), (1, 0));
}

#[test]
fn editing_a_file_that_was_read_makes_the_lookup_miss() {
    let contents = Rc::new(Cell::new(1));
    let inner = fake_at(contents.clone());
    let disk = Disk::new();
    let mut cache = ResultCache::new();
    let module = id(b"module");
    let settings = Settings::default();
    disk.record(&mut cache, &module, &read_a(&inner), &result("v1"), &inner, &settings)
        .expect("recorded");
    assert!(disk.lookup(&mut cache, &module, &inner, &settings).is_some());

    contents.set(2);
    assert_eq!(
        disk.lookup(&mut cache, &module, &inner, &settings),
        None,
        "served a pre-edit result"
    );
}

#[test]
fn editing_a_file_that_was_not_read_still_hits() {
    let contents = Rc::new(Cell::new(1));
    let inner = fake_at(contents.clone());
    let disk = Disk::new();
    let mut cache = ResultCache::new();
    let module = id(b"module");
    let settings = Settings::default();
    let mut recorder = RecordingHost::new(inner.clone());
    drop(recorder.get_env("SET"));
    disk.record(&mut cache, &module, &recorder.take(), &result("v1"), &inner, &settings)
        .expect("recorded");

    contents.set(2);
    assert_eq!(
        disk.lookup(&mut cache, &module, &inner, &settings),
        Some(result("v1"))
    );
}

#[test]
fn reverting_an_edit_reuses_the_previous_result_row() {
    let contents = Rc::new(Cell::new(1));
    let inner = fake_at(contents.clone());
    let disk = Disk::new();
    let mut cache = ResultCache::new();
    let identity = id(b"reverted-edit");
    let settings = Settings::default();
    for (version, value) in [(1, "before"), (2, "after")] {
        contents.set(version);
        disk.record(&mut cache, &identity, &read_a(&inner), &result(value), &inner, &settings)
            .expect("recorded");
        assert_eq!(
            disk.lookup(&mut cache, &identity, &inner, &settings),
            Some(result(value))
        );
    }
    contents.set(1);
    assert_eq!(
        disk.lookup(&mut cache, &identity, &inner, &settings),
        Some(result("before"))
    );
    assert_eq!(cache.hits(), 3);
}

#[test]
fn the_module_is_part_of_the_key() {
    let inner = fake();
    let disk = Disk::new();
    let mut cache = ResultCache::new();
    let one = id(b"one");
    let other = id(b"two");
    let settings = Settings::default();
    disk.record(&mut cache, &one, &read_a(&inner), &result("from-one"), &inner, &settings)
        .expect("recorded");

    assert_eq!(
        disk.lookup(&mut cache, &one, &inner, &settings),
        Some(result("from-one"))
    );
    assert_eq!(disk.lookup(&mut cache, &other, &inner, &settings), None);
}

#[test]
fn a_stale_witness_misses_rather_than_answering_wrongly() {
    let inner = fake();
    let disk = Disk::new();
    let mut cache = ResultCache::new();
    let module = id(b"module");
    let settings = Settings::default();
    let mut recorder = RecordingHost::new(inner.clone());
    drop(recorder.read_file(&ambient_path("/a")));
    drop(recorder.read_file(&ambient_path("/missing")));
    disk.record(&mut cache, &module, &recorder.take(), &result("two-reads"), &inner, &settings)
        .expect("recorded");
    assert!(disk.lookup(&mut cache, &module, &inner, &settings).is_some());

    let both_present = World::new(|w| {
        w.read_file = Box::new(|_| Ok("present".to_owned()));
        w.path_exists = Box::new(|_| Ok(true));
    });
    assert_eq!(disk.lookup(&mut cache, &module, &both_present, &settings), None);
}

#[test]
fn recording_twice_keeps_one_row() {
    let inner = fake();
    let disk = Disk::new();
    let mut cache = ResultCache::new();
    let module = id(b"module");
    let settings = Settings::default();
    for _ in 0..2 {
        disk.record(&mut cache, &module, &read_a(&inner), &result("v1"), &inner, &settings)
            .expect("recorded");
    }
    assert_eq!(
        disk.lookup(&mut cache, &module, &inner, &settings),
        Some(result("v1"))
    );
    assert_eq!(cache.table.len(), 1);
    assert_eq!(
        slots_of(&cache, &module).iter().filter(|held| held.is_some()).count(),
        1
    );
}

/// A world whose `/selector` holds a version, and whose copies are named by it.
fn versioned(version: Rc<Cell<u8>>) -> World {
    let (read, copied) = (version.clone(), version);
    World::new(move |w| {
        w.read_file = Box::new(move |p| match p.path.as_str() {
            "/selector" => Ok(read.get().to_string()),
            other => Ok(format!("contents of {other}")),
        });
        w.path_exists = Box::new(|_| Ok(true));
        w.copy_to_store = Box::new(move |_| {
            Ok(format!("/nix/store/{}-input", copied.get().to_string().repeat(32)))
        });
    })
}

fn answer(version: u8) -> EvalResult {
    result(&version.to_string())
}

fn record_branch(disk: &Disk, cache: &mut ResultCache, identity: &EvalId, host: &World) {
    let mut recorder = RecordingHost::new(host.clone());
    let selector = recorder.read_file(&ambient_path("/selector")).expect("a version");
    recorder.read_file(&ambient_path(&format!("/branch/{selector}"))).expect("a branch");
    let version = selector.parse().expect("a number");
    disk.record(cache, identity, &recorder.take(), &answer(version), host, &Settings::default())
        .expect("recorded");
}

#[test]
fn reopened_cache_reuses_a_previous_dynamic_branch() {
    let disk = Disk::new();
    let identity = id(b"branch-revert");
    let version = Rc::new(Cell::new(1));
    let host = versioned(version.clone());
    let settings = Settings::default();
    for (at, hit) in [(1, false), (1, true), (2, false), (2, true), (1, true)] {
        version.set(at);
        let mut cache = disk.persistent();
        assert_eq!(
            disk.lookup(&mut cache, &identity, &host, &settings),
            if hit { Some(answer(at)) } else { None }
        );
        assert_eq!(cache.hits(), u64::from(hit));
        if !hit {
            record_branch(&disk, &mut disk.persistent(), &identity, &host);
        }
    }
    version.set(3);
    assert_eq!(
        disk.lookup(&mut disk.persistent(), &identity, &host, &settings),
        None
    );
}

#[test]
fn reopened_cache_reuses_reads_of_a_previous_copied_path() {
    let disk = Disk::new();
    let identity = id(b"copy-revert");
    let version = Rc::new(Cell::new(1));
    let host = versioned(version.clone());
    let settings = Settings::default();
    let mut shapes = Vec::new();
    for (at, hit) in [(1, false), (1, true), (2, false), (2, true), (1, true)] {
        version.set(at);
        let mut cache = disk.persistent();
        assert_eq!(
            disk.lookup(&mut cache, &identity, &host, &settings),
            if hit { Some(answer(at)) } else { None }
        );
        if !hit {
            let mut recorder = RecordingHost::new(host.clone());
            let copied = recorder.copy_to_store(&ambient_path("/input")).expect("copied");
            recorder.read_file(&ambient_path(&copied)).expect("read");
            let reads = recorder.take();
            shapes.push(reads.questions());
            disk.record(&mut cache, &identity, &reads, &answer(at), &host, &settings)
                .expect("recorded");
        }
    }
    assert_eq!(shapes.len(), 2, "a historical hit was evaluated again");
    assert_ne!(
        shapes.first(),
        shapes.get(1),
        "the copied path did not affect later questions"
    );
}

#[test]
fn witness_history_retains_four_distinct_shapes() {
    let disk = Disk::new();
    let identity = id(b"bounded");
    let version = Rc::new(Cell::new(1));
    let host = versioned(version.clone());
    let settings = Settings::default();
    assert_eq!(WITNESS_HISTORY, 4);
    for at in 1..=5 {
        version.set(at);
        record_branch(&disk, &mut disk.persistent(), &identity, &host);
    }
    assert_eq!(disk.files.borrow().len(), 8);
    for slot in 0..WITNESS_HISTORY {
        assert!(disk.found(&disk.slot(&identity, slot)).is_some());
    }
    for at in 2..=5 {
        version.set(at);
        assert_eq!(
            disk.lookup(&mut disk.persistent(), &identity, &host, &settings),
            Some(answer(at))
        );
    }
    version.set(1);
    assert_eq!(
        disk.lookup(&mut disk.persistent(), &identity, &host, &settings),
        None
    );
}

#[test]
fn recording_a_known_shape_does_not_displace_other_shapes() {
    let disk = Disk::new();
    let identity = id(b"deduplicated");
    let version = Rc::new(Cell::new(1));
    let host = versioned(version.clone());
    for at in [1, 2, 1, 1, 1, 1, 1, 1] {
        version.set(at);
        record_branch(&disk, &mut disk.persistent(), &identity, &host);
    }
    assert_eq!(
        disk.files.borrow().len(),
        4,
        "repeated shapes consumed history slots"
    );
    version.set(2);
    assert_eq!(
        disk.lookup(&mut disk.persistent(), &identity, &host, &Settings::default()),
        Some(answer(2))
    );
}

#[test]
fn a_newest_hit_does_not_read_a_corrupt_older_witness() {
    let disk = Disk::new();
    let identity = id(b"lazy");
    let version = Rc::new(Cell::new(1));
    let host = versioned(version.clone());
    for at in [1, 2] {
        version.set(at);
        record_branch(&disk, &mut disk.persistent(), &identity, &host);
    }
    let older = disk.slot(&identity, 1);
    assert!(
        disk.files.borrow().contains_key(&disk.dir.path(&older)),
        "no older witness was persisted"
    );
    disk.garble(&older);
    let mut cache = disk.persistent();
    assert_eq!(
        disk.lookup(&mut cache, &identity, &host, &Settings::default()),
        Some(answer(2))
    );
    assert!(
        cache.take_corruption().is_empty(),
        "newest hit decoded an irrelevant older witness"
    );
    assert!(matches!(disk.file(&older), WitnessFile::Garbled));
}

#[test]
fn forgetting_a_served_result_removes_every_witness_slot() {
    let disk = Disk::new();
    let identity = id(b"forget");
    let version = Rc::new(Cell::new(1));
    let host = versioned(version.clone());
    let settings = Settings::default();
    for at in 1..=4 {
        version.set(at);
        record_branch(&disk, &mut disk.persistent(), &identity, &host);
    }
    let mut cache = disk.persistent();
    version.set(2);
    assert_eq!(
        disk.lookup(&mut cache, &identity, &host, &settings),
        Some(answer(2))
    );
    let key = cache.served_key().expect("a hit did not expose its served key");
    disk.forget(&mut cache, &identity, &key, "test consumer rejected the answer");
    assert_eq!(cache.served_key(), None);
    assert_eq!(
        cache.take_corruption(),
        vec![Complaint::warning(
            "a memoised answer was rejected by its consumer (test consumer rejected the answer); forgetting it and re-evaluating".to_owned()
        )]
    );
    for slot in 0..WITNESS_HISTORY {
        let slot = disk.slot(&identity, slot);
        assert!(disk.missing(&slot));
        assert_eq!(disk.sidecar(&slot), None);
    }
    for at in 1..=4 {
        version.set(at);
        assert_eq!(
            disk.lookup(&mut cache, &identity, &host, &settings),
            None,
            "in-memory history survived forget"
        );
        assert_eq!(
            disk.lookup(&mut disk.persistent(), &identity, &host, &settings),
            None,
            "persistent history survived forget"
        );
    }
}

fn derivation_witness(aterm: ObjId) -> Vec<WitnessRow> {
    vec![(
        Question::WriteDrv {
            name: "history".to_owned(),
            answer: WriteDrvAnswer::Written("/nix/store/history.drv".to_owned()),
            aterm,
        },
        Recorded::Digest(Digest::Known(digest::Hash::from_bytes([0; 32]))),
    )]
}

#[test]
fn a_move_that_is_cut_short_leaves_no_witness_beside_another_ones_file() {
    for stop in 0..=3usize {
        let disk = Disk::new();
        let from = id(b"move-source");
        let to = id(b"move-destination");
        let source = derivation_witness(disk.put_bytes(b"Derive([], move-source)"));
        let replaced = derivation_witness(disk.put_bytes(b"Derive([], move-destination)"));
        disk.put_first(&from, &source, 3);
        disk.put_first(&to, &replaced, 3);
        assert_eq!(disk.found(&to), Some(replaced));

        disk.move_slot(&from, &to, 2 + stop);
        if stop == 0 {
            assert_eq!(disk.found(&from).as_ref(), Some(&source));
        } else {
            assert!(disk.missing(&from), "cut short at {stop}");
        }
        if stop == 3 {
            assert_eq!(disk.found(&to).as_ref(), Some(&source));
        } else {
            assert!(disk.missing(&to), "cut short at {stop}");
        }
    }
}

#[test]
fn a_put_that_is_cut_short_never_pairs_an_old_body_with_new_refs() {
    for stop in 0..=2usize {
        let disk = Disk::new();
        let identity = id(b"replace");
        let old = derivation_witness(disk.put_bytes(b"Derive([], old-body)"));
        let replacement = derivation_witness(disk.put_bytes(b"Derive([], new-body)"));
        disk.put_first(&identity, &old, 3);
        assert_eq!(disk.found(&identity), Some(old));

        disk.put_first(&identity, &replacement, stop + 1);
        if stop == 2 {
            assert_eq!(disk.found(&identity).as_ref(), Some(&replacement));
        } else {
            assert!(disk.missing(&identity), "cut short at {stop}");
        }
    }
}

#[test]
fn a_move_without_a_sidecar_drops_the_witness_and_one_that_fails_says_so() {
    let disk = Disk::new();
    let (from, to) = (id(b"from"), id(b"to"));
    disk.put_first(&from, &derivation_witness(disk.put_bytes(b"x")), 3);
    disk.apply(FileOp::Remove(disk.dir.refs_path(&from)));
    assert_eq!(disk.move_slot(&from, &to, 9), MoveStage::Finished);
    assert!(disk.files.borrow().is_empty());
    assert_eq!(
        MoveStage::TakeRefs.next(Outcome::Failed).next(Outcome::Done),
        MoveStage::Failed
    );
    assert_eq!(MoveStage::PlaceWitness.next(Outcome::Failed), MoveStage::Abandon);
    assert_eq!(MoveStage::RemoveWitness.next(Outcome::Failed), MoveStage::Failed);
    assert_eq!(MoveStage::TakeWitness.next(Outcome::Absent), MoveStage::Finished);
}

#[test]
fn a_corrupt_newest_witness_falls_through_to_healthy_history() {
    let disk = Disk::new();
    let identity = id(b"corrupt-newest");
    let version = Rc::new(Cell::new(1));
    let host = versioned(version.clone());
    let settings = Settings::default();
    for at in [1, 2] {
        version.set(at);
        record_branch(&disk, &mut disk.persistent(), &identity, &host);
    }
    assert_eq!(
        disk.lookup(&mut disk.persistent(), &identity, &host, &settings),
        Some(answer(2))
    );
    disk.garble(&identity);
    assert!(disk.refused(&identity));
    version.set(1);
    let mut cache = disk.persistent();
    assert_eq!(
        disk.lookup(&mut cache, &identity, &host, &settings),
        Some(answer(1))
    );
    assert_eq!(cache.hits(), 1);
    assert!(
        !cache.take_corruption().is_empty(),
        "the corrupt newest candidate was silently ignored"
    );

    version.set(2);
    assert_eq!(
        disk.lookup(&mut disk.persistent(), &identity, &host, &settings),
        None,
        "a corrupt candidate was served"
    );
}

#[test]
fn a_restored_history_hit_keeps_one_payload_and_reuses_it_without_decoding() {
    let disk = Disk::new();
    let identity = id(b"preferred-reuse");
    let version = Rc::new(Cell::new(1));
    let host = versioned(version.clone());
    let settings = Settings::default();
    let mut cache = disk.persistent();
    for (at, hit) in [(1, false), (1, true), (2, false), (2, true), (1, true)] {
        version.set(at);
        let wasted_before = cache.wasted_replays();
        assert_eq!(
            disk.lookup(&mut cache, &identity, &host, &settings),
            if hit { Some(answer(at)) } else { None }
        );
        if hit {
            assert_eq!(
                cache.wasted_replays(),
                wasted_before,
                "a recovered history hit counted as wasted evaluation"
            );
        } else {
            cache.note_miss(&identity);
            record_branch(&disk, &mut cache, &identity, &host);
        }
    }
    assert_eq!(
        cache.wasted_replays(),
        1,
        "only the unseen B state required wasted replay"
    );
    let cached: Vec<usize> = (0..WITNESS_HISTORY)
        .filter(|slot| slots_of(&cache, &identity)[*slot].is_some())
        .collect();
    assert_eq!(
        cached.len(),
        1,
        "persistent cache retained multiple decoded history payloads"
    );
    disk.garble(&disk.slot(&identity, cached[0]));
    assert!(cache.take_corruption().is_empty());
    host.forget();

    assert_eq!(
        disk.lookup(&mut cache, &identity, &host, &settings),
        Some(answer(1))
    );
    assert_eq!(
        host.log().iter().filter(|l| l.as_str() == "read_file /selector").count(),
        1,
        "repeated A replayed another history candidate"
    );
    assert!(
        cache.take_corruption().is_empty(),
        "repeated A decoded its corrupted disk body"
    );
    assert_eq!(cache.wasted_replays(), 1);
    assert_eq!(
        slots_of(&cache, &identity).iter().filter(|held| held.is_some()).count(),
        1
    );
}

#[test]
fn a_missing_result_object_counts_one_wasted_replay_when_the_miss_is_noted() {
    let disk = Disk::new();
    let identity = id(b"object-miss-count");
    let host = versioned(Rc::new(Cell::new(1)));
    let settings = Settings::default();
    let mut cache = disk.persistent();
    record_branch(&disk, &mut cache, &identity, &host);
    assert_eq!(
        disk.lookup(&mut cache, &identity, &host, &settings),
        Some(answer(1))
    );
    let key = cache.served_key().expect("control hit has no served key");
    let output = *cache.table.get(&key.to_hex()).expect("control row absent from memory");
    disk.objects.borrow_mut().remove(&output.hash.to_hex());

    assert_eq!(disk.lookup(&mut cache, &identity, &host, &settings), None);
    assert!(
        !cache.take_corruption().is_empty(),
        "missing object did not reach the failure path"
    );
    assert_eq!(
        cache.wasted_replays(),
        0,
        "lookup counted a miss before the consumer reported it"
    );
    cache.note_miss(&identity);
    assert_eq!(
        cache.wasted_replays(),
        1,
        "object failure was lost or counted twice"
    );
}

#[test]
fn another_process_rotating_history_does_not_hide_the_replaced_cached_slot() {
    for rotations in [1, 2] {
        let disk = Disk::new();
        let identity = id(b"external-rotation");
        let version = Rc::new(Cell::new(1));
        let host = versioned(version.clone());
        let settings = Settings::default();
        let mut first_process = disk.persistent();
        record_branch(&disk, &mut first_process, &identity, &host);
        assert_eq!(
            disk.lookup(&mut first_process, &identity, &host, &settings),
            Some(answer(1))
        );
        assert!(slots_of(&first_process, &identity)[0].is_some());

        for at in 2..=(rotations + 1) {
            version.set(at);
            record_branch(&disk, &mut disk.persistent(), &identity, &host);
        }
        version.set(2);
        assert_eq!(
            disk.lookup(&mut first_process, &identity, &host, &settings),
            Some(answer(2)),
            "cached A hid B after another process replaced slot zero or rotated B to slot one"
        );
        assert_eq!(first_process.wasted_replays(), 0);
        assert!(first_process.take_corruption().is_empty());
    }
}

#[test]
fn recipe_fingerprint_includes_retained_derivation_answers() {
    let disk = Disk::new();
    let identity = id(b"retained-answer");
    let aterm = disk.put_bytes(b"Derive([], retained-answer)");
    let original = derivation_witness(aterm);
    disk.put_first(&identity, &original, 3);
    let mut distinct_shapes = vec![shape_of(&original)];
    for answer in [
        WriteDrvAnswer::Written("/nix/store/another.drv".to_owned()),
        WriteDrvAnswer::Failed { outcome: "failed".to_owned(), detail: "first".to_owned() },
        WriteDrvAnswer::Failed { outcome: "failed".to_owned(), detail: "second".to_owned() },
        WriteDrvAnswer::Failed { outcome: "unavailable".to_owned(), detail: "first".to_owned() },
    ] {
        let mut changed = derivation_witness(aterm);
        changed[0].0 = Question::WriteDrv { name: "history".to_owned(), answer, aterm };
        let shape = shape_of(&changed);
        assert!(
            !distinct_shapes.contains(&shape),
            "a retained answer field was omitted"
        );
        distinct_shapes.push(shape);
        let value = same_value(&witness::witness_value(&changed));
        assert_eq!(witness::witness_rows(&value), Some(changed));
        disk.files.borrow_mut().insert(disk.dir.path(&identity), File::Value(value));
        assert!(disk.refused(&identity));
    }
}

#[test]
fn a_derivation_is_stored_once_and_its_bytes_are_checked() {
    let disk = Disk::new();
    let identity = id(b"aterms");
    let world = World::new(|w| w.write_derivation = Box::new(|_| Ok("/nix/store/a.drv".to_owned())));
    let settings = Settings::default();
    let mut recorder = RecordingHost::new(world.clone());
    let aterm = "Derive([])";
    drop(recorder.write_derivation("a", aterm, &object(aterm.as_bytes())));
    let reads = recorder.take();
    disk.record(&mut disk.persistent(), &identity, &reads, &result("v"), &world, &settings)
        .expect("recorded");
    assert!(disk.objects.borrow().contains_key(&object(aterm.as_bytes()).hash.to_hex()));
    assert_eq!(
        witness::witness_refs(&disk.sidecar(&identity).expect("a sidecar")),
        Some(vec![object(aterm.as_bytes()).hash.to_hex()])
    );

    let mut recorder = RecordingHost::new(world.clone());
    let wrong = object(b"other bytes");
    drop(recorder.write_derivation("a", aterm, &wrong));
    let reads = recorder.take();
    assert_eq!(
        disk.record(&mut disk.persistent(), &identity, &reads, &result("v"), &world, &settings),
        Err(format!(
            "ATerm bytes do not hash to their recorded address {}",
            wrong.hash.to_hex()
        ))
    );
}

#[test]
fn a_store_that_renames_a_derivation_is_refused() {
    let mut cache = ResultCache::new();
    let world = World::new(|w| w.write_derivation = Box::new(|_| Ok("/nix/store/a.drv".to_owned())));
    let mut recorder = RecordingHost::new(world);
    let right = object(b"Derive([])");
    drop(recorder.write_derivation("a", "Derive([])", &right));
    let reads = recorder.take();
    let folded = Folded { rows: Vec::new(), rows_folded: 0 };
    let (recording, action) = cache.record(&id(b"m"), &reads, folded, &result("v"));
    assert!(matches!(action, RecordAction::CheckAterm(i, _) if i == right));
    let (recording, action) = cache.record_step(recording, RecordEvent::Aterm(right, None));
    assert!(matches!(action, RecordAction::PutAterm(b) if b == b"Derive([])"));
    let other = object(b"other");
    let (_, action) = cache.record_step(recording, RecordEvent::Put(other));
    let said = format!(
        "CAS returned {} after storing ATerm {}",
        other.hash.to_hex(),
        right.hash.to_hex()
    );
    assert!(matches!(action, RecordAction::Refused(why) if why == said));
}

#[test]
fn a_repairing_lookup_finds_nothing() {
    let inner = fake();
    let disk = Disk::new();
    let mut cache = ResultCache::new();
    let module = id(b"module");
    disk.record(&mut cache, &module, &read_a(&inner), &result("v1"), &inner, &Settings::default())
        .expect("recorded");
    assert!(matches!(cache.lookup(&module, true).1, LookupAction::Miss));
    assert!(matches!(cache.lookup(&module, false).1, LookupAction::Replay(_)));
}

#[test]
fn a_retained_witness_is_read_without_the_disk() {
    let disk = Disk::new();
    let identity = id(b"retained");
    let host = versioned(Rc::new(Cell::new(1)));
    let settings = Settings::default();
    let mut cache = disk.persistent().with_retained(Some(Retained::new(1 << 20, 8)));
    record_branch(&disk, &mut cache, &identity, &host);
    assert_eq!(
        disk.lookup(&mut cache, &identity, &host, &settings),
        Some(answer(1))
    );
    let retained = cache.retained.take();
    let mut next = disk.persistent().with_retained(retained);
    disk.garble(&identity);
    assert_eq!(
        disk.lookup(&mut next, &identity, &host, &settings),
        Some(answer(1))
    );
    assert!(next.take_corruption().is_empty());
}

#[test]
fn one_in_so_many_hits_is_verified() {
    let mut cache = ResultCache::new();
    assert!(!cache.should_verify());
    cache.set_verify_rate(1);
    for _ in 0..8 {
        assert!(cache.should_verify());
    }
    cache.set_verify_rate(4);
    cache.set_verify_state(1);
    let first: Vec<bool> = (0..32).map(|_| cache.should_verify()).collect();
    assert!(first.contains(&true) && first.contains(&false));
    cache.set_verify_state(1);
    let again: Vec<bool> = (0..32).map(|_| cache.should_verify()).collect();
    assert_eq!(first, again);
    assert_ne!(cache.verify_state(), 1);
}

#[test]
fn what_the_verifier_found_is_counted_and_said() {
    let mut cache = ResultCache::new();
    let identity = id(b"verified");
    let hex = identity.as_hash().to_hex();
    cache.note_hit_verified();
    cache.note_record_replayable(true, &identity);
    assert!(cache.take_corruption().is_empty());
    cache.note_hit_disagreed(&identity, "old", "new");
    cache.note_record_replayable(false, &identity);
    let complaints = cache.take_corruption();
    assert_eq!(
        cache.verifier_counts(),
        VerifierCounts {
            hits_checked: 2,
            hits_disagreed: 1,
            records_checked: 2,
            records_not_replayable: 1,
        }
    );
    assert_eq!(complaints.len(), 2);
    for complaint in &complaints {
        assert!(complaint.message.contains(&hex), "{complaint:?}");
    }
    assert_eq!(complaints[0].severity, Severity::Error);
    assert!(complaints[0].message.contains("old") && complaints[0].message.contains("new"));
    assert!(complaints[0].to_string().starts_with("error: "));
}

#[test]
fn a_sweep_that_fails_is_a_warning() {
    assert_eq!(sweep_complaint(Ok(())), None);
    let said = sweep_complaint(Err("disk full".to_owned())).expect("a complaint");
    assert_eq!(said.severity, Severity::Warning);
    assert!(said.message.contains("disk full"), "{said:?}");
    let mut cache = ResultCache::new();
    cache.note_sweep(Ok(()));
    assert!(cache.take_corruption().is_empty());
    cache.note_sweep(Err("disk full".to_owned()));
    cache.note_record_failure("no room".to_owned());
    let complaints = cache.take_corruption();
    assert_eq!(complaints[0], said);
    assert_eq!(complaints[1].to_string(), "warning: no room");
}

#[test]
fn a_row_the_store_refuses_and_an_object_that_is_damaged_are_said() {
    let disk = Disk::new();
    let identity = id(b"damaged");
    let host = versioned(Rc::new(Cell::new(1)));
    record_branch(&disk, &mut disk.persistent(), &identity, &host);
    let outcomes: Vec<(RowRead, Option<ObjectRead>)> = vec![
        (RowRead::Missing, None),
        (RowRead::Refused("bad row".to_owned()), None),
        (RowRead::Found(object(b"o")), Some(ObjectRead::Missing)),
        (RowRead::Found(object(b"o")), Some(ObjectRead::Corrupt)),
        (RowRead::Found(object(b"o")), Some(ObjectRead::Failed("io".to_owned()))),
        (RowRead::Found(object(b"o")), Some(ObjectRead::Found(None))),
    ];
    let mut said = Vec::new();
    for (row, read) in outcomes {
        let mut cache = disk.persistent();
        let (lookup, action) = cache.lookup(&identity, false);
        assert!(matches!(action, LookupAction::ReadWitness(0)));
        let (lookup, action) = cache.step(lookup, LookupEvent::Witness(disk.held(&identity)));
        assert!(matches!(action, LookupAction::Replay(_)));
        let key = mixed("a key", &[]);
        let (lookup, action) = cache.step(lookup, LookupEvent::Replayed(Ok(Some(key))));
        assert!(matches!(action, LookupAction::ReadRow(k) if k == key));
        let (lookup, action) = cache.step(lookup, LookupEvent::Row(row));
        let (mut lookup, mut action) = match read {
            Some(read) => {
                assert!(matches!(action, LookupAction::ReadObject(_)));
                cache.step(lookup, LookupEvent::Object(read))
            }
            None => (lookup, action),
        };
        loop {
            (lookup, action) = match action {
                LookupAction::ReadWitness(_) => cache.step(lookup, LookupEvent::Witness(Ok(None))),
                LookupAction::CompareShape(_, _) => cache.step(lookup, LookupEvent::SameShape(true)),
                LookupAction::Miss => break,
                _ => unreachable!("nothing else is asked for"),
            };
        }
        said.push(cache.take_corruption());
        assert_eq!(cache.hits(), 0);
    }
    assert!(said[0].is_empty(), "a missing row is a miss like any other");
    for (complaints, what) in said[1..].iter().zip(["bad row", "", "", "io", ""]) {
        assert_eq!(complaints.len(), 1, "{complaints:?}");
        assert!(complaints[0].message.contains(what), "{complaints:?}");
    }
}

#[test]
fn a_replay_that_fails_is_a_miss_that_says_why() {
    let inner = fake();
    let disk = Disk::new();
    let mut cache = ResultCache::new();
    let module = id(b"module");
    disk.record(&mut cache, &module, &read_a(&inner), &result("v1"), &inner, &Settings::default())
        .expect("recorded");
    let (lookup, action) = cache.lookup(&module, false);
    assert!(matches!(action, LookupAction::Replay(_)));
    let aterm = object(b"gone");
    let (mut lookup, mut action) =
        cache.step(lookup, LookupEvent::Replayed(Err(ReplayFailure::MissingAterm(aterm))));
    while !matches!(action, LookupAction::Miss) {
        (lookup, action) = cache.step(lookup, LookupEvent::Witness(Ok(None)));
    }
    let complaints = cache.take_corruption();
    assert_eq!(complaints.len(), 1);
    assert!(
        complaints[0].message.contains(&format!(
            "ATerm object {} named by an evaluation witness is absent",
            aterm.hash.to_hex()
        )),
        "{complaints:?}"
    );
}

#[test]
fn each_failure_of_a_replay_is_said_in_words() {
    let id = object(b"x");
    let hex = id.hash.to_hex();
    let refusal = StoreError::Failed("no \"room\"".to_owned());
    for (failure, said) in [
        (
            ReplayFailure::MissingAterm(id),
            format!("ATerm object {hex} named by an evaluation witness is absent"),
        ),
        (
            ReplayFailure::CorruptAterm(id),
            format!(
                "ATerm object {hex} named by an evaluation witness does not hash to its address"
            ),
        ),
        (
            ReplayFailure::InvalidAterm(id),
            format!("ATerm object {hex} named by an evaluation witness is not UTF-8"),
        ),
        (
            ReplayFailure::Cas { aterm: id, error: "io".to_owned() },
            format!("could not read ATerm object {hex} named by an evaluation witness: io"),
        ),
        (
            ReplayFailure::DrvPathMismatch {
                expected: "a\"b".to_owned(),
                written: "c\nd".to_owned(),
            },
            "replaying a derivation write produced \"c\\nd\", expected \"a\\\"b\"".to_owned(),
        ),
        (
            ReplayFailure::WriteDrv { drv_path: "p".to_owned(), refusal: refusal.clone() },
            format!("replaying derivation write for \"p\" failed: {refusal:?}"),
        ),
    ] {
        assert_eq!(show_replay_failure(&failure), said);
    }
}

#[test]
fn a_read_under_a_sealed_store_object_replays_from_the_record_once_the_object_is_known() {
    let object = "00000000000000000000000000000000-source";
    let store = |sealed: &[&str]| {
        let sealed: Vec<String> = sealed.iter().map(|o| (*o).to_owned()).collect();
        World::new(move |w| {
            w.read_dir = Box::new(|_| Ok(vec![("a".to_owned(), FileType::Regular)]));
            w.sealed = Box::new(move |o| sealed.contains(&o.to_owned()));
            w.valid_paths = Box::new(|_| true);
        })
    };
    let listed = |world: &World| -> Vec<String> {
        world
            .log()
            .iter()
            .filter_map(|l| l.strip_prefix("read_dir ").map(str::to_owned))
            .collect()
    };
    let rows = rows_of(vec![
        Question::ReadDir(ambient_path(&format!("/nix/store/{object}/lib"))),
        Question::ReadDir(ambient_path("/etc/lib")),
    ]);
    let settings = in_store();
    let mut memo = Some(DirSealed::open(DirRecords::new()));

    let sealing = store(&[object]);
    assert!(ReadSet::replay_with(&rows, &sealing, &settings, &nothing_given(), &mut memo)
        .expect("replay")
        .is_some());
    assert_eq!(
        sealing.count("sealed_paths"),
        1,
        "the object under which a row reads is asked about, once"
    );
    assert_eq!(
        listed(&sealing),
        vec!["/etc/lib".to_owned()],
        "only the listing outside the sealed object is asked again"
    );
    assert_eq!(
        memo.as_ref().expect("the record").get(object),
        Some(Vec::new()),
        "a sealed object is recorded, with no link leaving it"
    );

    let remembering = store(&[object]);
    assert!(ReadSet::replay_with(&rows, &remembering, &settings, &nothing_given(), &mut memo)
        .expect("replay")
        .is_some());
    assert_eq!(
        remembering.count("sealed_paths"),
        0,
        "a recorded object is never asked about again"
    );
    assert_eq!(listed(&remembering), vec!["/etc/lib".to_owned()]);

    let refusing = store(&[]);
    assert!(ReadSet::replay(&rows, &refusing, &settings, &nothing_given())
        .expect("replay")
        .is_some());
    assert_eq!(
        listed(&refusing),
        vec![format!("/nix/store/{object}/lib"), "/etc/lib".to_owned()],
        "under an object the embedder does not call sealed every read asks"
    );

    let unplaced = store(&[object]);
    assert!(ReadSet::replay(&rows, &unplaced, &Settings::default(), &nothing_given())
        .expect("replay")
        .is_some());
    assert_eq!(
        unplaced.count("sealed_paths"),
        0,
        "with no store directory no path lies in a store object"
    );
    assert_eq!(listed(&unplaced).len(), 2);
}

#[test]
fn an_object_the_host_declines_is_asked_about_once_per_handle() {
    let host = World::new(|w| {
        w.read_dir = Box::new(|_| Ok(vec![("a".to_owned(), FileType::Regular)]));
        w.valid_paths = Box::new(|_| true);
    });
    let object = "00000000000000000000000000000000-cargo-vendor-dir";
    let mut single = DirSealed::open(DirRecords::new());
    assert_eq!(copies::seal_one(object, &host, &mut single), None);
    assert_eq!(copies::seal_one(object, &host, &mut single), None);
    assert_eq!(
        host.count("sealed_paths"),
        1,
        "the second single question is answered from the declined set"
    );

    let rows = rows_of(vec![Question::ReadDir(ambient_path(&format!("/nix/store/{object}/lib")))]);
    let settings = in_store();
    let mut memo = Some(single);
    let replay = |memo: &mut Option<DirSealed>| {
        assert!(ReadSet::replay_with(&rows, &host, &settings, &nothing_given(), memo).is_ok());
    };
    replay(&mut memo);
    assert_eq!(
        host.count("sealed_paths"),
        1,
        "the batch question consults the same set"
    );

    let mut fresh = Some(DirSealed::open(DirRecords::new()));
    replay(&mut fresh);
    assert_eq!(
        host.count("sealed_paths"),
        2,
        "a second handle has its own set: it asks once"
    );
    replay(&mut fresh);
    assert_eq!(host.count("sealed_paths"), 2, "and fills it");

    let record = memo.as_mut().expect("the record");
    assert!(record.declined(object));
    record.insert(object, &Vec::new());
    assert!(
        !record.declined(object),
        "inserting a record leaves the declined state"
    );
    assert_eq!(record.get(object), Some(Vec::new()));
    replay(&mut memo);
    assert_eq!(
        host.count("sealed_paths"),
        2,
        "served from the record, not asked"
    );
}
