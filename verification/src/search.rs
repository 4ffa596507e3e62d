//! The catalogue of packages, and searching in it.
use vstd::prelude::*;
use crate::json;
use crate::json::{Cell, Doc, DocV, Field, FieldV, Row, RowV};
use crate::model;
use crate::model::Plain;
use crate::ordered;
use crate::ordered::TextMap;
use crate::pattern;
use crate::ranges;
use crate::ranges::Ranges;
use crate::terminal;
use crate::text;

verus! {

/// A package, by what is searched and shown of it.
#[derive(Debug, PartialEq, Eq)]
pub struct Package {
    pub path: String,
    pub pname: String,
    pub version: String,
    pub description: String,
}

/// The model of [`Package`].
#[verifier::ext_equal]
pub struct PackageV {
    pub path: Seq<char>,
    pub pname: Seq<char>,
    pub version: Seq<char>,
    pub description: Seq<char>,
}

impl View for Package {
    type V = PackageV;

    open spec fn view(&self) -> PackageV {
        PackageV {
            path: self.path@,
            pname: self.pname@,
            version: self.version@,
            description: self.description@,
        }
    }
}

impl DeepView for Package {
    type V = PackageV;

    open spec fn deep_view(&self) -> PackageV {
        self@
    }
}

impl Clone for Package {
    fn clone(&self) -> (r: Self)
        ensures
            r@ == self@,
    {
        self.copied()
    }
}

impl Plain for Package {
    fn copied(&self) -> (r: Self) {
        Package {
            path: self.path.copied(),
            pname: self.pname.copied(),
            version: self.version.copied(),
            description: self.description.copied(),
        }
    }

    fn same(&self, other: &Self) -> (r: bool) {
        let s0 = self.path.same(&other.path);
        let s1 = self.pname.same(&other.pname);
        let s2 = self.version.same(&other.version);
        let s3 = self.description.same(&other.description);
        s0 && s1 && s2 && s3
    }
}

/// Packages by path, in order.
pub type PackagesV = Seq<(Seq<char>, PackageV)>;

/// The packages, by path.
#[derive(Debug, PartialEq, Eq)]
pub struct Catalogue {
    pub packages: TextMap<Package>,
}

impl View for Catalogue {
    type V = PackagesV;

    open spec fn view(&self) -> PackagesV {
        self.packages@
    }
}

impl DeepView for Catalogue {
    type V = PackagesV;

    open spec fn deep_view(&self) -> PackagesV {
        self@
    }
}

/// An ASCII letter.
pub open spec fn is_letter(c: char) -> bool {
    ('a' <= c <= 'z') || ('A' <= c <= 'Z')
}

/// Where a name ends and its version begins, from `i` on: at the first hyphen
/// that something other than a letter follows; at the end where there is none.
pub open spec fn version_at(name: Seq<char>, i: int) -> int
    decreases name.len() - i,
{
    if i + 1 >= name.len() {
        name.len() as int
    } else if name[i] == '-' && !is_letter(name[i + 1]) {
        i
    } else {
        version_at(name, i + 1)
    }
}

/// The package's name in a derivation's name.
pub open spec fn pname_of(name: Seq<char>) -> Seq<char> {
    name.take(version_at(name, 0))
}

/// The version in a derivation's name.
pub open spec fn version_of(name: Seq<char>) -> Seq<char> {
    if version_at(name, 0) < name.len() {
        name.skip(version_at(name, 0) + 1)
    } else {
        Seq::empty()
    }
}

proof fn version_at_within(name: Seq<char>, i: int)
    requires
        0 <= i <= name.len(),
    ensures
        i <= version_at(name, i) <= name.len(),
        version_at(name, i) < name.len() ==> name[version_at(name, i)] == '-',
    decreases name.len() - i,
{
    if i + 1 < name.len() && !(name[i] == '-' && !is_letter(name[i + 1])) {
        version_at_within(name, i + 1);
    }
}

/// A name is its package's name and, after a hyphen, its version.
pub proof fn a_name_is_put_together_again(name: Seq<char>)
    ensures
        name == (if version_at(name, 0) < name.len() {
            pname_of(name) + "-"@ + version_of(name)
        } else {
            pname_of(name)
        }),
{
    version_at_within(name, 0);
    reveal_strlit("-");
    if version_at(name, 0) < name.len() {
        assert(name =~= pname_of(name) + "-"@ + version_of(name));
    } else {
        assert(name =~= pname_of(name));
    }
}

/// A derivation's name as a package's name and version.
pub fn split_name(name: &str) -> (r: (String, String))
    ensures
        r.0@ == pname_of(name@),
        r.1@ == version_of(name@),
{
    let c = text::chars(name);
    let mut i: usize = 0;
    let mut at: usize = c.len();
    while i < c.len() && i + 1 < c.len()
        invariant_except_break
            i <= c.len(),
            c@ == name@,
            at == c.len(),
            version_at(name@, 0) == version_at(name@, i as int),
        ensures
            at <= c.len(),
            at == version_at(name@, 0),
        decreases c.len() - i,
    {
        let next = c[i + 1];
        let letter = ('a' <= next && next <= 'z') || ('A' <= next && next <= 'Z');
        if c[i] == '-' && !letter {
            at = i;
            break ;
        }
        i += 1;
    }
    let pname = text::spell(&c, 0, at);
    assert(pname@ =~= pname_of(name@));
    let version = if at < c.len() {
        text::spell(&c, at + 1, c.len())
    } else {
        String::new()
    };
    assert(version@ =~= version_of(name@));
    (pname, version)
}

/// The package of a path, a derivation's name and a description.
pub open spec fn package_of(path: Seq<char>, name: Seq<char>, description: Seq<char>) -> PackageV {
    PackageV { path, pname: pname_of(name), version: version_of(name), description }
}

/// A package as a row.
pub open spec fn row_of(p: PackageV) -> RowV {
    Some(seq![Some(p.path), Some(p.pname), Some(p.version), Some(p.description)])
}

/// The catalogue as a document.
pub open spec fn doc_of(c: PackagesV) -> DocV {
    Some(
        seq![
            ("packages"@, FieldV::Rows(Seq::new(c.len(), |i: int| row_of(c[i].1)))),
            ("version"@, FieldV::Number(Some(1u64))),
        ],
    )
}

/// The package in a row.
pub open spec fn package_read(row: RowV) -> Result<PackageV, Seq<char>> {
    match row {
        None => Err("invalid search package row"@),
        Some(c) => if c.len() != 4 {
            Err("invalid search package fields"@)
        } else {
            match (c[0], c[1], c[2], c[3]) {
                (Some(path), Some(pname), Some(version), Some(description)) => Ok(
                    PackageV { path, pname, version, description },
                ),
                _ => Err("search package field must be a string"@),
            }
        },
    }
}

/// The packages in the first `n` rows, whose paths must be in order.
pub open spec fn packages_read(rows: Seq<RowV>, n: int) -> Result<PackagesV, Seq<char>>
    decreases n,
{
    if n <= 0 {
        Ok(Seq::empty())
    } else {
        match packages_read(rows, n - 1) {
            Err(e) => Err(e),
            Ok(found) => match package_read(rows[n - 1]) {
                Err(e) => Err(e),
                Ok(p) => if found.len() > 0 && !text::lt(found.last().0, p.path) {
                    Err("search package paths must be unique and sorted"@)
                } else {
                    Ok(found.push((p.path, p)))
                },
            },
        }
    }
}

/// The version in a document.
pub open spec fn version_read(doc: DocV) -> Option<u64> {
    match json::field_of(doc, "version"@) {
        Some(FieldV::Number(n)) => n,
        _ => None,
    }
}

/// The rows of packages in a document.
pub open spec fn rows_in(doc: DocV) -> Option<Seq<RowV>> {
    match json::field_of(doc, "packages"@) {
        Some(FieldV::Rows(rows)) => Some(rows),
        _ => None,
    }
}

/// The catalogue in a document.
pub open spec fn catalogue_read(doc: DocV) -> Result<PackagesV, Seq<char>> {
    match doc {
        None => Err("search catalogue must be an object"@),
        Some(fields) => if fields.len() != 2 || version_read(doc) != Some(1u64) {
            Err("unknown search catalogue version or fields"@)
        } else {
            match rows_in(doc) {
                Some(rows) => packages_read(rows, rows.len() as int),
                None => Err("search packages must be an array"@),
            }
        },
    }
}

/// The catalogue in bytes that are to be a document.
pub open spec fn bytes_read(bytes: Seq<u8>) -> Result<PackagesV, Seq<char>> {
    match json::json_doc(bytes) {
        Err(e) => Err(e),
        Ok(doc) => catalogue_read(doc),
    }
}

/// The packages are in order, each under its path.
pub open spec fn filed(c: PackagesV) -> bool {
    &&& text::sorted(ordered::keys(c))
    &&& forall|i: int| 0 <= i < c.len() ==> (#[trigger] c[i]).1.path == c[i].0
}

proof fn rows_read_back(c: PackagesV, n: int)
    requires
        filed(c),
        0 <= n <= c.len(),
    ensures
        packages_read(Seq::new(c.len(), |i: int| row_of(c[i].1)), n) == Ok::<PackagesV, Seq<char>>(
            c.take(n),
        ),
    decreases n,
{
    let rows = Seq::new(c.len(), |i: int| row_of(c[i].1));
    if n > 0 {
        rows_read_back(c, n - 1);
        assert(rows[n - 1] == row_of(c[n - 1].1));
        assert(c[n - 1].1.path == c[n - 1].0);
        assert(c.take(n) =~= c.take(n - 1).push(c[n - 1]));
        if n > 1 {
            assert(c.take(n - 1).last() == c[n - 2]);
            assert(ordered::keys(c)[n - 2] == c[n - 2].0);
            assert(ordered::keys(c)[n - 1] == c[n - 1].0);
            assert(text::lt(ordered::keys(c)[n - 2], ordered::keys(c)[n - 1]));
        }
    } else {
        assert(c.take(0) =~= Seq::<(Seq<char>, PackageV)>::empty());
    }
}

/// A catalogue's document is read back as the catalogue.
pub proof fn catalogue_reads_back(c: PackagesV)
    requires
        filed(c),
    ensures
        json::doc_whole(doc_of(c)),
        catalogue_read(doc_of(c)) == Ok::<PackagesV, Seq<char>>(c),
{
    reveal_strlit("packages");
    reveal_strlit("version");
    let rows = Seq::new(c.len(), |i: int| row_of(c[i].1));
    let fields = seq![
        ("packages"@, FieldV::Rows(rows)),
        ("version"@, FieldV::Number(Some(1u64))),
    ];
    assert("packages"@[0] == 'p' && "version"@[0] == 'v');
    assert(text::lt("packages"@, "version"@));
    assert(ordered::keys(fields)[0] == "packages"@ && ordered::keys(fields)[1] == "version"@);
    assert forall|i: int| 0 <= i < rows.len() implies json::row_whole(
        #[trigger] rows[i],
    ) by {
        assert(rows[i] == row_of(c[i].1));
    }
    assert(fields[0].1.whole() && fields[1].1.whole());
    assert(fields.drop_first()[0] == fields[1]);
    assert("packages"@ != "version"@);
    assert(ordered::find(fields.drop_first(), "version"@) == Some(FieldV::Number(Some(1u64))));
    assert(ordered::find(fields, "version"@) == Some(FieldV::Number(Some(1u64))));
    assert(ordered::find(fields, "packages"@) == Some(FieldV::Rows(rows)));
    rows_read_back(c, c.len() as int);
    assert(c.take(c.len() as int) =~= c);
}

proof fn put_filed(c: PackagesV, p: PackageV)
    requires
        filed(c),
    ensures
        filed(ordered::put(c, p.path, p)),
    decreases c.len(),
{
    ordered::put_sorted(c, p.path, p);
    put_paths(c, p);
}

proof fn put_paths(c: PackagesV, p: PackageV)
    requires
        forall|i: int| 0 <= i < c.len() ==> (#[trigger] c[i]).1.path == c[i].0,
    ensures
        forall|i: int|
            0 <= i < ordered::put(c, p.path, p).len() ==> (#[trigger] ordered::put(
                c,
                p.path,
                p,
            )[i]).1.path == ordered::put(c, p.path, p)[i].0,
    decreases c.len(),
{
    let r = ordered::put(c, p.path, p);
    if c.len() > 0 {
        let rest = c.drop_first();
        assert forall|i: int| 0 <= i < rest.len() implies (#[trigger] rest[i]).1.path
            == rest[i].0 by {
            assert(rest[i] == c[i + 1]);
        }
        put_paths(rest, p);
        assert forall|i: int| 0 <= i < r.len() implies (#[trigger] r[i]).1.path == r[i].0 by {
            if i > 0 {
                if c[0].0 == p.path {
                    assert(r[i] == rest[i - 1]);
                } else if text::lt(p.path, c[0].0) {
                    assert(r[i] == c[i - 1]);
                } else {
                    assert(r[i] == ordered::put(rest, p.path, p)[i - 1]);
                }
            } else {
                assert(c[0].1.path == c[0].0);
            }
        }
    }
}

fn package_from(row: &Row) -> (r: Result<Package, String>)
    ensures
        model::outcome(r) == package_read(row.deep_view()),
{
    let Some(c) = row else {
        return Err("invalid search package row".to_owned());
    };
    assert(c.deep_view().len() == c@.len());
    if c.len() != 4 {
        return Err("invalid search package fields".to_owned());
    }
    assert(c.deep_view()[0] == c@[0].deep_view() && c.deep_view()[1] == c@[1].deep_view()
        && c.deep_view()[2] == c@[2].deep_view() && c.deep_view()[3] == c@[3].deep_view());
    match (&c[0], &c[1], &c[2], &c[3]) {
        (Some(path), Some(pname), Some(version), Some(description)) => Ok(
            Package {
                path: path.clone(),
                pname: pname.clone(),
                version: version.clone(),
                description: description.clone(),
            },
        ),
        _ => Err("search package field must be a string".to_owned()),
    }
}

proof fn read_is_filed(rows: Seq<RowV>, n: int)
    ensures
        packages_read(rows, n) matches Ok(c) ==> filed(c),
    decreases n,
{
    if n > 0 {
        read_is_filed(rows, n - 1);
        if packages_read(rows, n) is Ok {
            let found = packages_read(rows, n - 1)->Ok_0;
            let p = package_read(rows[n - 1])->Ok_0;
            push_filed(found, p);
        }
    } else {
        let none = Seq::<(Seq<char>, PackageV)>::empty();
        assert(ordered::keys(none).len() == 0);
    }
}

/// A package whose path comes after the others' goes to the end.
proof fn push_filed(c: PackagesV, p: PackageV)
    requires
        filed(c),
        c.len() > 0 ==> text::lt(c.last().0, p.path),
    ensures
        filed(c.push((p.path, p))),
        ordered::put(c, p.path, p) == c.push((p.path, p)),
{
    let r = c.push((p.path, p));
    let k = ordered::keys(c);
    let rk = ordered::keys(r);
    assert forall|i: int| 0 <= i < k.len() implies text::lt(#[trigger] k[i], p.path) by {
        if i < k.len() - 1 {
            assert(text::lt(k[i], k[k.len() - 1]));
            text::lt_transitive(k[i], k[k.len() - 1], p.path);
        }
    }
    assert forall|i: int, j: int| 0 <= i < j < rk.len() implies text::lt(
        #[trigger] rk[i],
        #[trigger] rk[j],
    ) by {
        assert(rk[i] == k[i]);
        if j < k.len() {
            assert(rk[j] == k[j]);
        }
    }
    assert forall|i: int| 0 <= i < r.len() implies (#[trigger] r[i]).1.path == r[i].0 by {
        if i < c.len() {
            assert(r[i] == c[i]);
        }
    }
    assert forall|i: int| 0 <= i < c.len() implies text::lt((#[trigger] c[i]).0, p.path) by {
        assert(k[i] == c[i].0);
    }
    ordered::put_last(c, p.path, p);
}

impl Default for Catalogue {
    fn default() -> (r: Self)
        ensures
            r@ == Seq::<(Seq<char>, PackageV)>::empty(),
            r.wf(),
    {
        Catalogue { packages: TextMap::new() }
    }
}

impl Catalogue {
    /// The packages are in order, each under its path.
    pub open spec fn wf(&self) -> bool {
        filed(self@)
    }

    /// Adds a package; one whose path is there takes its place, and is an error.
    pub fn insert(&mut self, path: String, name: &str, description: String) -> (r: Result<
        (),
        String,
    >)
        requires
            old(self).wf(),
        ensures
            final(self).wf(),
            final(self)@ == ordered::put(
                old(self)@,
                path@,
                package_of(path@, name@, description@),
            ),
            match r {
                Ok(_) => ordered::find(old(self)@, path@) is None,
                Err(e) => ordered::find(old(self)@, path@) is Some && e@
                    == "duplicate search package path '"@ + path@ + "'"@,
            },
    {
        let (pname, version) = split_name(name);
        let there = self.packages.contains_key(path.as_str());
        let package = Package { path: path.clone(), pname, version, description };
        proof {
            put_filed(self@, package@);
        }
        self.packages.insert(path.clone(), package);
        if there {
            let mut said = "duplicate search package path '".to_owned();
            said.append(path.as_str());
            said.append("'");
            return Err(said);
        }
        Ok(())
    }

    /// The catalogue as JSON, from which it is read again.
    pub fn encode(&self) -> (r: Result<String, String>)
        requires
            self.wf(),
        ensures
            r matches Ok(s) && s@ == json::json_text(doc_of(self@)) && bytes_read(text::utf8(s@))
                == Ok::<PackagesV, Seq<char>>(self@),
    {
        let ghost all = self@;
        let ghost want = Seq::new(all.len(), |i: int| row_of(all[i].1));
        let mut rows: Vec<Row> = Vec::new();
        let mut i: usize = 0;
        while i < self.packages.entries.len()
            invariant
                i <= self.packages.entries.len(),
                all == self@,
                want == Seq::new(all.len(), |i: int| row_of(all[i].1)),
                rows.len() == i,
                forall|j: int| 0 <= j < i ==> (#[trigger] rows@[j]).deep_view() == want[j],
            decreases self.packages.entries.len() - i,
        {
            let p = &self.packages.entries[i].1;
            assert(all[i as int] == self.packages.entries@[i as int].deep_view());
            let mut cells: Vec<Cell> = Vec::new();
            cells.push(Some(p.path.clone()));
            cells.push(Some(p.pname.clone()));
            cells.push(Some(p.version.clone()));
            cells.push(Some(p.description.clone()));
            assert(cells.deep_view() =~= row_of(p@)->0);
            rows.push(Some(cells));
            i += 1;
        }
        assert(rows.deep_view() =~= want);
        let mut fields: Vec<(String, Field)> = Vec::new();
        fields.push(("packages".to_owned(), Field::Rows(rows)));
        fields.push(("version".to_owned(), Field::Number(Some(1))));
        let doc: Doc = Some(fields);
        proof {
            assert(fields.deep_view() =~= doc_of(all)->0);
            catalogue_reads_back(all);
        }
        Ok(json::print_doc(&doc))
    }

    /// The catalogue that the bytes hold.
    pub fn decode(bytes: &Vec<u8>) -> (r: Result<Catalogue, String>)
        ensures
            model::outcome(r) == bytes_read(bytes@),
            r matches Ok(c) ==> c.wf(),
    {
        let doc = match json::read_doc(bytes) {
            Ok(doc) => doc,
            Err(e) => {
                return Err(e);
            },
        };
        Catalogue::from_doc(&doc)
    }

    /// The catalogue that a document holds.
    pub fn from_doc(doc: &Doc) -> (r: Result<Catalogue, String>)
        ensures
            model::outcome(r) == catalogue_read(doc.deep_view()),
            r matches Ok(c) ==> c.wf(),
    {
        let Some(fields) = doc else {
            return Err("search catalogue must be an object".to_owned());
        };
        assert(fields.deep_view().len() == fields@.len());
        let version = match json::field(doc, "version") {
            Some(Field::Number(Some(n))) => *n == 1,
            _ => false,
        };
        if fields.len() != 2 || !version {
            return Err("unknown search catalogue version or fields".to_owned());
        }
        let Some(Field::Rows(rows)) = json::field(doc, "packages") else {
            return Err("search packages must be an array".to_owned());
        };
        let ghost all = rows.deep_view();
        let mut found: TextMap<Package> = TextMap::new();
        let mut i: usize = 0;
        while i < rows.len()
            invariant
                i <= rows.len(),
                all == rows.deep_view(),
                catalogue_read(doc.deep_view()) == packages_read(all, all.len() as int),
                packages_read(all, i as int) == Ok::<PackagesV, Seq<char>>(found@),
            decreases rows.len() - i,
        {
            assert(all[i as int] == rows@[i as int].deep_view());
            let package = match package_from(&rows[i]) {
                Ok(p) => p,
                Err(e) => {
                    proof {
                        failed_stays(all, i + 1, all.len() as int);
                    }
                    return Err(e);
                },
            };
            let n = found.entries.len();
            assert(found@.len() == found.entries@.len());
            if n > 0 {
                assert(found@[n - 1] == found.entries@[n - 1].deep_view());
                let after = text::less(
                    found.entries[n - 1].0.as_str(),
                    package.path.as_str(),
                );
                if !after {
                    proof {
                        failed_stays(all, i + 1, all.len() as int);
                    }
                    return Err("search package paths must be unique and sorted".to_owned());
                }
            }
            proof {
                read_is_filed(all, i as int);
                push_filed(found@, package@);
            }
            found.insert(package.path.clone(), package);
            i += 1;
        }
        proof {
            read_is_filed(all, i as int);
        }
        Ok(Catalogue { packages: found })
    }
}

proof fn failed_stays(rows: Seq<RowV>, i: int, n: int)
    requires
        0 <= i <= n,
        packages_read(rows, i) is Err,
    ensures
        packages_read(rows, n) == packages_read(rows, i),
    decreases n,
{
    if i < n {
        failed_stays(rows, i, n - 1);
    }
}

/// What is searched for, and how it is shown.
pub struct Plan {
    wants: Vec<String>,
    bars: Vec<String>,
    json: bool,
    colored: bool,
}

/// The model of [`Plan`].
#[verifier::ext_equal]
pub struct PlanV {
    pub wants: Seq<Seq<char>>,
    pub bars: Seq<Seq<char>>,
    pub json: bool,
    pub colored: bool,
}

impl View for Plan {
    type V = PlanV;

    closed spec fn view(&self) -> PlanV {
        PlanV {
            wants: self.wants.deep_view(),
            bars: self.bars.deep_view(),
            json: self.json,
            colored: self.colored,
        }
    }
}

/// A search takes no notice of case.
pub const IGNORE_CASE: bool = true;

/// What is wrong with the first pattern, from `i` on, that is no regular expression.
pub open spec fn wrong(patterns: Seq<Seq<char>>, i: int) -> Option<Seq<char>>
    decreases patterns.len() - i,
{
    if i >= patterns.len() {
        None
    } else {
        match pattern::regex_built(patterns[i], IGNORE_CASE) {
            Err(e) => Some(
                "invalid search regular expression '"@ + patterns[i] + "': "@ + e,
            ),
            Ok(_) => wrong(patterns, i + 1),
        }
    }
}

/// The plan of what is searched for, or why there is none.
pub open spec fn planned(
    wants: Seq<Seq<char>>,
    bars: Seq<Seq<char>>,
    json: bool,
    colored: bool,
) -> Result<PlanV, Seq<char>> {
    if wants.len() == 0 {
        Err("search requires at least one regular expression"@)
    } else {
        match (wrong(wants, 0), wrong(bars, 0)) {
            (Some(e), _) => Err(e),
            (None, Some(e)) => Err(e),
            (None, None) => Ok(PlanV { wants, bars, json, colored }),
        }
    }
}

/// A pattern is found in what is searched of a package.
pub open spec fn found_in(pattern: Seq<char>, p: PackageV) -> bool {
    ||| pattern::regex_found(pattern, IGNORE_CASE, p.path)
    ||| pattern::regex_found(pattern, IGNORE_CASE, p.pname)
    ||| pattern::regex_found(pattern, IGNORE_CASE, p.description)
}

/// A package has all that is searched for, and nothing that is left out.
pub open spec fn wanted(plan: PlanV, p: PackageV) -> bool {
    &&& forall|i: int| 0 <= i < plan.wants.len() ==> found_in(#[trigger] plan.wants[i], p)
    &&& forall|i: int| 0 <= i < plan.bars.len() ==> !found_in(#[trigger] plan.bars[i], p)
}

/// The ranges where the first `n` patterns are found.
pub open spec fn all_ranges(patterns: Seq<Seq<char>>, t: Seq<char>, n: int) -> Ranges
    decreases n,
{
    if n <= 0 {
        Seq::empty()
    } else {
        all_ranges(patterns, t, n - 1) + pattern::regex_ranges(
            patterns[n - 1],
            IGNORE_CASE,
            t,
        )
    }
}

/// The text of the bytes from `a` to `b`, where they are one.
pub open spec fn piece(bytes: Seq<u8>, a: int, b: int) -> Option<Seq<char>> {
    if 0 <= a <= b <= bytes.len() {
        text::utf8_text_of(bytes.subrange(a, b))
    } else {
        None
    }
}

/// What follows a match.
pub open spec fn reset(bold: bool) -> Seq<char> {
    if bold {
        "\u{1b}[0;1m"@
    } else {
        "\u{1b}[0m"@
    }
}

/// The text up to the end of the `n`-th run, with the runs in colour.
pub open spec fn painted_to(bytes: Seq<u8>, m: Ranges, bold: bool, n: int) -> Result<
    Seq<char>,
    Seq<char>,
>
    decreases n,
{
    if n <= 0 {
        Ok(Seq::empty())
    } else {
        let from = run_end(m, n - 1);
        match painted_to(bytes, m, bold, n - 1) {
            Err(e) => Err(e),
            Ok(out) => match piece(bytes, from, m[n - 1].0 as int) {
                None => Err("invalid search highlight boundary"@),
                Some(a) => match piece(bytes, m[n - 1].0 as int, m[n - 1].1 as int) {
                    None => Err("invalid search highlight range"@),
                    Some(b) => Ok(out + a + "\u{1b}[32;1m"@ + b + reset(bold)),
                },
            },
        }
    }
}

/// Where the `n`-th run ends; the beginning where there is none.
pub open spec fn run_end(m: Ranges, n: int) -> int {
    if n <= 0 {
        0
    } else {
        m[n - 1].1 as int
    }
}

/// The text with the runs in colour.
pub open spec fn painted(t: Seq<char>, m: Ranges, bold: bool) -> Result<Seq<char>, Seq<char>> {
    let bytes = text::utf8(t);
    let n = m.len() as int;
    match painted_to(bytes, m, bold, n) {
        Err(e) => Err(e),
        Ok(out) => match piece(bytes, run_end(m, n), bytes.len() as int) {
            None => Err("invalid search highlight tail"@),
            Some(c) => Ok(out + c),
        },
    }
}

/// The text with what the ranges cover in colour.
pub open spec fn highlighted_at(t: Seq<char>, r: Ranges, bold: bool) -> Result<
    Seq<char>,
    Seq<char>,
> {
    painted(t, ranges::runs_of(r), bold)
}

/// The text as it is shown: without control characters, and with what is
/// searched for in colour where there is colour.
pub open spec fn highlighted(plan: PlanV, t: Seq<char>, bold: bool) -> Result<
    Seq<char>,
    Seq<char>,
> {
    let clean = terminal::cleaned(t);
    if !plan.colored {
        Ok(clean)
    } else {
        highlighted_at(
            clean,
            all_ranges(plan.wants, clean, plan.wants.len() as int),
            bold,
        )
    }
}

proof fn whole_piece(t: Seq<char>)
    ensures
        piece(text::utf8(t), 0, text::utf8(t).len() as int) == Some(t),
{
    let b = text::utf8(t);
    assert(b.subrange(0, b.len() as int) =~= b);
    text::utf8_reads_back(t);
}

/// A text in which nothing is found is shown as it is.
pub proof fn nothing_found_nothing_painted(t: Seq<char>, bold: bool)
    ensures
        highlighted_at(t, Seq::empty(), bold) == Ok::<Seq<char>, Seq<char>>(t),
{
    let none = Seq::<(usize, usize)>::empty();
    assert(ranges::runs(none, none));
    ranges::runs_are_one(none, ranges::runs_of(none), none);
    whole_piece(t);
    assert(Seq::<char>::empty() + t =~= t);
}

/// Each range begins and ends where a character begins, or at the end.
pub open spec fn on_characters(t: Seq<char>, r: Ranges) -> bool {
    forall|i: int|
        0 <= i < r.len() ==> text::begins_at(t, (#[trigger] r[i]).0 as int) && text::begins_at(
            t,
            r[i].1 as int,
        )
}

proof fn runs_are_painted(t: Seq<char>, m: Ranges, bold: bool, n: int)
    requires
        ranges::gapped(m),
        on_characters(t, m),
        0 <= n <= m.len(),
    ensures
        painted_to(text::utf8(t), m, bold, n) is Ok,
        text::begins_at(t, run_end(m, n)),
    decreases n,
{
    text::text_begins_and_ends(t);
    if n > 0 {
        runs_are_painted(t, m, bold, n - 1);
        assert(m[n - 1].0 < m[n - 1].1);
        if n > 1 {
            assert(m[n - 2].1 < m[n - 1].0);
        }
        text::between_beginnings(t, run_end(m, n - 1), m[n - 1].0 as int);
        text::between_beginnings(t, m[n - 1].0 as int, m[n - 1].1 as int);
    }
}

/// Ranges that begin and end with characters can always be shown in colour.
pub proof fn characters_are_painted(t: Seq<char>, r: Ranges, bold: bool)
    requires
        on_characters(t, r),
    ensures
        highlighted_at(t, r, bold) is Ok,
{
    let m = ranges::runs_of(r);
    ranges::runs_there_are(r);
    assert forall|k: int| 0 <= k < m.len() implies text::begins_at(t, (#[trigger] m[k]).0 as int)
        && text::begins_at(t, m[k].1 as int) by {
        ranges::runs_end_with_ranges(m, r, k);
    }
    runs_are_painted(t, m, bold, m.len() as int);
    let b = text::utf8(t);
    text::text_begins_and_ends(t);
    let e = run_end(m, m.len() as int);
    let j = choose|j: int| 0 <= j <= t.len() && #[trigger] text::utf8(t.take(j)).len() == e;
    assert(t.take(j) + t.skip(j) =~= t);
    text::utf8_joins(t.take(j), t.skip(j));
    text::between_beginnings(t, e, b.len() as int);
}

/// The line or lines of a package.
pub open spec fn entry_shown(plan: PlanV, p: PackageV) -> Result<Seq<char>, Seq<char>> {
    match highlighted(plan, p.path, true) {
        Err(e) => Err(e),
        Ok(path) => {
            let head = "* "@ + (if plan.colored {
                "\u{1b}[0;1m"@ + path + "\u{1b}[0m"@
            } else {
                path
            }) + " ("@ + terminal::cleaned(p.version) + ")\n"@;
            if p.description.len() == 0 {
                Ok(head)
            } else {
                match highlighted(plan, p.description, false) {
                    Err(e) => Err(e),
                    Ok(description) => Ok(head + "  "@ + description + "\n"@),
                }
            }
        },
    }
}

/// The first `n` packages, as far as they are wanted, with an empty line
/// between each two.
pub open spec fn shown(plan: PlanV, c: PackagesV, n: int) -> Result<Seq<char>, Seq<char>>
    decreases n,
{
    if n <= 0 {
        Ok(Seq::empty())
    } else {
        match shown(plan, c, n - 1) {
            Err(e) => Err(e),
            Ok(out) => if !wanted(plan, c[n - 1].1) {
                Ok(out)
            } else {
                match entry_shown(plan, c[n - 1].1) {
                    Err(e) => Err(e),
                    Ok(entry) => Ok(
                        (if out.len() == 0 {
                            out
                        } else {
                            out + "\n"@
                        }) + entry,
                    ),
                }
            },
        }
    }
}

/// What is said in JSON of a package.
pub open spec fn fields_of(p: PackageV) -> Seq<(Seq<char>, Seq<char>)> {
    seq![("pname"@, p.pname), ("version"@, p.version), ("description"@, p.description)]
}

/// What is said in JSON of the first `n` packages, as far as they are wanted.
pub open spec fn table_of(plan: PlanV, c: PackagesV, n: int) -> Seq<
    (Seq<char>, Seq<(Seq<char>, Seq<char>)>),
>
    decreases n,
{
    if n <= 0 {
        Seq::empty()
    } else if wanted(plan, c[n - 1].1) {
        table_of(plan, c, n - 1).push((c[n - 1].1.path, fields_of(c[n - 1].1)))
    } else {
        table_of(plan, c, n - 1)
    }
}

/// What a search comes to.
pub open spec fn rendered(plan: PlanV, c: PackagesV) -> Result<Seq<char>, Seq<char>> {
    if plan.json {
        Ok(json::json_table(table_of(plan, c, c.len() as int)) + "\n"@)
    } else {
        shown(plan, c, c.len() as int)
    }
}

fn piece_of(bytes: &Vec<u8>, a: usize, b: usize) -> (r: Option<String>)
    ensures
        r.deep_view() == piece(bytes@, a as int, b as int),
{
    if a > b || b > bytes.len() {
        return None;
    }
    let mut part: Vec<u8> = Vec::new();
    let mut i: usize = a;
    while i < b
        invariant
            a <= i <= b <= bytes.len(),
            part@ =~= bytes@.subrange(a as int, i as int),
        decreases b - i,
    {
        part.push(bytes[i]);
        i += 1;
    }
    text::utf8_text(part)
}

/// The text with what the ranges cover in colour.
pub fn highlight_ranges(t: &str, found: &Vec<(usize, usize)>, bold: bool) -> (r: Result<
    String,
    String,
>)
    ensures
        model::outcome(r) == highlighted_at(t@, found@, bold),
        on_characters(t@, found@) ==> r is Ok,
{
    let m = ranges::merged(found);
    proof {
        if on_characters(t@, found@) {
            characters_are_painted(t@, found@, bold);
        }
    }
    let bytes = text::bytes(t);
    let ghost all = m@.len() as int;
    let mut out: String = String::new();
    let mut offset: usize = 0;
    let mut i: usize = 0;
    while i < m.len()
        invariant
            i <= m.len(),
            m@ == ranges::runs_of(found@),
            all == m@.len(),
            bytes@ == text::utf8(t@),
            on_characters(t@, found@) ==> highlighted_at(t@, found@, bold) is Ok,
            offset == run_end(m@, i as int),
            painted_to(bytes@, m@, bold, i as int) == Ok::<Seq<char>, Seq<char>>(out@),
        decreases m.len() - i,
    {
        let (start, end) = m[i];
        let Some(before) = piece_of(&bytes, offset, start) else {
            proof {
                unpainted_stays(bytes@, m@, bold, i + 1, all);
            }
            return Err("invalid search highlight boundary".to_owned());
        };
        let Some(inside) = piece_of(&bytes, start, end) else {
            proof {
                unpainted_stays(bytes@, m@, bold, i + 1, all);
            }
            return Err("invalid search highlight range".to_owned());
        };
        out.append(before.as_str());
        out.append("\u{1b}[32;1m");
        out.append(inside.as_str());
        if bold {
            out.append("\u{1b}[0;1m");
        } else {
            out.append("\u{1b}[0m");
        }
        offset = end;
        i += 1;
    }
    let Some(tail) = piece_of(&bytes, offset, bytes.len()) else {
        return Err("invalid search highlight tail".to_owned());
    };
    out.append(tail.as_str());
    Ok(out)
}

proof fn unpainted_stays(bytes: Seq<u8>, m: Ranges, bold: bool, i: int, n: int)
    requires
        0 <= i <= n,
        painted_to(bytes, m, bold, i) is Err,
    ensures
        painted_to(bytes, m, bold, n) == painted_to(bytes, m, bold, i),
    decreases n,
{
    if i < n {
        unpainted_stays(bytes, m, bold, i, n - 1);
    }
}

proof fn unshown_stays(plan: PlanV, c: PackagesV, i: int, n: int)
    requires
        0 <= i <= n,
        shown(plan, c, i) is Err,
    ensures
        shown(plan, c, n) == shown(plan, c, i),
    decreases n,
{
    if i < n {
        unshown_stays(plan, c, i, n - 1);
    }
}

fn first_wrong(patterns: &Vec<String>) -> (r: Option<String>)
    ensures
        r.deep_view() == wrong(patterns.deep_view(), 0),
{
    let ghost all = patterns.deep_view();
    let mut i: usize = 0;
    while i < patterns.len()
        invariant
            i <= patterns.len(),
            all == patterns.deep_view(),
            wrong(all, 0) == wrong(all, i as int),
        decreases patterns.len() - i,
    {
        assert(all[i as int] == patterns@[i as int]@);
        if let Err(e) = pattern::build(patterns[i].as_str(), IGNORE_CASE) {
            let mut said = "invalid search regular expression '".to_owned();
            said.append(patterns[i].as_str());
            said.append("': ");
            said.append(e.as_str());
            return Some(said);
        }
        i += 1;
    }
    None
}

fn finds(pattern: &str, p: &Package) -> (r: bool)
    ensures
        r == found_in(pattern@, p@),
{
    pattern::is_match(pattern, IGNORE_CASE, p.path.as_str()) || pattern::is_match(
        pattern,
        IGNORE_CASE,
        p.pname.as_str(),
    ) || pattern::is_match(pattern, IGNORE_CASE, p.description.as_str())
}

impl Plan {
    pub fn new(wants: &Vec<String>, bars: &Vec<String>, json: bool, colored: bool) -> (r: Result<
        Plan,
        String,
    >)
        ensures
            (match r {
                Ok(p) => Ok(p@),
                Err(e) => Err(e@),
            }) == planned(wants.deep_view(), bars.deep_view(), json, colored),
    {
        assert(wants.deep_view().len() == wants@.len());
        if wants.len() == 0 {
            return Err("search requires at least one regular expression".to_owned());
        }
        if let Some(e) = first_wrong(wants) {
            return Err(e);
        }
        if let Some(e) = first_wrong(bars) {
            return Err(e);
        }
        Ok(Plan { wants: wants.copied(), bars: bars.copied(), json, colored })
    }

    /// The package has all that is searched for, and nothing that is left out.
    pub fn matches(&self, package: &Package) -> (r: bool)
        ensures
            r == wanted(self@, package@),
    {
        let ghost plan = self@;
        let mut i: usize = 0;
        while i < self.wants.len()
            invariant
                i <= self.wants.len(),
                plan == self@,
                forall|j: int|
                    0 <= j < i ==> found_in(#[trigger] plan.wants[j], package@),
            decreases self.wants.len() - i,
        {
            assert(plan.wants[i as int] == self.wants@[i as int]@);
            if !finds(self.wants[i].as_str(), package) {
                return false;
            }
            i += 1;
        }
        let mut k: usize = 0;
        while k < self.bars.len()
            invariant
                k <= self.bars.len(),
                plan == self@,
                forall|j: int|
                    0 <= j < k ==> !found_in(#[trigger] plan.bars[j], package@),
            decreases self.bars.len() - k,
        {
            assert(plan.bars[k as int] == self.bars@[k as int]@);
            if finds(self.bars[k].as_str(), package) {
                return false;
            }
            k += 1;
        }
        true
    }

    /// The text as it is shown.
    pub fn highlight(&self, t: &str, bold: bool) -> (r: Result<String, String>)
        ensures
            model::outcome(r) == highlighted(self@, t@, bold),
            r is Ok,
    {
        let clean = terminal::terminal_text(t);
        if !self.colored {
            return Ok(clean);
        }
        let ghost patterns = self@.wants;
        let mut found: Vec<(usize, usize)> = Vec::new();
        let mut i: usize = 0;
        while i < self.wants.len()
            invariant
                i <= self.wants.len(),
                patterns == self@.wants,
                found@ == all_ranges(patterns, clean@, i as int),
                on_characters(clean@, found@),
            decreases self.wants.len() - i,
        {
            assert(patterns[i as int] == self.wants@[i as int]@);
            let mut more = pattern::find_ranges(
                self.wants[i].as_str(),
                IGNORE_CASE,
                clean.as_str(),
            );
            let ghost prior = found@;
            let ghost added = more@;
            found.append(&mut more);
            assert forall|k: int| 0 <= k < found@.len() implies text::begins_at(
                clean@,
                (#[trigger] found@[k]).0 as int,
            ) && text::begins_at(clean@, found@[k].1 as int) by {
                if k < prior.len() {
                    assert(found@[k] == prior[k]);
                } else {
                    assert(found@[k] == added[k - prior.len()]);
                }
            }
            i += 1;
        }
        highlight_ranges(clean.as_str(), &found, bold)
    }

    fn entry(&self, p: &Package) -> (r: Result<String, String>)
        ensures
            model::outcome(r) == entry_shown(self@, p@),
            r is Ok,
    {
        let path = match self.highlight(p.path.as_str(), true) {
            Ok(path) => path,
            Err(e) => {
                return Err(e);
            },
        };
        let mut out = "* ".to_owned();
        if self.colored {
            out.append("\u{1b}[0;1m");
        }
        out.append(path.as_str());
        if self.colored {
            out.append("\u{1b}[0m");
        }
        out.append(" (");
        out.append(terminal::terminal_text(p.version.as_str()).as_str());
        out.append(")\n");
        let ghost head = "* "@ + (if self@.colored {
            "\u{1b}[0;1m"@ + path@ + "\u{1b}[0m"@
        } else {
            path@
        }) + " ("@ + terminal::cleaned(p.version@) + ")\n"@;
        assert(out@ =~= head);
        let c = text::chars(p.description.as_str());
        if c.len() != 0 {
            let description = match self.highlight(p.description.as_str(), false) {
                Ok(description) => description,
                Err(e) => {
                    return Err(e);
                },
            };
            out.append("  ");
            out.append(description.as_str());
            out.append("\n");
        }
        Ok(out)
    }

    fn table(&self, catalogue: &Catalogue) -> (r: Vec<(String, Vec<(String, String)>)>)
        ensures
            r.deep_view() == table_of(self@, catalogue@, catalogue@.len() as int),
            table_says(self@, catalogue@, r.deep_view()),
    {
        proof {
            the_table_says_so(self@, catalogue@);
        }
        let ghost c = catalogue@;
        let mut rows: Vec<(String, Vec<(String, String)>)> = Vec::new();
        let mut i: usize = 0;
        assert(rows.deep_view() =~= table_of(self@, c, 0));
        while i < catalogue.packages.entries.len()
            invariant
                i <= catalogue.packages.entries.len(),
                c == catalogue@,
                rows.deep_view() == table_of(self@, c, i as int),
            decreases catalogue.packages.entries.len() - i,
        {
            let p = &catalogue.packages.entries[i].1;
            assert(c[i as int] == catalogue.packages.entries@[i as int].deep_view());
            if self.matches(p) {
                let mut fields: Vec<(String, String)> = Vec::new();
                fields.push(("pname".to_owned(), p.pname.clone()));
                fields.push(("version".to_owned(), p.version.clone()));
                fields.push(("description".to_owned(), p.description.clone()));
                assert(fields.deep_view() =~= fields_of(p@));
                let ghost prior = rows.deep_view();
                rows.push((p.path.clone(), fields));
                assert(rows.deep_view() =~= prior.push((p@.path, fields_of(p@))));
            }
            i += 1;
        }
        rows
    }

    /// What the search comes to, as text or as JSON.
    pub fn render(&self, catalogue: &Catalogue) -> (r: Result<String, String>)
        ensures
            model::outcome(r) == rendered(self@, catalogue@),
            r is Ok,
            self@.json ==> exists|rows: Seq<(Seq<char>, Seq<(Seq<char>, Seq<char>)>)>| #[trigger]
                table_says(self@, catalogue@, rows) && model::outcome(r) == Ok::<
                    Seq<char>,
                    Seq<char>,
                >(json::json_table(rows) + "\n"@),
    {
        if self.json {
            let rows = self.table(catalogue);
            assert(table_says(self@, catalogue@, rows.deep_view()));
            let mut out = json::print_table(&rows);
            out.append("\n");
            return Ok(out);
        }
        let ghost c = catalogue@;
        let mut out: String = String::new();
        let mut empty = true;
        let mut i: usize = 0;
        while i < catalogue.packages.entries.len()
            invariant
                i <= catalogue.packages.entries.len(),
                c == catalogue@,
                !self@.json,
                shown(self@, c, i as int) == Ok::<Seq<char>, Seq<char>>(out@),
                empty == (out@.len() == 0),
            decreases catalogue.packages.entries.len() - i,
        {
            let p = &catalogue.packages.entries[i].1;
            assert(c[i as int] == catalogue.packages.entries@[i as int].deep_view());
            if self.matches(p) {
                let entry = match self.entry(p) {
                    Ok(entry) => entry,
                    Err(e) => {
                        proof {
                            unshown_stays(self@, c, i + 1, c.len() as int);
                        }
                        return Err(e);
                    },
                };
                if !empty {
                    out.append("\n");
                }
                out.append(entry.as_str());
                proof {
                    reveal_strlit("* ");
                    assert(entry@.len() > 0);
                }
                empty = false;
            }
            i += 1;
        }
        Ok(out)
    }
}

/// A row of the table says of a package what it is named for.
pub open spec fn says(row: (Seq<char>, Seq<(Seq<char>, Seq<char>)>), p: PackageV) -> bool {
    &&& row.0 == p.path
    &&& row.1.len() == 3
    &&& ordered::find(row.1, "pname"@) == Some(p.pname)
    &&& ordered::find(row.1, "version"@) == Some(p.version)
    &&& ordered::find(row.1, "description"@) == Some(p.description)
}

proof fn fields_say(p: PackageV)
    ensures
        says((p.path, fields_of(p)), p),
{
    reveal_strlit("pname");
    reveal_strlit("version");
    reveal_strlit("description");
    let f = fields_of(p);
    assert("pname"@.len() == 5 && "version"@.len() == 7 && "description"@.len() == 11);
    assert(f.drop_first()[0] == f[1]);
    assert(f.drop_first().drop_first()[0] == f[2]);
    assert(ordered::find(f.drop_first().drop_first(), "description"@) == Some(p.description));
    assert(ordered::find(f.drop_first(), "description"@) == Some(p.description));
    assert(ordered::find(f.drop_first(), "version"@) == Some(p.version));
}

/// The table has a row for each package that is wanted, in the order of the
/// catalogue, and no other; a row is under the package's path and gives its
/// name, version and description under these words.
pub proof fn the_table_says_what_is_wanted(plan: PlanV, c: PackagesV, n: int) -> (at: Seq<int>)
    requires
        0 <= n <= c.len(),
    ensures
        at.len() == table_of(plan, c, n).len(),
        forall|k: int|
            0 <= k < at.len() ==> 0 <= #[trigger] at[k] < n && wanted(plan, c[at[k]].1) && says(
                table_of(plan, c, n)[k],
                c[at[k]].1,
            ),
        forall|j: int, k: int| 0 <= j < k < at.len() ==> #[trigger] at[j] < #[trigger] at[k],
        forall|i: int| 0 <= i < n && #[trigger] wanted(plan, c[i].1) ==> at.contains(i),
    decreases n,
{
    if n <= 0 {
        Seq::empty()
    } else {
        let prior = the_table_says_what_is_wanted(plan, c, n - 1);
        if wanted(plan, c[n - 1].1) {
            fields_say(c[n - 1].1);
            let at = prior.push(n - 1);
            assert forall|i: int| 0 <= i < n && #[trigger] wanted(plan, c[i].1) implies at.contains(
                i,
            ) by {
                if i < n - 1 {
                    let k = prior.index_of(i);
                    assert(at[k] == i);
                } else {
                    assert(at[prior.len() as int] == i);
                }
            }
            assert forall|k: int| 0 <= k < at.len() implies 0 <= #[trigger] at[k] < n && wanted(
                plan,
                c[at[k]].1,
            ) && says(table_of(plan, c, n)[k], c[at[k]].1) by {
                if k < prior.len() {
                    assert(at[k] == prior[k]);
                }
            }
            at
        } else {
            prior
        }
    }
}

/// A package is wanted where every expression that is searched for is found,
/// in any case, in its path, its name or its description, and none that is
/// left out is found in any of these.
pub proof fn what_is_wanted(plan: PlanV, p: PackageV)
    ensures
        wanted(plan, p) == ((forall|i: int|
            0 <= i < plan.wants.len() ==> pattern::regex_found(
                #[trigger] plan.wants[i],
                true,
                p.path,
            ) || pattern::regex_found(plan.wants[i], true, p.pname) || pattern::regex_found(
                plan.wants[i],
                true,
                p.description,
            )) && (forall|i: int|
            0 <= i < plan.bars.len() ==> !pattern::regex_found(
                #[trigger] plan.bars[i],
                true,
                p.path,
            ) && !pattern::regex_found(plan.bars[i], true, p.pname) && !pattern::regex_found(
                plan.bars[i],
                true,
                p.description,
            ))),
{
    if wanted(plan, p) {
        assert forall|i: int| 0 <= i < plan.wants.len() implies pattern::regex_found(
            #[trigger] plan.wants[i],
            true,
            p.path,
        ) || pattern::regex_found(plan.wants[i], true, p.pname) || pattern::regex_found(
            plan.wants[i],
            true,
            p.description,
        ) by {
            assert(found_in(plan.wants[i], p));
        }
        assert forall|i: int| 0 <= i < plan.bars.len() implies !pattern::regex_found(
            #[trigger] plan.bars[i],
            true,
            p.path,
        ) && !pattern::regex_found(plan.bars[i], true, p.pname) && !pattern::regex_found(
            plan.bars[i],
            true,
            p.description,
        ) by {
            assert(!found_in(plan.bars[i], p));
        }
    }
}

/// A version begins behind the first hyphen that no letter follows, and a name
/// without such a hyphen has none.
pub proof fn where_a_version_begins(name: Seq<char>)
    ensures
        version_of(name).len() > 0 ==> !(('a' <= version_of(name)[0] <= 'z') || ('A'
            <= version_of(name)[0] <= 'Z')) && name == pname_of(name) + seq!['-'] + version_of(
            name,
        ),
        version_of(name).len() == 0 ==> name == pname_of(name),
        forall|i: int|
            0 <= i && i + 1 < name.len() && i < pname_of(name).len() && #[trigger] name[i] == '-'
                ==> (('a' <= name[i + 1] <= 'z') || ('A' <= name[i + 1] <= 'Z')),
{
    version_is_first(name, 0);
    a_name_is_put_together_again(name);
    reveal_strlit("-");
    assert("-"@ =~= seq!['-']);
    let at = version_at(name, 0);
    version_at_within(name, 0);
    assert(pname_of(name).len() == at);
    if at < name.len() {
        assert(version_of(name)[0] == name[at + 1]);
    }
}

proof fn version_is_first(name: Seq<char>, i: int)
    requires
        0 <= i <= name.len(),
    ensures
        forall|j: int|
            i <= j < version_at(name, i) && j + 1 < name.len() && #[trigger] name[j] == '-'
                ==> is_letter(name[j + 1]),
        version_at(name, i) < name.len() ==> version_at(name, i) + 1 < name.len() && !is_letter(
            name[version_at(name, i) + 1],
        ),
    decreases name.len() - i,
{
    if i + 1 < name.len() && !(name[i] == '-' && !is_letter(name[i + 1])) {
        version_is_first(name, i + 1);
    }
}

/// A package that is put into a catalogue is found there under its path, with
/// the parts of its name and its description.
pub proof fn a_package_is_what_was_put(path: Seq<char>, name: Seq<char>, description: Seq<char>)
    ensures
        ({
            let p = package_of(path, name, description);
            &&& p.path == path
            &&& p.description == description
            &&& p.version.len() > 0 ==> p.pname + seq!['-'] + p.version == name
            &&& p.version.len() == 0 ==> p.pname == name
        }),
{
    where_a_version_begins(name);
}

/// Without colour a package is shown as its path, its version in brackets and,
/// on a line of its own, its description where it has one, all free of control
/// characters.
pub proof fn how_a_package_is_shown(plan: PlanV, p: PackageV)
    requires
        !plan.colored,
    ensures
        p.description.len() == 0 ==> entry_shown(plan, p) == Ok::<Seq<char>, Seq<char>>(
            "* "@ + terminal::cleaned(p.path) + " ("@ + terminal::cleaned(p.version) + ")\n"@,
        ),
        p.description.len() > 0 ==> entry_shown(plan, p) == Ok::<Seq<char>, Seq<char>>(
            "* "@ + terminal::cleaned(p.path) + " ("@ + terminal::cleaned(p.version) + ")\n"@
                + "  "@ + terminal::cleaned(p.description) + "\n"@,
        ),
{
}

/// The entries of the packages at these places, with an empty line between
/// each two.
pub open spec fn entries_joined(plan: PlanV, c: PackagesV, at: Seq<int>) -> Seq<char> {
    text::join(Seq::new(at.len(), |k: int| entry_shown(plan, c[at[k]].1)->Ok_0), "\n"@)
}

/// A search shows each package that is wanted, in the order of the catalogue,
/// and no other, with an empty line between each two.
pub proof fn a_search_shows_what_is_wanted(plan: PlanV, c: PackagesV, n: int) -> (at: Seq<int>)
    requires
        0 <= n <= c.len(),
        shown(plan, c, n) is Ok,
    ensures
        shown(plan, c, n)->Ok_0 == entries_joined(plan, c, at),
        forall|k: int|
            0 <= k < at.len() ==> 0 <= #[trigger] at[k] < n && wanted(plan, c[at[k]].1)
                && entry_shown(plan, c[at[k]].1) is Ok,
        forall|j: int, k: int| 0 <= j < k < at.len() ==> #[trigger] at[j] < #[trigger] at[k],
        forall|i: int| 0 <= i < n && #[trigger] wanted(plan, c[i].1) ==> at.contains(i),
    decreases n,
{
    if n <= 0 {
        let at = Seq::<int>::empty();
        assert(entries_joined(plan, c, at) =~= Seq::<char>::empty());
        at
    } else {
        let prior = a_search_shows_what_is_wanted(plan, c, n - 1);
        if wanted(plan, c[n - 1].1) {
            let at = prior.push(n - 1);
            let v = Seq::new(prior.len(), |k: int| entry_shown(plan, c[prior[k]].1)->Ok_0);
            let w = Seq::new(at.len(), |k: int| entry_shown(plan, c[at[k]].1)->Ok_0);
            let entry = entry_shown(plan, c[n - 1].1)->Ok_0;
            assert(w =~= v.push(entry));
            assert(w.drop_last() =~= v);
            if prior.len() == 0 {
                assert(v =~= Seq::<Seq<char>>::empty());
                assert(shown(plan, c, n - 1)->Ok_0 =~= Seq::<char>::empty());
                assert(Seq::<char>::empty() + entry =~= entry);
            } else {
                assert(entry_shown(plan, c[prior[0]].1) is Ok);
                entry_is_something(plan, c[prior[0]].1);
                joined_is_something(v, "\n"@);
            }
            assert forall|i: int| 0 <= i < n && #[trigger] wanted(plan, c[i].1) implies at.contains(
                i,
            ) by {
                if i < n - 1 {
                    let k = prior.index_of(i);
                    assert(at[k] == i);
                } else {
                    assert(at[prior.len() as int] == i);
                }
            }
            assert forall|k: int| 0 <= k < at.len() implies 0 <= #[trigger] at[k] < n && wanted(
                plan,
                c[at[k]].1,
            ) && entry_shown(plan, c[at[k]].1) is Ok by {
                if k < prior.len() {
                    assert(at[k] == prior[k]);
                }
            }
            at
        } else {
            prior
        }
    }
}

proof fn entry_is_something(plan: PlanV, p: PackageV)
    requires
        entry_shown(plan, p) is Ok,
    ensures
        entry_shown(plan, p)->Ok_0.len() > 0,
{
    reveal_strlit("* ");
}

proof fn joined_is_something(v: Seq<Seq<char>>, sep: Seq<char>)
    requires
        v.len() > 0,
        v[0].len() > 0,
    ensures
        text::join(v, sep).len() > 0,
    decreases v.len(),
{
    if v.len() > 1 {
        joined_is_something(v.drop_last(), sep);
    }
}

/// There is a plan exactly where something is searched for and every
/// expression is one; it is of these expressions, as they are. Else the first
/// expression that is none is named, of what is searched for before what is
/// left out.
pub proof fn when_there_is_a_plan(
    wants: Seq<Seq<char>>,
    bars: Seq<Seq<char>>,
    json: bool,
    colored: bool,
)
    ensures
        planned(wants, bars, json, colored) is Ok <==> wants.len() > 0 && (forall|i: int|
            0 <= i < wants.len() ==> pattern::regex_built(#[trigger] wants[i], true) is Ok) && (
        forall|i: int|
            0 <= i < bars.len() ==> pattern::regex_built(#[trigger] bars[i], true) is Ok),
        planned(wants, bars, json, colored) matches Ok(p) ==> p.wants == wants && p.bars == bars
            && p.json == json && p.colored == colored,
{
    wrong_is_first(wants, 0);
    wrong_is_first(bars, 0);
}

proof fn wrong_is_first(patterns: Seq<Seq<char>>, i: int)
    requires
        0 <= i <= patterns.len(),
    ensures
        wrong(patterns, i) is None <==> forall|j: int|
            i <= j < patterns.len() ==> pattern::regex_built(#[trigger] patterns[j], true) is Ok,
    decreases patterns.len() - i,
{
    if i < patterns.len() {
        wrong_is_first(patterns, i + 1);
    }
}

/// Pieces in turn: plain ones as they are, the others between two marks.
pub open spec fn woven(
    plain: Seq<Seq<char>>,
    lit: Seq<Seq<char>>,
    on: Seq<char>,
    off: Seq<char>,
    n: int,
) -> Seq<char>
    decreases n,
{
    if n <= 0 {
        Seq::empty()
    } else {
        woven(plain, lit, on, off, n - 1) + plain[n - 1] + on + lit[n - 1] + off
    }
}

proof fn woven_push(
    plain: Seq<Seq<char>>,
    lit: Seq<Seq<char>>,
    on: Seq<char>,
    off: Seq<char>,
    n: int,
    p: Seq<char>,
    l: Seq<char>,
)
    requires
        0 <= n <= plain.len(),
        n <= lit.len(),
    ensures
        woven(plain.push(p), lit.push(l), on, off, n) == woven(plain, lit, on, off, n),
    decreases n,
{
    if n > 0 {
        woven_push(plain, lit, on, off, n - 1, p, l);
    }
}

proof fn painted_is_woven(t: Seq<char>, m: Ranges, bold: bool, n: int) -> (r: (
    Seq<Seq<char>>,
    Seq<Seq<char>>,
))
    requires
        0 <= n <= m.len(),
        painted_to(text::utf8(t), m, bold, n) is Ok,
    ensures
        r.0.len() == n && r.1.len() == n,
        0 <= run_end(m, n) <= text::utf8(t).len(),
        text::utf8(woven(r.0, r.1, Seq::empty(), Seq::empty(), n)) == text::utf8(t).take(
            run_end(m, n),
        ),
        painted_to(text::utf8(t), m, bold, n)->Ok_0 == woven(
            r.0,
            r.1,
            "\u{1b}[32;1m"@,
            reset(bold),
            n,
        ),
        forall|k: int|
            0 <= k < n ==> text::utf8(#[trigger] r.1[k]) == text::utf8(t).subrange(
                m[k].0 as int,
                m[k].1 as int,
            ),
    decreases n,
{
    let bytes = text::utf8(t);
    let none = Seq::<char>::empty();
    if n == 0 {
        let r = (Seq::<Seq<char>>::empty(), Seq::<Seq<char>>::empty());
        utf8_of_nothing();
        assert(bytes.take(0) =~= text::utf8(none));
        r
    } else {
        let (plain, lit) = painted_is_woven(t, m, bold, n - 1);
        let from = run_end(m, n - 1);
        let a = piece(bytes, from, m[n - 1].0 as int)->0;
        let b = piece(bytes, m[n - 1].0 as int, m[n - 1].1 as int)->0;
        text::utf8_text_is(bytes.subrange(from, m[n - 1].0 as int), a);
        text::utf8_text_is(bytes.subrange(m[n - 1].0 as int, m[n - 1].1 as int), b);
        woven_push(plain, lit, none, none, n - 1, a, b);
        woven_push(plain, lit, "\u{1b}[32;1m"@, reset(bold), n - 1, a, b);
        let w = woven(plain, lit, none, none, n - 1);
        let r = (plain.push(a), lit.push(b));
        assert(woven(r.0, r.1, none, none, n) =~= w + a + b);
        text::utf8_joins(w, a);
        text::utf8_joins(w + a, b);
        assert(bytes.take(from) + bytes.subrange(from, m[n - 1].0 as int) + bytes.subrange(
            m[n - 1].0 as int,
            m[n - 1].1 as int,
        ) =~= bytes.take(m[n - 1].1 as int));
        assert forall|k: int| 0 <= k < n implies text::utf8(#[trigger] r.1[k]) == bytes.subrange(
            m[k].0 as int,
            m[k].1 as int,
        ) by {
            if k < n - 1 {
                assert(r.1[k] == lit[k]);
            }
        }
        r
    }
}

proof fn utf8_of_nothing()
    ensures
        text::utf8(Seq::<char>::empty()).len() == 0,
{
    let none = Seq::<char>::empty();
    text::utf8_joins(none, none);
    assert(none + none =~= none);
}

/// Painting a text adds colour and nothing else: without the marks it is the
/// text again, and what stands between marks is what the ranges cover.
pub proof fn painting_only_adds_colour(t: Seq<char>, m: Ranges, bold: bool) -> (r: (
    Seq<Seq<char>>,
    Seq<Seq<char>>,
    Seq<char>,
))
    requires
        painted(t, m, bold) is Ok,
    ensures
        r.0.len() == m.len() && r.1.len() == m.len(),
        t == woven(r.0, r.1, Seq::empty(), Seq::empty(), m.len() as int) + r.2,
        painted(t, m, bold)->Ok_0 == woven(
            r.0,
            r.1,
            "\u{1b}[32;1m"@,
            if bold {
                "\u{1b}[0;1m"@
            } else {
                "\u{1b}[0m"@
            },
            m.len() as int,
        ) + r.2,
        forall|k: int|
            0 <= k < m.len() ==> text::utf8(#[trigger] r.1[k]) == text::utf8(t).subrange(
                m[k].0 as int,
                m[k].1 as int,
            ),
{
    let bytes = text::utf8(t);
    let n = m.len() as int;
    let none = Seq::<char>::empty();
    let (plain, lit) = painted_is_woven(t, m, bold, n);
    let c = piece(bytes, run_end(m, n), bytes.len() as int)->0;
    text::utf8_text_is(bytes.subrange(run_end(m, n), bytes.len() as int), c);
    let w = woven(plain, lit, none, none, n);
    text::utf8_joins(w, c);
    assert(bytes.take(run_end(m, n)) + bytes.subrange(run_end(m, n), bytes.len() as int) =~= bytes);
    text::utf8_injective(t, w + c);
    (plain, lit, c)
}

/// The row is that of a package that is wanted.
pub open spec fn row_said(
    plan: PlanV,
    c: PackagesV,
    row: (Seq<char>, Seq<(Seq<char>, Seq<char>)>),
) -> bool {
    exists|i: int| 0 <= i < c.len() && #[trigger] wanted(plan, c[i].1) && says(row, c[i].1)
}

/// The package has a row.
pub open spec fn package_said(
    rows: Seq<(Seq<char>, Seq<(Seq<char>, Seq<char>)>)>,
    p: PackageV,
) -> bool {
    exists|k: int| 0 <= k < rows.len() && says(#[trigger] rows[k], p)
}

/// The rows are those of the packages that are wanted, each under its path and
/// with its name, version and description.
pub open spec fn table_says(
    plan: PlanV,
    c: PackagesV,
    rows: Seq<(Seq<char>, Seq<(Seq<char>, Seq<char>)>)>,
) -> bool {
    &&& forall|k: int| 0 <= k < rows.len() ==> row_said(plan, c, #[trigger] rows[k])
    &&& forall|i: int|
        0 <= i < c.len() && #[trigger] wanted(plan, c[i].1) ==> package_said(rows, c[i].1)
}

proof fn the_table_says_so(plan: PlanV, c: PackagesV)
    ensures
        table_says(plan, c, table_of(plan, c, c.len() as int)),
{
    let rows = table_of(plan, c, c.len() as int);
    let at = the_table_says_what_is_wanted(plan, c, c.len() as int);
    assert forall|k: int| 0 <= k < rows.len() implies row_said(plan, c, #[trigger] rows[k]) by {
        let i = at[k];
        assert(wanted(plan, c[i].1) && says(rows[k], c[i].1));
    }
    assert forall|i: int|
        0 <= i < c.len() && #[trigger] wanted(plan, c[i].1) implies package_said(rows, c[i].1) by {
        let k = at.index_of(i);
        assert(at[k] == i);
        assert(says(rows[k], c[i].1));
    }
}

/// A document is taken for a catalogue only where it has exactly a version,
/// which is 1, and packages, each of which is a row of its four texts; the
/// catalogue is of these packages, in ascending order of their paths.
pub proof fn what_is_taken_for_a_catalogue(doc: DocV, c: PackagesV)
    requires
        catalogue_read(doc) == Ok::<PackagesV, Seq<char>>(c),
    ensures
        doc matches Some(fields) && fields.len() == 2,
        json::field_of(doc, "version"@) == Some(FieldV::Number(Some(1u64))),
        json::field_of(doc, "packages"@) matches Some(FieldV::Rows(rows)) && rows.len() == c.len()
            && forall|i: int|
            0 <= i < c.len() ==> (#[trigger] rows[i]) == Some(
                seq![
                    Some(c[i].1.path),
                    Some(c[i].1.pname),
                    Some(c[i].1.version),
                    Some(c[i].1.description),
                ],
            ) && c[i].0 == c[i].1.path,
        forall|i: int|
            0 < i < c.len() ==> text::lt(c[i - 1].1.path, (#[trigger] c[i]).1.path),
{
    let rows = rows_in(doc)->0;
    rows_are_packages(rows, rows.len() as int);
}

proof fn rows_are_packages(rows: Seq<RowV>, n: int)
    requires
        0 <= n <= rows.len(),
        packages_read(rows, n) is Ok,
    ensures
        ({
            let c = packages_read(rows, n)->Ok_0;
            &&& c.len() == n
            &&& forall|i: int|
                0 <= i < n ==> (#[trigger] rows[i]) == Some(
                    seq![
                        Some(c[i].1.path),
                        Some(c[i].1.pname),
                        Some(c[i].1.version),
                        Some(c[i].1.description),
                    ],
                ) && c[i].0 == c[i].1.path
            &&& forall|i: int|
                0 < i < n ==> text::lt(c[i - 1].1.path, (#[trigger] c[i]).1.path)
        }),
    decreases n,
{
    if n > 0 {
        rows_are_packages(rows, n - 1);
        let was = packages_read(rows, n - 1)->Ok_0;
        let c = packages_read(rows, n)->Ok_0;
        let p = package_read(rows[n - 1])->Ok_0;
        let cells = rows[n - 1]->0;
        assert(cells =~= seq![
            Some(p.path),
            Some(p.pname),
            Some(p.version),
            Some(p.description),
        ]);
        assert forall|i: int| 0 <= i < n implies (#[trigger] rows[i]) == Some(
            seq![
                Some(c[i].1.path),
                Some(c[i].1.pname),
                Some(c[i].1.version),
                Some(c[i].1.description),
            ],
        ) && c[i].0 == c[i].1.path by {
            if i < n - 1 {
                assert(c[i] == was[i]);
            }
        }
        assert forall|i: int| 0 < i < n implies text::lt(c[i - 1].1.path, (#[trigger] c[i]).1.path) by {
            assert(c[i - 1] == was[i - 1]);
            if i < n - 1 {
                assert(c[i] == was[i]);
            } else {
                assert(was.last() == was[i - 1]);
                assert(rows[i - 1] == rows[i - 1]);
            }
        }
    }
}

/// With colour a package is shown as without, its path in bold and what is
/// searched for in green.
pub proof fn how_a_package_is_shown_in_colour(plan: PlanV, p: PackageV)
    requires
        plan.colored,
        highlighted(plan, p.path, true) is Ok,
        highlighted(plan, p.description, false) is Ok,
    ensures
        p.description.len() == 0 ==> entry_shown(plan, p) == Ok::<Seq<char>, Seq<char>>(
            "* "@ + ("\u{1b}[0;1m"@ + highlighted(plan, p.path, true)->Ok_0 + "\u{1b}[0m"@) + " ("@
                + terminal::cleaned(p.version) + ")\n"@,
        ),
        p.description.len() > 0 ==> entry_shown(plan, p) == Ok::<Seq<char>, Seq<char>>(
            "* "@ + ("\u{1b}[0;1m"@ + highlighted(plan, p.path, true)->Ok_0 + "\u{1b}[0m"@) + " ("@
                + terminal::cleaned(p.version) + ")\n"@ + "  "@ + highlighted(
                plan,
                p.description,
                false,
            )->Ok_0 + "\n"@,
        ),
{
}

/// A position is in colour exactly where one of the expressions that are
/// searched for is found there, whichever it is.
pub proof fn what_is_in_colour(patterns: Seq<Seq<char>>, t: Seq<char>, n: int, x: int)
    requires
        0 <= n <= patterns.len(),
    ensures
        ranges::lit(all_ranges(patterns, t, n), x) == (exists|k: int|
            0 <= k < n && ranges::lit(
                pattern::regex_ranges(#[trigger] patterns[k], true, t),
                x,
            )),
    decreases n,
{
    if n > 0 {
        what_is_in_colour(patterns, t, n - 1, x);
        let a = all_ranges(patterns, t, n - 1);
        let b = pattern::regex_ranges(patterns[n - 1], true, t);
        let all = all_ranges(patterns, t, n);
        assert(all =~= a + b);
        if ranges::lit(a, x) {
            let i = choose|i: int| 0 <= i < a.len() && (#[trigger] a[i]).0 <= x < a[i].1;
            assert(all[i] == a[i]);
        }
        if ranges::lit(b, x) {
            let i = choose|i: int| 0 <= i < b.len() && (#[trigger] b[i]).0 <= x < b[i].1;
            assert(all[a.len() + i] == b[i]);
        }
        if ranges::lit(all, x) {
            let i = choose|i: int| 0 <= i < all.len() && (#[trigger] all[i]).0 <= x < all[i].1;
            if i < a.len() {
                assert(a[i] == all[i]);
            } else {
                assert(b[i - a.len()] == all[i]);
            }
        }
    }
}

/// What is shown is without control characters but for the marks of colour: a
/// text is cleaned before anything is looked for in it.
pub proof fn what_is_shown_is_cleaned(plan: PlanV, t: Seq<char>, bold: bool)
    ensures
        !plan.colored ==> highlighted(plan, t, bold) == Ok::<Seq<char>, Seq<char>>(
            terminal::cleaned(t),
        ),
        plan.colored ==> highlighted(plan, t, bold) == highlighted_at(
            terminal::cleaned(t),
            all_ranges(plan.wants, terminal::cleaned(t), plan.wants.len() as int),
            bold,
        ),
{
}

} // verus!
