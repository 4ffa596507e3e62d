//! What a realisation stands on, and what the store is seen to hold.
use vstd::prelude::*;
use crate::aterm;
use crate::aterm::{DrvOutput, DrvOutputV};
use crate::digest::{ObjId, WriteDrvAnswer, WriteDrvAnswerV};
use crate::host::{Ask, Host, Reply, StoreError, StoreErrorV};
use crate::model;
use crate::model::Plain;
use crate::ordered;
use crate::ordered::{TextMap, TextSet};
use crate::question::{Question, QuestionV, RecordedV, WitnessRow};
use crate::text;
use crate::value::{ContextElem, ContextElemV};

verus! {

/// What a store of objects has under a name.
#[derive(Debug, PartialEq, Eq)]
pub enum Fetched {
    /// The store does not have it.
    Missing,
    /// What it has does not hash to the name.
    Corrupt,
    /// It could not be read.
    Failed(String),
    Found(Vec<u8>),
}

/// The model of [`Fetched`].
#[verifier::ext_equal]
pub enum FetchedV {
    Missing,
    Corrupt,
    Failed(Seq<char>),
    Found(Seq<u8>),
}

impl View for Fetched {
    type V = FetchedV;

    open spec fn view(&self) -> FetchedV {
        match self {
            Fetched::Missing => FetchedV::Missing,
            Fetched::Corrupt => FetchedV::Corrupt,
            Fetched::Failed(a) => FetchedV::Failed(a@),
            Fetched::Found(a) => FetchedV::Found(a.deep_view()),
        }
    }
}

impl DeepView for Fetched {
    type V = FetchedV;

    open spec fn deep_view(&self) -> FetchedV {
        self@
    }
}

impl Clone for Fetched {
    fn clone(&self) -> (r: Self)
        ensures
            r@ == self@,
    {
        self.copied()
    }
}

impl Plain for Fetched {
    fn copied(&self) -> (r: Self) {
        match self {
            Fetched::Missing => Fetched::Missing,
            Fetched::Corrupt => Fetched::Corrupt,
            Fetched::Failed(a) => Fetched::Failed(a.copied()),
            Fetched::Found(a) => Fetched::Found(a.copied()),
        }
    }

    fn same(&self, other: &Self) -> (r: bool) {
        match (self, other) {
            (Fetched::Missing, Fetched::Missing) => true,
            (Fetched::Corrupt, Fetched::Corrupt) => true,
            (Fetched::Failed(a), Fetched::Failed(b)) => a.same(b),
            (Fetched::Found(a), Fetched::Found(b)) => a.same(b),
            _ => false,
        }
    }
}

/// What a replay is given of the object store and of the placeholders.
#[derive(Debug, PartialEq, Eq)]
pub struct Given {
    /// What the object store has under each name that was looked up.
    pub objects: Vec<(ObjId, Fetched)>,
    /// The placeholder of each derivation output that was looked up, by the element's text.
    pub placeholders: TextMap<String>,
}

/// The model of [`Given`].
#[verifier::ext_equal]
pub struct GivenV {
    pub objects: Seq<(Seq<u8>, FetchedV)>,
    pub placeholders: Seq<(Seq<char>, Seq<char>)>,
}

impl View for Given {
    type V = GivenV;

    open spec fn view(&self) -> GivenV {
        GivenV {
            objects: self.objects.deep_view(),
            placeholders: self.placeholders@,
        }
    }
}

impl DeepView for Given {
    type V = GivenV;

    open spec fn deep_view(&self) -> GivenV {
        self@
    }
}

impl Clone for Given {
    fn clone(&self) -> (r: Self)
        ensures
            r@ == self@,
    {
        self.copied()
    }
}

impl Plain for Given {
    fn copied(&self) -> (r: Self) {
        Given {
            objects: self.objects.copied(),
            placeholders: self.placeholders.copied(),
        }
    }

    fn same(&self, other: &Self) -> (r: bool) {
        let s0 = self.objects.same(&other.objects);
        let s1 = self.placeholders.same(&other.placeholders);
        s0 && s1
    }
}

/// What an element of a realisation stands on.
#[derive(Debug, PartialEq, Eq)]
pub struct StandsOn {
    /// The store paths that must be there.
    pub needs: Vec<String>,
    /// The path that was built, if one was.
    pub output: Option<String>,
}

/// The model of [`StandsOn`].
#[verifier::ext_equal]
pub struct StandsOnV {
    pub needs: Seq<Seq<char>>,
    pub output: Option<Seq<char>>,
}

impl View for StandsOn {
    type V = StandsOnV;

    open spec fn view(&self) -> StandsOnV {
        StandsOnV {
            needs: self.needs.deep_view(),
            output: self.output.deep_view(),
        }
    }
}

impl DeepView for StandsOn {
    type V = StandsOnV;

    open spec fn deep_view(&self) -> StandsOnV {
        self@
    }
}

impl Clone for StandsOn {
    fn clone(&self) -> (r: Self)
        ensures
            r@ == self@,
    {
        self.copied()
    }
}

impl Plain for StandsOn {
    fn copied(&self) -> (r: Self) {
        StandsOn {
            needs: self.needs.copied(),
            output: self.output.copied(),
        }
    }

    fn same(&self, other: &Self) -> (r: bool) {
        let s0 = self.needs.same(&other.needs);
        let s1 = self.output.same(&other.output);
        s0 && s1
    }
}

/// What a realisation comes to where all it stands on is there.
#[derive(Debug, PartialEq, Eq)]
pub struct NothingToBuild {
    pub rewrites: TextMap<String>,
    pub outputs: Vec<String>,
}

/// The model of [`NothingToBuild`].
#[verifier::ext_equal]
pub struct NothingToBuildV {
    pub rewrites: Seq<(Seq<char>, Seq<char>)>,
    pub outputs: Seq<Seq<char>>,
}

impl View for NothingToBuild {
    type V = NothingToBuildV;

    open spec fn view(&self) -> NothingToBuildV {
        NothingToBuildV {
            rewrites: self.rewrites@,
            outputs: self.outputs.deep_view(),
        }
    }
}

impl DeepView for NothingToBuild {
    type V = NothingToBuildV;

    open spec fn deep_view(&self) -> NothingToBuildV {
        self@
    }
}

impl Clone for NothingToBuild {
    fn clone(&self) -> (r: Self)
        ensures
            r@ == self@,
    {
        self.copied()
    }
}

impl Plain for NothingToBuild {
    fn copied(&self) -> (r: Self) {
        NothingToBuild {
            rewrites: self.rewrites.copied(),
            outputs: self.outputs.copied(),
        }
    }

    fn same(&self, other: &Self) -> (r: bool) {
        let s0 = self.rewrites.same(&other.rewrites);
        let s1 = self.outputs.same(&other.outputs);
        s0 && s1
    }
}

/// Rows, as models.
pub type RowsV = Seq<(QuestionV, RecordedV)>;

/// What the store has under a name; nothing where that was not looked up.
pub open spec fn object(objects: Seq<(Seq<u8>, FetchedV)>, id: Seq<u8>) -> FetchedV
    decreases objects.len(),
{
    if objects.len() == 0 {
        FetchedV::Missing
    } else if objects[0].0 == id {
        objects[0].1
    } else {
        object(objects.drop_first(), id)
    }
}

/// The path of the first output of that name.
pub open spec fn output_path(outputs: Seq<DrvOutputV>, name: Seq<char>) -> Option<Seq<char>>
    decreases outputs.len(),
{
    if outputs.len() == 0 {
        None
    } else if outputs[0].name == name {
        Some(outputs[0].path)
    } else {
        output_path(outputs.drop_first(), name)
    }
}

/// What stands on a path alone.
pub open spec fn on_path(path: Seq<char>) -> StandsOnV {
    StandsOnV { needs: seq![path], output: None }
}

/// What an output of a derivation stands on, where its path is known.
pub open spec fn built(outputs: Seq<DrvOutputV>, drv: Seq<char>, output: Seq<char>) -> Option<
    StandsOnV,
> {
    match output_path(outputs, output) {
        Some(path) => if path.len() == 0 {
            None
        } else {
            Some(StandsOnV { needs: seq![drv, path], output: Some(path) })
        },
        None => None,
    }
}

/// The text's name that the last of the first `n` rows that wrote `drv` has.
pub open spec fn aterm_of(rows: RowsV, n: int, drv: Seq<char>) -> Option<Seq<u8>>
    decreases n,
{
    if n <= 0 {
        None
    } else {
        match rows[n - 1].0 {
            QuestionV::WriteDrv { name, answer: WriteDrvAnswerV::Written(path), aterm } => if path
                == drv {
                Some(aterm)
            } else {
                aterm_of(rows, n - 1, drv)
            },
            _ => aterm_of(rows, n - 1, drv),
        }
    }
}

/// The outputs of the derivation whose text an object is.
pub open spec fn outputs_in(f: FetchedV) -> Option<Seq<DrvOutputV>> {
    match f {
        FetchedV::Found(bytes) => match text::utf8_text_of(bytes) {
            Some(t) => aterm::outputs_of(t),
            None => None,
        },
        _ => None,
    }
}

/// What an element stands on, by the derivations that the rows wrote.
pub open spec fn stands(
    rows: RowsV,
    objects: Seq<(Seq<u8>, FetchedV)>,
    elem: ContextElemV,
) -> Option<StandsOnV> {
    match elem {
        ContextElemV::Opaque(path) => Some(on_path(path)),
        ContextElemV::DrvDeep(path) => Some(on_path(path)),
        ContextElemV::Built { drv, output } => match aterm_of(rows, rows.len() as int, drv) {
            None => None,
            Some(id) => match outputs_in(object(objects, id)) {
                None => None,
                Some(outputs) => built(outputs, drv, output),
            },
        },
    }
}

/// What the entries hold for an element.
pub open spec fn listed(entries: Seq<(ContextElemV, StandsOnV)>, elem: ContextElemV) -> Option<
    StandsOnV,
>
    decreases entries.len(),
{
    if entries.len() == 0 {
        None
    } else if entries[0].0 == elem {
        Some(entries[0].1)
    } else {
        listed(entries.drop_first(), elem)
    }
}

impl Given {
    /// What the store has under a name.
    pub fn object(&self, id: &ObjId) -> (r: Fetched)
        ensures
            r@ == object(self@.objects, id@),
    {
        let ghost all = self@.objects;
        let mut i: usize = 0;
        assert(all.skip(0) =~= all);
        while i < self.objects.len()
            invariant
                i <= self.objects.len(),
                all == self@.objects,
                object(all, id@) == object(all.skip(i as int), id@),
            decreases self.objects.len() - i,
        {
            proof {
                assert(all.skip(i as int).drop_first() =~= all.skip(i + 1));
                assert(all.skip(i as int)[0] == self.objects@[i as int].deep_view());
            }
            if self.objects[i].0.same(id) {
                return self.objects[i].1.copied();
            }
            i += 1;
        }
        Fetched::Missing
    }
}

impl StandsOn {
    pub fn on_path(path: &str) -> (r: StandsOn)
        ensures
            r@ == on_path(path@),
    {
        let mut needs: Vec<String> = Vec::new();
        needs.push(path.to_owned());
        assert(needs.deep_view() =~= seq![path@]);
        StandsOn { needs, output: None }
    }

    /// What an output of a derivation stands on, where its path is known.
    pub fn built(outputs: &Vec<DrvOutput>, drv: &str, output: &str) -> (r: Option<StandsOn>)
        ensures
            r.deep_view() == built(outputs.deep_view(), drv@, output@),
    {
        let ghost all = outputs.deep_view();
        let mut i: usize = 0;
        assert(all.skip(0) =~= all);
        while i < outputs.len()
            invariant
                i <= outputs.len(),
                all == outputs.deep_view(),
                output_path(all, output@) == output_path(all.skip(i as int), output@),
            decreases outputs.len() - i,
        {
            proof {
                assert(all.skip(i as int).drop_first() =~= all.skip(i + 1));
                assert(all.skip(i as int)[0] == outputs@[i as int]@);
            }
            if text::same(outputs[i].name.as_str(), output) {
                let path = &outputs[i].path;
                if text::chars(path.as_str()).len() == 0 {
                    return None;
                }
                let mut needs: Vec<String> = Vec::new();
                needs.push(drv.to_owned());
                needs.push(path.clone());
                assert(needs.deep_view() =~= seq![drv@, path@]);
                return Some(StandsOn { needs, output: Some(path.clone()) });
            }
            i += 1;
        }
        None
    }
}

/// The outputs of the derivation whose text an object is.
pub fn derivation_in(f: Fetched) -> (r: Option<Vec<DrvOutput>>)
    ensures
        r.deep_view() == outputs_in(f@),
{
    match f {
        Fetched::Found(bytes) => {
            assert(bytes.deep_view() =~= bytes@);
            match text::utf8_text(bytes) {
                Some(t) => aterm::parse(t.as_str()),
                None => None,
            }
        },
        _ => None,
    }
}

fn aterm_in(rows: &Vec<WitnessRow>, drv: &str) -> (r: Option<ObjId>)
    ensures
        r.deep_view() == aterm_of(rows.deep_view(), rows@.len() as int, drv@),
{
    let ghost all = rows.deep_view();
    let mut n: usize = rows.len();
    while n > 0
        invariant
            n <= rows.len(),
            all == rows.deep_view(),
            aterm_of(all, rows@.len() as int, drv@) == aterm_of(all, n as int, drv@),
        decreases n,
    {
        assert(all[n - 1] == rows@[n - 1].deep_view());
        if let Question::WriteDrv {
            name: _,
            answer: WriteDrvAnswer::Written(path),
            aterm,
        } = &rows[n - 1].0 {
            if text::same(path.as_str(), drv) {
                return Some(*aterm);
            }
        }
        n -= 1;
    }
    None
}

/// What an element stands on, by the derivations that the rows wrote.
pub fn stands_on(rows: &Vec<WitnessRow>, given: &Given, elem: &ContextElem) -> (r: Option<StandsOn>)
    ensures
        r.deep_view() == stands(rows.deep_view(), given@.objects, elem@),
{
    match elem {
        ContextElem::Opaque(path) => Some(StandsOn::on_path(path.as_str())),
        ContextElem::DrvDeep(path) => Some(StandsOn::on_path(path.as_str())),
        ContextElem::Built { drv, output } => {
            let Some(id) = aterm_in(rows, drv.as_str()) else {
                return None;
            };
            let Some(outputs) = derivation_in(given.object(&id)) else {
                return None;
            };
            StandsOn::built(&outputs, drv.as_str(), output.as_str())
        },
    }
}

/// What each element of the rows' realisations stands on.
pub struct Realisable {
    pub entries: Vec<(ContextElem, StandsOn)>,
}

impl View for Realisable {
    type V = Seq<(ContextElemV, StandsOnV)>;

    open spec fn view(&self) -> Seq<(ContextElemV, StandsOnV)> {
        model::deep(self.entries@)
    }
}

/// Each entry holds what its element stands on.
pub open spec fn sound(
    entries: Seq<(ContextElemV, StandsOnV)>,
    rows: RowsV,
    objects: Seq<(Seq<u8>, FetchedV)>,
) -> bool {
    forall|i: int|
        0 <= i < entries.len() ==> stands(rows, objects, (#[trigger] entries[i]).0) == Some(
            entries[i].1,
        )
}

/// `elem` stands in one of the first `n` rows' realisations.
pub open spec fn occurs(rows: RowsV, n: int, elem: ContextElemV) -> bool {
    exists|i: int|
        0 <= i < n && ((#[trigger] rows[i]).0 matches QuestionV::Realise(context)
            && context.contains(elem))
}

proof fn listed_sound(
    entries: Seq<(ContextElemV, StandsOnV)>,
    rows: RowsV,
    objects: Seq<(Seq<u8>, FetchedV)>,
    elem: ContextElemV,
)
    requires
        sound(entries, rows, objects),
    ensures
        listed(entries, elem) matches Some(x) ==> stands(rows, objects, elem) == Some(x),
    decreases entries.len(),
{
    if entries.len() > 0 && entries[0].0 != elem {
        let t = entries.drop_first();
        assert forall|i: int| 0 <= i < t.len() implies stands(rows, objects, (#[trigger] t[i]).0)
            == Some(t[i].1) by {
            assert(t[i] == entries[i + 1]);
        }
        listed_sound(t, rows, objects, elem);
    }
}

proof fn listed_push(
    entries: Seq<(ContextElemV, StandsOnV)>,
    entry: (ContextElemV, StandsOnV),
    elem: ContextElemV,
)
    ensures
        listed(entries, elem) is Some ==> listed(entries.push(entry), elem) == listed(
            entries,
            elem,
        ),
        listed(entries, elem) is None ==> listed(entries.push(entry), elem) == (if entry.0 == elem {
            Some(entry.1)
        } else {
            None
        }),
    decreases entries.len(),
{
    if entries.len() == 0 {
        assert(entries.push(entry).drop_first() =~= entries);
    } else {
        assert(entries.push(entry).drop_first() =~= entries.drop_first().push(entry));
        listed_push(entries.drop_first(), entry, elem);
    }
}

impl Realisable {
    pub fn get(&self, elem: &ContextElem) -> (r: Option<&StandsOn>)
        ensures
            match r {
                Some(s) => listed(self@, elem@) == Some(s@),
                None => listed(self@, elem@) is None,
            },
    {
        let ghost all = self@;
        let mut i: usize = 0;
        assert(all.skip(0) =~= all);
        while i < self.entries.len()
            invariant
                i <= self.entries.len(),
                all == self@,
                listed(all, elem@) == listed(all.skip(i as int), elem@),
            decreases self.entries.len() - i,
        {
            proof {
                assert(all.skip(i as int).drop_first() =~= all.skip(i + 1));
                assert(all.skip(i as int)[0] == self.entries@[i as int].deep_view());
            }
            if self.entries[i].0.same(elem) {
                return Some(&self.entries[i].1);
            }
            i += 1;
        }
        None
    }
}

/// What each element of the rows' realisations stands on.
pub fn realisable(rows: &Vec<WitnessRow>, given: &Given) -> (r: Realisable)
    ensures
        forall|elem: ContextElemV|
            occurs(rows.deep_view(), rows@.len() as int, elem) ==> #[trigger] listed(r@, elem)
                == stands(rows.deep_view(), given@.objects, elem),
{
    let ghost all = rows.deep_view();
    let ghost objects = given@.objects;
    let mut out = Realisable { entries: Vec::new() };
    let mut i: usize = 0;
    while i < rows.len()
        invariant
            i <= rows.len(),
            all == rows.deep_view(),
            objects == given@.objects,
            sound(out@, all, objects),
            forall|elem: ContextElemV|
                occurs(all, i as int, elem) && stands(all, objects, elem) is Some
                    ==> #[trigger] listed(out@, elem) is Some,
        decreases rows.len() - i,
    {
        assert(all[i as int] == rows@[i as int].deep_view());
        if let Question::Realise(context) = &rows[i].0 {
            let ghost c = context.deep_view();
            let mut j: usize = 0;
            while j < context.len()
                invariant
                    j <= context.len(),
                    i < rows.len(),
                    all == rows.deep_view(),
                    objects == given@.objects,
                    c == context.deep_view(),
                    all[i as int].0 == QuestionV::Realise(c),
                    sound(out@, all, objects),
                    forall|elem: ContextElemV|
                        occurs(all, i as int, elem) && stands(all, objects, elem) is Some
                            ==> #[trigger] listed(out@, elem) is Some,
                    forall|k: int|
                        0 <= k < j && stands(all, objects, #[trigger] c[k]) is Some ==> listed(
                            out@,
                            c[k],
                        ) is Some,
                decreases context.len() - j,
            {
                let elem = &context[j];
                assert(c[j as int] == elem@);
                if out.get(elem).is_none() {
                    if let Some(s) = stands_on(rows, given, elem) {
                        let entry = (elem.copied(), s);
                        proof {
                            model::deep_push(out.entries@, entry);
                            assert forall|e: ContextElemV| listed(out@, e) is Some implies #[trigger] listed(
                                out@.push(entry.deep_view()),
                                e,
                            ) is Some by {
                                listed_push(out@, entry.deep_view(), e);
                            }
                            listed_push(out@, entry.deep_view(), elem@);
                        }
                        let ghost prior = out@;
                        out.entries.push(entry);
                        assert(out@ == prior.push(entry.deep_view()));
                    }
                }
                j += 1;
            }
            proof {
                assert forall|elem: ContextElemV|
                    occurs(all, i + 1, elem) && stands(all, objects, elem) is Some implies #[trigger] listed(
                    out@,
                    elem,
                ) is Some by {
                    let k = choose|k: int|
                        0 <= k < i + 1 && ((#[trigger] all[k]).0 matches QuestionV::Realise(context)
                            && context.contains(elem));
                    if k < i {
                        assert(occurs(all, i as int, elem));
                    } else {
                        let m = c.index_of(elem);
                        assert(c[m] == elem);
                    }
                }
            }
        } else {
            proof {
                assert forall|elem: ContextElemV|
                    occurs(all, i + 1, elem) && stands(all, objects, elem) is Some implies #[trigger] listed(
                    out@,
                    elem,
                ) is Some by {
                    let k = choose|k: int|
                        0 <= k < i + 1 && ((#[trigger] all[k]).0 matches QuestionV::Realise(context)
                            && context.contains(elem));
                    assert(occurs(all, i as int, elem));
                }
            }
        }
        i += 1;
    }
    proof {
        assert forall|elem: ContextElemV| occurs(all, all.len() as int, elem) implies #[trigger] listed(
            out@,
            elem,
        ) == stands(all, objects, elem) by {
            listed_sound(out@, all, objects, elem);
        }
    }
    out
}

/// An element asks for an output to be built.
pub open spec fn requires_ifd(context: Seq<ContextElemV>) -> bool {
    exists|i: int| 0 <= i < context.len() && (#[trigger] context[i]) is Built
}

/// Whether an element asks for an output to be built.
pub fn context_requires_ifd(context: &Vec<ContextElem>) -> (r: bool)
    ensures
        r == requires_ifd(context.deep_view()),
{
    let ghost all = context.deep_view();
    let mut i: usize = 0;
    while i < context.len()
        invariant
            i <= context.len(),
            all == context.deep_view(),
            forall|j: int| 0 <= j < i ==> !((#[trigger] all[j]) is Built),
        decreases context.len() - i,
    {
        assert(all[i as int] == context@[i as int]@);
        if let ContextElem::Built { .. } = &context[i] {
            return true;
        }
        i += 1;
    }
    false
}

/// All of the texts are in the set.
pub open spec fn all_in(v: Seq<Seq<char>>, set: Seq<Seq<char>>) -> bool {
    forall|i: int| 0 <= i < v.len() ==> set.contains(#[trigger] v[i])
}

/// The texts of `v` added to the set, one by one.
pub open spec fn including(set: Seq<Seq<char>>, v: Seq<Seq<char>>, n: int) -> Seq<Seq<char>>
    decreases n,
{
    if n <= 0 {
        set
    } else {
        ordered::included(including(set, v, n - 1), v[n - 1])
    }
}

/// The paths that the first `n` elements need: all that they stand on, but
/// for a path that is mounted.
pub open spec fn needs_of(
    context: Seq<ContextElemV>,
    resolved: Seq<StandsOnV>,
    mounted: Seq<Seq<char>>,
    n: int,
) -> Seq<Seq<char>>
    decreases n,
{
    if n <= 0 {
        Seq::empty()
    } else {
        let prior = needs_of(context, resolved, mounted, n - 1);
        let needs = resolved[n - 1].needs;
        if context[n - 1] is Opaque && all_in(needs, mounted) {
            prior
        } else {
            including(prior, needs, needs.len() as int)
        }
    }
}

/// What the first `n` elements come to where all they stand on is there:
/// their outputs, and where outputs may be unknown while evaluating, each
/// output's placeholder to its path. `None` where a placeholder is not known.
pub open spec fn comes_to(
    context: Seq<ContextElemV>,
    resolved: Seq<StandsOnV>,
    ca: bool,
    placeholders: Seq<(Seq<char>, Seq<char>)>,
    n: int,
) -> Option<NothingToBuildV>
    decreases n,
{
    if n <= 0 {
        Some(NothingToBuildV { rewrites: Seq::empty(), outputs: Seq::empty() })
    } else {
        match comes_to(context, resolved, ca, placeholders, n - 1) {
            None => None,
            Some(b) => match resolved[n - 1].output {
                None => Some(b),
                Some(path) => if ca && context[n - 1] is Built {
                    match ordered::find(placeholders, context[n - 1].shown()) {
                        None => None,
                        Some(p) => Some(
                            NothingToBuildV {
                                rewrites: ordered::put(b.rewrites, p, path),
                                outputs: b.outputs.push(path),
                            },
                        ),
                    }
                } else {
                    Some(NothingToBuildV { rewrites: b.rewrites, outputs: b.outputs.push(path) })
                },
            },
        }
    }
}

/// Every element is resolved, and there is one.
pub open spec fn all_resolved(resolved: Seq<Option<StandsOnV>>) -> bool {
    resolved.len() > 0 && forall|i: int| 0 <= i < resolved.len() ==> (#[trigger] resolved[i]) is Some
}

pub open spec fn unwrapped(resolved: Seq<Option<StandsOnV>>) -> Seq<StandsOnV> {
    Seq::new(resolved.len(), |i: int| resolved[i]->0)
}

/// What every element stands on, where all are resolved and there is one.
pub fn resolve_all(resolved: Vec<Option<StandsOn>>) -> (r: Option<Vec<StandsOn>>)
    ensures
        match r {
            Some(v) => all_resolved(resolved.deep_view()) && v.deep_view() == unwrapped(
                resolved.deep_view(),
            ),
            None => !all_resolved(resolved.deep_view()),
        },
{
    let ghost all = resolved.deep_view();
    if resolved.len() == 0 {
        return None;
    }
    let mut v: Vec<StandsOn> = Vec::new();
    let mut i: usize = 0;
    while i < resolved.len()
        invariant
            i <= resolved.len(),
            all == resolved.deep_view(),
            v.len() == i,
            forall|j: int| 0 <= j < i ==> #[trigger] all[j] == Some(v@[j]@),
        decreases resolved.len() - i,
    {
        assert(all[i as int] == resolved@[i as int].deep_view());
        match &resolved[i] {
            Some(s) => v.push(s.copied()),
            None => {
                return None;
            },
        }
        i += 1;
    }
    proof {
        assert(v.deep_view() =~= unwrapped(all)) by {
            assert forall|j: int| 0 <= j < v.len() implies v@[j].deep_view() == unwrapped(all)[j] by {
                assert(all[j] == Some(v@[j]@));
            }
        }
    }
    Some(v)
}

pub fn include_all(set: &mut TextSet, v: &Vec<String>)
    ensures
        final(set)@ == including(old(set)@, v.deep_view(), v@.len() as int),
        old(set).wf() ==> final(set).wf(),
{
    let ghost start = set@;
    let ghost all = v.deep_view();
    let mut i: usize = 0;
    while i < v.len()
        invariant
            i <= v.len(),
            all == v.deep_view(),
            set@ == including(start, all, i as int),
            old(set).wf() ==> set.wf(),
        decreases v.len() - i,
    {
        let _ = set.insert(v[i].clone());
        i += 1;
    }
}

pub fn every_in(v: &Vec<String>, set: &TextSet) -> (r: bool)
    ensures
        r == all_in(v.deep_view(), set@),
{
    let ghost all = v.deep_view();
    let mut i: usize = 0;
    while i < v.len()
        invariant
            i <= v.len(),
            all == v.deep_view(),
            forall|j: int| 0 <= j < i ==> set@.contains(#[trigger] all[j]),
        decreases v.len() - i,
    {
        if !set.contains(v[i].as_str()) {
            assert(!set@.contains(all[i as int]));
            return false;
        }
        i += 1;
    }
    true
}

/// The paths that a realisation needs, but for those that are mounted.
pub fn paths_needed(
    context: &Vec<ContextElem>,
    resolved: &Vec<StandsOn>,
    mounted: &TextSet,
) -> (r: TextSet)
    requires
        context.len() == resolved.len(),
    ensures
        r@ == needs_of(
            context.deep_view(),
            resolved.deep_view(),
            mounted@,
            context@.len() as int,
        ),
        r.wf(),
{
    let ghost c = context.deep_view();
    let ghost v = resolved.deep_view();
    let mut r = TextSet::new();
    let mut i: usize = 0;
    while i < context.len()
        invariant
            i <= context.len() == resolved.len(),
            c == context.deep_view(),
            v == resolved.deep_view(),
            r@ == needs_of(c, v, mounted@, i as int),
            r.wf(),
        decreases context.len() - i,
    {
        assert(c[i as int] == context@[i as int]@);
        assert(v[i as int] == resolved@[i as int]@);
        let opaque = match &context[i] {
            ContextElem::Opaque(_) => true,
            _ => false,
        };
        let needs = &resolved[i].needs;
        if !(opaque && every_in(needs, mounted)) {
            include_all(&mut r, needs);
        }
        i += 1;
    }
    r
}

/// What a realisation comes to with nothing to build: `None` where not all
/// it stands on is there, and of an empty context.
pub fn nothing_to_build(
    context: &Vec<ContextElem>,
    resolved: &Vec<StandsOn>,
    held: bool,
    ca_derivations: bool,
    placeholders: &TextMap<String>,
) -> (r: Option<NothingToBuild>)
    requires
        context.len() == resolved.len(),
    ensures
        r.deep_view() == (if held && context@.len() > 0 {
            comes_to(
                context.deep_view(),
                resolved.deep_view(),
                ca_derivations,
                placeholders@,
                context@.len() as int,
            )
        } else {
            None
        }),
{
    if !held || context.len() == 0 {
        return None;
    }
    let ghost c = context.deep_view();
    let ghost v = resolved.deep_view();
    let ghost n = context@.len() as int;
    let mut b = NothingToBuild { rewrites: TextMap::new(), outputs: Vec::new() };
    assert(b.outputs.deep_view() =~= Seq::<Seq<char>>::empty());
    let mut i: usize = 0;
    while i < context.len()
        invariant
            i <= context.len() == resolved.len(),
            n == context@.len(),
            c == context.deep_view(),
            v == resolved.deep_view(),
            held,
            comes_to(c, v, ca_derivations, placeholders@, i as int) == Some(b@),
        decreases context.len() - i,
    {
        assert(c[i as int] == context@[i as int]@);
        assert(v[i as int] == resolved@[i as int]@);
        if let Some(path) = &resolved[i].output {
            let is_built = match &context[i] {
                ContextElem::Built { .. } => true,
                _ => false,
            };
            if ca_derivations && is_built {
                match placeholders.get(context[i].display().as_str()) {
                    None => {
                        proof {
                            assert(comes_to(c, v, ca_derivations, placeholders@, i + 1) is None);
                            comes_to_none(c, v, ca_derivations, placeholders@, i + 1, n);
                        }
                        return None;
                    },
                    Some(p) => {
                        b.rewrites.insert(p.clone(), path.clone());
                    },
                }
            }
            let ghost prior = b.outputs@;
            b.outputs.push(path.clone());
            assert(b.outputs.deep_view() =~= model::deep(prior).push(path@));
            assert(model::deep(prior) =~= comes_to(
                c,
                v,
                ca_derivations,
                placeholders@,
                i as int,
            )->0.outputs);
        }
        i += 1;
    }
    Some(b)
}

proof fn comes_to_none(
    context: Seq<ContextElemV>,
    resolved: Seq<StandsOnV>,
    ca: bool,
    placeholders: Seq<(Seq<char>, Seq<char>)>,
    i: int,
    n: int,
)
    requires
        0 <= i <= n,
        comes_to(context, resolved, ca, placeholders, i) is None,
    ensures
        comes_to(context, resolved, ca, placeholders, n) is None,
    decreases n - i,
{
    if i < n {
        comes_to_none(context, resolved, ca, placeholders, i + 1, n);
    }
}

/// Where no output is content addressed, nothing is rewritten.
pub proof fn nothing_is_rewritten(
    context: Seq<ContextElemV>,
    resolved: Seq<StandsOnV>,
    placeholders: Seq<(Seq<char>, Seq<char>)>,
    n: int,
)
    requires
        0 <= n,
    ensures
        comes_to(context, resolved, false, placeholders, n) matches Some(b) && b.rewrites
            == Seq::<(Seq<char>, Seq<char>)>::empty(),
    decreases n,
{
    if n > 0 {
        nothing_is_rewritten(context, resolved, placeholders, n - 1);
    }
}

/// What is known of the store while rows are replayed.
pub struct Validity {
    /// Paths that the store was seen to hold.
    pub present: TextSet,
    /// Paths that a served fetch would have mounted.
    pub mounted: TextSet,
    /// The store still answers.
    pub store_answers: bool,
}

/// The model of [`Validity`].
#[verifier::ext_equal]
pub struct ValidityV {
    pub present: Seq<Seq<char>>,
    pub mounted: Seq<Seq<char>>,
    pub store_answers: bool,
}

impl View for Validity {
    type V = ValidityV;

    open spec fn view(&self) -> ValidityV {
        ValidityV {
            present: self.present@,
            mounted: self.mounted@,
            store_answers: self.store_answers,
        }
    }
}

impl ValidityV {
    /// What is known after the store was asked for a path: whether it holds it.
    pub open spec fn told(
        self,
        path: Seq<char>,
        reply: Result<Seq<Seq<char>>, StoreErrorV>,
    ) -> (ValidityV, bool) {
        match reply {
            Ok(held) => if held.contains(path) {
                (
                    ValidityV {
                        present: ordered::included(self.present, path),
                        mounted: self.mounted,
                        store_answers: self.store_answers,
                    },
                    true,
                )
            } else {
                (self, false)
            },
            Err(_) => (
                ValidityV { present: self.present, mounted: self.mounted, store_answers: false },
                false,
            ),
        }
    }

    /// With a path that a served fetch would have mounted.
    pub open spec fn mounting(self, path: Seq<char>) -> ValidityV {
        ValidityV {
            present: self.present,
            mounted: ordered::included(self.mounted, path),
            store_answers: self.store_answers,
        }
    }
}

/// From what is known in `s`, the host is found to hold the path or not, and
/// `t` is known: without a question where that is known or the store does not
/// answer, else by the one question.
pub open spec fn held<H: Host>(h: &H, s: ValidityV, path: Seq<char>, t: ValidityV, b: bool) -> bool {
    if s.present.contains(path) {
        b && t == s
    } else if !s.store_answers {
        !b && t == s
    } else {
        exists|reply: Result<Seq<Seq<char>>, StoreErrorV>| #[trigger]
            h.answers(Ask::ValidPaths(seq![path]), Reply::Valid(reply)) && (t, b) == s.told(
                path,
                reply,
            )
    }
}

/// The first `n` paths are each found held, and `t` is known.
pub open spec fn held_upto<H: Host>(
    h: &H,
    s: ValidityV,
    paths: Seq<Seq<char>>,
    n: int,
    t: ValidityV,
) -> bool
    decreases n,
{
    if n <= 0 {
        t == s
    } else {
        exists|u: ValidityV|
            held_upto(h, s, paths, n - 1, u) && #[trigger] held(h, u, paths[n - 1], t, true)
    }
}

/// All the paths are found held; or not, from the first that is not found so.
pub open spec fn all_held<H: Host>(
    h: &H,
    s: ValidityV,
    paths: Seq<Seq<char>>,
    t: ValidityV,
    b: bool,
) -> bool {
    if b {
        held_upto(h, s, paths, paths.len() as int, t)
    } else {
        exists|k: int, u: ValidityV|
            0 <= k < paths.len() && #[trigger] held_upto(h, s, paths, k, u) && held(
                h,
                u,
                paths[k],
                t,
                false,
            )
    }
}

proof fn held_step<H: Host>(
    h: &H,
    s: ValidityV,
    paths: Seq<Seq<char>>,
    n: int,
    u: ValidityV,
    t: ValidityV,
)
    requires
        0 < n <= paths.len(),
        held_upto(h, s, paths, n - 1, u),
        held(h, u, paths[n - 1], t, true),
    ensures
        held_upto(h, s, paths, n, t),
{
}

impl Validity {
    /// Takes in whether the store holds a path.
    pub fn learn(&mut self, path: &str, reply: &Result<TextSet, StoreError>) -> (b: bool)
        ensures
            (final(self)@, b) == old(self)@.told(path@, model::outcome(*reply)),
    {
        match reply {
            Ok(held) => if held.contains(path) {
                let _ = self.present.insert(path.to_owned());
                true
            } else {
                false
            },
            Err(_) => {
                self.store_answers = false;
                false
            },
        }
    }

    /// Whether the store holds the path.
    pub fn holds<H: Host>(&mut self, host: &H, path: &str) -> (b: bool)
        ensures
            held(host, old(self)@, path@, final(self)@, b),
    {
        if self.present.contains(path) {
            return true;
        }
        if !self.store_answers {
            return false;
        }
        let mut asked: Vec<String> = Vec::new();
        asked.push(path.to_owned());
        assert(asked.deep_view() =~= seq![path@]);
        let reply = host.valid_paths(&asked);
        self.learn(path, &reply)
    }

    /// Whether the store holds all the paths.
    pub fn holds_all<H: Host>(&mut self, host: &H, paths: &TextSet) -> (b: bool)
        ensures
            all_held(host, old(self)@, paths@, final(self)@, b),
    {
        let ghost start = self@;
        let mut i: usize = 0;
        while i < paths.items.len()
            invariant
                i <= paths.items.len(),
                start == old(self)@,
                held_upto(host, start, paths@, i as int, self@),
            decreases paths.items.len() - i,
        {
            let ghost u = self@;
            let b = self.holds(host, paths.items[i].as_str());
            assert(held(host, u, paths@[i as int], self@, b));
            if !b {
                assert(held_upto(host, start, paths@, i as int, u));
                return false;
            }
            proof {
                held_step(host, start, paths@, i + 1, u, self@);
            }
            i += 1;
        }
        true
    }
}

/// A derivation's text is the one that it was last written from.
pub proof fn the_last_text_counts(rows: RowsV, n: int, drv: Seq<char>, i: int)
    requires
        0 <= i < n <= rows.len(),
        rows[i].0 matches QuestionV::WriteDrv {
            name: _,
            answer: WriteDrvAnswerV::Written(path),
            aterm: _,
        } && path == drv,
        forall|j: int|
            i < j < n ==> !((#[trigger] rows[j]).0 matches QuestionV::WriteDrv {
                name: _,
                answer: WriteDrvAnswerV::Written(path),
                aterm: _,
            } && path == drv),
    ensures
        rows[i].0 matches QuestionV::WriteDrv { name: _, answer: _, aterm } && aterm_of(
            rows,
            n,
            drv,
        ) == Some(aterm),
    decreases n,
{
    if i < n - 1 {
        the_last_text_counts(rows, n - 1, drv, i);
        assert(!(rows[n - 1].0 matches QuestionV::WriteDrv {
            name: _,
            answer: WriteDrvAnswerV::Written(path),
            aterm: _,
        } && path == drv));
    }
}

/// An output stands on its derivation and on the path that the derivation
/// gives the output of that name, which must be known.
pub proof fn what_an_output_stands_on(
    outputs: Seq<DrvOutputV>,
    drv: Seq<char>,
    output: Seq<char>,
    i: int,
)
    requires
        0 <= i < outputs.len(),
        outputs[i].name == output,
        forall|j: int| 0 <= j < i ==> (#[trigger] outputs[j]).name != output,
    ensures
        outputs[i].path.len() > 0 ==> (built(outputs, drv, output) matches Some(on) && on.needs
            == seq![drv, outputs[i].path] && on.output == Some(outputs[i].path)),
        outputs[i].path.len() == 0 ==> built(outputs, drv, output) is None,
    decreases outputs.len(),
{
    if i > 0 {
        let rest = outputs.drop_first();
        assert(outputs[0].name != output);
        assert forall|j: int| 0 <= j < i - 1 implies (#[trigger] rest[j]).name != output by {
            assert(rest[j] == outputs[j + 1]);
        }
        what_an_output_stands_on(rest, drv, output, i - 1);
    }
}

/// What a realisation comes to with nothing to build: the paths of the outputs
/// it asks for, in their order; and where outputs may be unknown while
/// evaluating, each rewrite is of an output's placeholder to its path.
pub proof fn what_nothing_to_build_comes_to(
    context: Seq<ContextElemV>,
    resolved: Seq<StandsOnV>,
    ca: bool,
    placeholders: Seq<(Seq<char>, Seq<char>)>,
    n: int,
) -> (at: Seq<int>)
    requires
        0 <= n <= context.len(),
        context.len() == resolved.len(),
        comes_to(context, resolved, ca, placeholders, n) is Some,
    ensures
        ({
            let b = comes_to(context, resolved, ca, placeholders, n)->0;
            &&& b.outputs.len() == at.len()
            &&& forall|k: int|
                0 <= k < at.len() ==> 0 <= #[trigger] at[k] < n && resolved[at[k]].output == Some(
                    b.outputs[k],
                )
            &&& forall|j: int, k: int| 0 <= j < k < at.len() ==> #[trigger] at[j] < #[trigger] at[k]
            &&& forall|i: int|
                0 <= i < n && (#[trigger] resolved[i]).output is Some ==> at.contains(i)
            &&& !ca ==> b.rewrites.len() == 0
            &&& forall|p: Seq<char>| #[trigger]
                ordered::find(b.rewrites, p) is Some ==> exists|i: int|
                    0 <= i < n && (#[trigger] context[i]) is Built && resolved[i].output
                        == ordered::find(b.rewrites, p) && ordered::find(
                        placeholders,
                        context[i].shown(),
                    ) == Some(p)
            &&& forall|i: int|
                0 <= i < n && ca && (#[trigger] context[i]) is Built && resolved[i].output is Some
                    ==> (ordered::find(placeholders, context[i].shown()) matches Some(p)
                    && ordered::find(b.rewrites, p) is Some)
        }),
    decreases n,
{
    if n <= 0 {
        Seq::empty()
    } else {
        let prior = what_nothing_to_build_comes_to(context, resolved, ca, placeholders, n - 1);
        let a = comes_to(context, resolved, ca, placeholders, n - 1)->0;
        let b = comes_to(context, resolved, ca, placeholders, n)->0;
        match resolved[n - 1].output {
            None => prior,
            Some(path) => {
                let at = prior.push(n - 1);
                if ca && context[n - 1] is Built {
                    let p = ordered::find(placeholders, context[n - 1].shown())->0;
                    ordered::put_found(a.rewrites, p, path);
                    assert forall|x: Seq<char>| #[trigger]
                        ordered::find(b.rewrites, x) is Some implies exists|i: int|
                        0 <= i < n && (#[trigger] context[i]) is Built && resolved[i].output
                            == ordered::find(b.rewrites, x) && ordered::find(
                            placeholders,
                            context[i].shown(),
                        ) == Some(x) by {
                        if x == p {
                            assert(context[n - 1] is Built);
                        } else {
                            ordered::put_keeps(a.rewrites, p, path, x);
                            assert(ordered::find(a.rewrites, x) is Some);
                        }
                    }
                    assert forall|i: int|
                        0 <= i < n && ca && (#[trigger] context[i]) is Built && resolved[i].output
                            is Some implies (ordered::find(
                        placeholders,
                        context[i].shown(),
                    ) matches Some(x) && ordered::find(b.rewrites, x) is Some) by {
                        if i < n - 1 {
                            let x = ordered::find(placeholders, context[i].shown())->0;
                            if x != p {
                                ordered::put_keeps(a.rewrites, p, path, x);
                            }
                        }
                    }
                } else {
                    assert forall|x: Seq<char>| #[trigger]
                        ordered::find(b.rewrites, x) is Some implies exists|i: int|
                        0 <= i < n && (#[trigger] context[i]) is Built && resolved[i].output
                            == ordered::find(b.rewrites, x) && ordered::find(
                            placeholders,
                            context[i].shown(),
                        ) == Some(x) by {
                        assert(ordered::find(a.rewrites, x) is Some);
                    }
                }
                assert forall|i: int|
                    0 <= i < n && (#[trigger] resolved[i]).output is Some implies at.contains(i) by {
                    if i < n - 1 {
                        let k = prior.index_of(i);
                        assert(at[k] == i);
                    } else {
                        assert(at[prior.len() as int] == i);
                    }
                }
                assert forall|k: int| 0 <= k < at.len() implies 0 <= #[trigger] at[k] < n
                    && resolved[at[k]].output == Some(b.outputs[k]) by {
                    if k < prior.len() {
                        assert(at[k] == prior[k]);
                    }
                }
                at
            },
        }
    }
}

/// A path counts as held only where the store says so; a store that fails once
/// is not asked again, and what it said before stays known.
pub proof fn what_the_store_says_counts(
    s: ValidityV,
    path: Seq<char>,
    reply: Result<Seq<Seq<char>>, StoreErrorV>,
)
    ensures
        s.told(path, reply).1 <==> (reply matches Ok(held) && held.contains(path)),
        reply is Err ==> !s.told(path, reply).0.store_answers && s.told(path, reply).0.present
            == s.present,
        reply is Ok ==> s.told(path, reply).0.store_answers == s.store_answers,
        s.told(path, reply).0.mounted == s.mounted,
        reply matches Ok(held) && !held.contains(path) ==> s.told(path, reply).0 == s,
{
}

/// A path that is known to be held is not asked for again, and of a store that
/// does not answer nothing more is.
pub proof fn what_is_known_is_not_asked<H: Host>(
    h: &H,
    s: ValidityV,
    path: Seq<char>,
    t: ValidityV,
    b: bool,
)
    requires
        held(h, s, path, t, b),
    ensures
        s.present.contains(path) ==> b && t == s,
        !s.present.contains(path) && !s.store_answers ==> !b && t == s,
{
}

} // verus!
