//! What the report gathers across runs: every example seen (and whether it
//! looks flaky), the mobile and wasm platforms seen, and the runs themselves.
use vstd::prelude::*;

use crate::model::{
    Example,
    ExampleCategory,
    ExampleId,
    ImageUrl,
    Kind,
    Platform,
    PlatformView,
    ScreenshotState,
    Shot,
    SnapshotViewerUrl,
    parse_kind,
    parse_platform,
};
use crate::run::{
    MalformedLine,
    ResultMap,
    Run,
    ShotMap,
    inner,
    opt_view,
    all_listed,
    first_unlisted,
    listed_example,
    parse_listed_examples,
    set_outcome,
    set_result,
};
use crate::table::{
    NameSet,
    Table,
    has_key_at,
    keys_distinct,
    lemma_pairs_view_at,
    lemma_pairs_view_dom,
    pairs_view,
};
use crate::text::{
    after_first,
    after_first_exec,
    chars_of,
    first_piece,
    lemma_insert_keeps_sorted,
    lex_le,
    lex_le_exec,
    lex_sorted,
    first_piece_exec,
    lemma_rfind_in_range,
    lines,
    rfind,
    rfind_exec,
    second_piece,
    second_piece_exec,
    slice_chars,
    starts_with,
    starts_with_exec,
    string_of,
};

verus! {

/// Examples by `(category, name)`, with whether they look flaky.
pub type ExampleMap = Map<(Seq<char>, Seq<char>), bool>;

/// Why a result file name cannot be read.
#[derive(Clone, Copy, Debug, PartialEq, Eq, Structural)]
pub enum FileNameError {
    /// A `wasm-` file name with no `-` before its kind.
    WasmWithoutKind,
    /// A `wasm-` file name whose kind is not one of the known kinds.
    UnknownWasmKind,
    /// A file name that does not start with a known platform.
    UnknownPlatform,
    /// A file name with no `-` after its platform.
    MissingKind,
}

/// The file name with its `wasm-` prefix removed.
pub open spec fn wasm_rest(name: Seq<char>) -> Seq<char> {
    name.skip("wasm-"@.len() as int)
}

/// What a result file name says: the platform and the kind of result.
/// `wasm-<tag>-<kind>` is for the wasm platform `<tag>`; otherwise
/// `<platform>-<kind>...`, where an unknown kind means the file is skipped (`None`).
pub open spec fn classify(name: Seq<char>) -> Result<Option<(PlatformView, Kind)>, FileNameError> {
    if starts_with(name, "wasm-"@) {
        let rest = wasm_rest(name);
        match rfind(rest, '-') {
            None => Err(FileNameError::WasmWithoutKind),
            Some(d) => match parse_kind(rest.skip(d + 1)) {
                None => Err(FileNameError::UnknownWasmKind),
                Some(k) => Ok(Some((PlatformView::Tag(rest.take(d)), k))),
            },
        }
    } else {
        match parse_platform(first_piece(name, "-"@)) {
            None => Err(FileNameError::UnknownPlatform),
            Some(p) => match second_piece(name, "-"@) {
                None => Err(FileNameError::MissingKind),
                Some(ks) => match parse_kind(ks) {
                    None => Ok(None),
                    Some(k) => Ok(Some((p, k))),
                },
            },
        }
    }
}

/// The wasm platform that a file name makes known, if any.
pub open spec fn classified_wasm_tag(name: Seq<char>) -> Option<Seq<char>> {
    if starts_with(name, "wasm-"@) {
        match classify(name) {
            Ok(Some((PlatformView::Tag(t), _))) => Some(t),
            _ => None,
        }
    } else {
        None
    }
}

/// `ex` after seeing the example `key`, flaky or not: once flaky, it stays flaky.
pub open spec fn note_example(ex: ExampleMap, key: (Seq<char>, Seq<char>), flaky: bool) -> ExampleMap {
    ex.insert(key, (ex.contains_key(key) && ex[key]) || flaky)
}

/// Examples and outcomes after a result list of kind `k` on `p`: every listed
/// example is recorded (flaky unless `k` is `Successes`) and its outcome on `p`
/// set to `k`.
pub open spec fn apply_outcomes(
    ex: ExampleMap,
    res: ResultMap,
    ls: Seq<Seq<char>>,
    p: PlatformView,
    k: Kind,
) -> (ExampleMap, ResultMap)
    decreases ls.len(),
{
    if ls.len() == 0 {
        (ex, res)
    } else {
        let before = apply_outcomes(ex, res, ls.drop_last(), p, k);
        let key = listed_example(ls.last()).unwrap();
        (note_example(before.0, key, k != Kind::Successes), set_result(before.1, key.1, p, k))
    }
}

/// What the screenshot service reports for one example.
pub struct ScreenshotData {
    /// The example, as the service names it.
    pub example: String,
    pub screenshot: ImageUrl,
    pub changed: ScreenshotState,
    /// The platform the screenshot was taken on, where the service says.
    pub tag: Option<String>,
    /// Whether the comparison measured no difference at all.
    pub diff_is_zero: bool,
    pub snapshot_url: SnapshotViewerUrl,
}

/// Screenshot data that cannot be placed.
#[derive(Clone, Copy, Debug, PartialEq, Eq, Structural)]
pub struct UnplacedShot {
    /// The index of the screenshot in the list.
    pub index: usize,
}

/// The tag of a mobile screenshot named `<a>-<b>-<c>...`: `"<a> <c> / <b>"`.
pub open spec fn mobile_tag(e: Seq<char>) -> Option<Seq<char>> {
    match after_first(e, "-"@) {
        None => None,
        Some(r1) => match after_first(r1, "-"@) {
            None => None,
            Some(r2) => Some(
                first_piece(e, "-"@) + " "@ + first_piece(r2, "-"@) + " / "@ + first_piece(r1, "-"@),
            ),
        },
    }
}

/// Where a screenshot of `e` on `p` belongs: its category, its example name
/// and its tag. Mobile screenshots go to the `Mobile` category (an untagged
/// one is tagged from its name and counts as `Bevy Mobile Example`); those of a
/// known wasm platform go to `Wasm` under the name after the first `/` (up to
/// the first `.`); others are `category/name` up to the first `.`.
pub open spec fn shot_place(
    e: Seq<char>,
    tag: Option<Seq<char>>,
    p: PlatformView,
    wasm: Set<Seq<char>>,
) -> Option<(Seq<char>, Seq<char>, Option<Seq<char>>)> {
    if p == PlatformView::Mobile {
        match tag {
            Some(t) => Some(("Mobile"@, e, Some(t))),
            None => match mobile_tag(e) {
                Some(t) => Some(("Mobile"@, "Bevy Mobile Example"@, Some(t))),
                None => None,
            },
        }
    } else if p matches PlatformView::Tag(t) && wasm.contains(t) {
        let base = first_piece(e, "."@);
        Some(
            (
                "Wasm"@,
                match after_first(base, "/"@) {
                    Some(r) => r,
                    None => base,
                },
                tag,
            ),
        )
    } else {
        let d = first_piece(e, "."@);
        match second_piece(d, "/"@) {
            Some(n) => Some((first_piece(d, "/"@), n, tag)),
            None => None,
        }
    }
}

/// The state a screenshot is recorded with: a change of zero is no change.
pub open spec fn recorded_state(s: ScreenshotData) -> ScreenshotState {
    if s.diff_is_zero && s.changed == ScreenshotState::Changed {
        ScreenshotState::Similar
    } else {
        s.changed
    }
}

/// Examples, mobile platforms, outcomes and screenshots.
pub type ShotState = (ExampleMap, Set<Seq<char>>, ResultMap, ShotMap);

/// The state after one screenshot `s` taken on `p`: its example is recorded
/// (flaky when the screenshot changed), a mobile tag is recorded, an outcome
/// `Successes` is set where the example has none on the screenshot's platform,
/// and the screenshot is stored.
pub open spec fn apply_shot(st: ShotState, s: ScreenshotData, p: PlatformView, wasm: Set<Seq<char>>) -> ShotState {
    let place = shot_place(s.example@, opt_view(s.tag), p, wasm).unwrap();
    let name = place.1;
    let p2 = match place.2 {
        Some(t) => PlatformView::Tag(t),
        None => p,
    };
    let ri = inner(st.2, name);
    (
        note_example(st.0, (place.0, name), s.changed == ScreenshotState::Changed),
        if p == PlatformView::Mobile {
            st.1.insert(place.2.unwrap())
        } else {
            st.1
        },
        st.2.insert(
            name,
            if ri.contains_key(p2) {
                ri
            } else {
                ri.insert(p2, Kind::Successes)
            },
        ),
        st.3.insert(
            name,
            inner(st.3, name).insert(p2, (s.screenshot@, recorded_state(s), s.snapshot_url@)),
        ),
    )
}

pub open spec fn apply_shots(
    st: ShotState,
    shots: Seq<ScreenshotData>,
    p: PlatformView,
    wasm: Set<Seq<char>>,
) -> ShotState
    decreases shots.len(),
{
    if shots.len() == 0 {
        st
    } else {
        apply_shot(apply_shots(st, shots.drop_last(), p, wasm), shots.last(), p, wasm)
    }
}

/// The index of the first screenshot that cannot be placed.
pub open spec fn first_unplaced(shots: Seq<ScreenshotData>, p: PlatformView, wasm: Set<Seq<char>>, i: int) -> bool {
    &&& 0 <= i < shots.len()
    &&& shot_place(shots[i].example@, opt_view(shots[i].tag), p, wasm) is None
    &&& forall|j: int|
        0 <= j < i ==> (#[trigger] shot_place(shots[j].example@, opt_view(shots[j].tag), p, wasm)) is Some
}

pub open spec fn all_placed(shots: Seq<ScreenshotData>, p: PlatformView, wasm: Set<Seq<char>>) -> bool {
    forall|j: int|
        0 <= j < shots.len() ==> (#[trigger] shot_place(shots[j].example@, opt_view(shots[j].tag), p, wasm)) is Some
}

/// `run` says that `name` failed on `p`.
pub open spec fn failed_on(run: Run, name: Seq<char>, p: PlatformView) -> bool {
    &&& run.results@.contains_key(name)
    &&& run.results@[name].contains_key(p)
    &&& run.results@[name][p] == Kind::Failures
}

/// Some run has a screenshot of `name`.
pub open spec fn has_screenshot(runs: Seq<Run>, name: Seq<char>) -> bool {
    exists|i: int| 0 <= i < runs.len() && (#[trigger] runs[i]).screenshots@.contains_key(name)
}

/// Some run says that `name` failed somewhere.
pub open spec fn has_failures(runs: Seq<Run>, name: Seq<char>) -> bool {
    exists|i: int, p: PlatformView| 0 <= i < runs.len() && #[trigger] failed_on(runs[i], name, p)
}

/// Whether an example still counts as flaky once all runs are in: only one
/// that has a screenshot or a failure somewhere can be flaky.
pub open spec fn stays_flaky(runs: Seq<Run>, name: Seq<char>, flaky: bool) -> bool {
    flaky && (has_screenshot(runs, name) || has_failures(runs, name))
}

/// The identity of an example.
pub open spec fn example_key(e: Example) -> (Seq<char>, Seq<char>) {
    (e.category@, e.name@)
}

/// What examples are ordered by: `category/name`.
pub open spec fn example_sort_key(e: Example) -> Seq<char> {
    e.category@ + "/"@ + e.name@
}

/// `out` lists the examples of `ex` once each, with their flakiness settled
/// against `runs`, ordered by `category/name`.
pub open spec fn settled_examples(out: Seq<Example>, ex: ExampleMap, runs: Seq<Run>) -> bool {
    &&& forall|i: int|
        0 <= i < out.len() ==> ex.contains_key(example_key(#[trigger] out[i])) && out[i].flaky
            == stays_flaky(runs, out[i].name@, ex[example_key(out[i])])
    &&& forall|k: (Seq<char>, Seq<char>)|
        ex.contains_key(k) ==> exists|i: int| 0 <= i < out.len() && example_key(#[trigger] out[i]) == k
    &&& forall|i: int, j: int|
        0 <= i < out.len() && 0 <= j < out.len() && i != j ==> example_key(#[trigger] out[i])
            != example_key(#[trigger] out[j])
    &&& forall|i: int, j: int|
        0 <= i < j < out.len() ==> lex_le(
            example_sort_key(#[trigger] out[i]),
            example_sort_key(#[trigger] out[j]),
        )
}

/// Lists that hold the same entries of a map, with flakiness settled, hold the
/// same examples once each.
proof fn lemma_settled(out: Seq<Example>, es: Seq<(ExampleId, bool)>, ex: ExampleMap, runs: Seq<Run>)
    requires
        keys_distinct(es),
        pairs_view(es) == ex,
        out.map_values(|x: Example| (example_key(x), x.flaky)).to_multiset() == es.map_values(
            |e: (ExampleId, bool)| (e.0@, stays_flaky(runs, e.0.name@, e.1)),
        ).to_multiset(),
    ensures
        forall|i: int|
            0 <= i < out.len() ==> ex.contains_key(example_key(#[trigger] out[i])) && out[i].flaky
                == stays_flaky(runs, out[i].name@, ex[example_key(out[i])]),
        forall|k: (Seq<char>, Seq<char>)|
            ex.contains_key(k) ==> exists|i: int|
                0 <= i < out.len() && example_key(#[trigger] out[i]) == k,
        forall|i: int, j: int|
            0 <= i < out.len() && 0 <= j < out.len() && i != j ==> example_key(#[trigger] out[i])
                != example_key(#[trigger] out[j]),
{
    broadcast use vstd::seq_lib::group_to_multiset_ensures;

    let f = |e: (ExampleId, bool)| (e.0@, stays_flaky(runs, e.0.name@, e.1));
    let g = |x: Example| (example_key(x), x.flaky);
    let fs = es.map_values(f);
    let gs = out.map_values(g);
    assert forall|i: int| 0 <= i < out.len() implies ex.contains_key(example_key(#[trigger] out[i]))
        && out[i].flaky == stays_flaky(runs, out[i].name@, ex[example_key(out[i])]) by {
        assert(gs[i] == g(out[i]));
        assert(gs.contains(g(out[i])));
        assert(gs.to_multiset().count(g(out[i])) > 0);
        assert(fs.contains(g(out[i])));
        let j = choose|j: int| 0 <= j < fs.len() && fs[j] == g(out[i]);
        assert(fs[j] == f(es[j]));
        lemma_pairs_view_at(es, j);
    }
    assert forall|k: (Seq<char>, Seq<char>)| ex.contains_key(k) implies exists|i: int|
        0 <= i < out.len() && example_key(#[trigger] out[i]) == k by {
        lemma_pairs_view_dom(es, k);
        let j = choose|j: int| has_key_at(es, k, j);
        assert(fs[j] == f(es[j]));
        assert(fs.contains(f(es[j])));
        assert(gs.to_multiset().count(f(es[j])) > 0);
        assert(gs.contains(f(es[j])));
        let i = choose|i: int| 0 <= i < gs.len() && gs[i] == f(es[j]);
        assert(gs[i] == g(out[i]));
    }
    assert(fs.no_duplicates()) by {
        assert forall|a: int, b: int| 0 <= a < fs.len() && 0 <= b < fs.len() && a != b implies fs[a]
            != fs[b] by {
            assert(fs[a] == f(es[a]) && fs[b] == f(es[b]));
            assert(es[a].0@ != es[b].0@);
        }
    }
    fs.lemma_multiset_has_no_duplicates();
    gs.lemma_multiset_has_no_duplicates_conv();
    assert forall|i: int, j: int|
        0 <= i < out.len() && 0 <= j < out.len() && i != j implies example_key(#[trigger] out[i])
        != example_key(#[trigger] out[j]) by {
        assert(gs[i] == g(out[i]) && gs[j] == g(out[j]));
        if example_key(out[i]) == example_key(out[j]) {
            assert(ex.contains_key(example_key(out[i])));
            assert(out[i].name@ == out[j].name@);
            assert(gs[i] == gs[j]);
        }
    }
}

/// Whether some run has a screenshot of `name`.
fn screenshot_seen(runs: &Vec<Run>, name: &String) -> (r: bool)
    ensures
        r == has_screenshot(runs@, name@),
{
    let mut i: usize = 0;
    while i < runs.len()
        invariant
            i <= runs@.len(),
            forall|j: int| 0 <= j < i ==> !(#[trigger] runs@[j]).screenshots@.contains_key(name@),
        decreases runs@.len() - i,
    {
        if runs[i].screenshots.contains_key(name) {
            assert(runs@[i as int].screenshots@.contains_key(name@));
            return true;
        }
        i += 1;
    }
    false
}

/// Whether some entry of `outcomes` is a failure.
fn failure_in(outcomes: &Table<Platform, Kind>) -> (r: bool)
    ensures
        r == exists|p: PlatformView| outcomes@.contains_key(p) && outcomes@[p] == Kind::Failures,
{
    let es = outcomes.entries();
    let mut i: usize = 0;
    while i < es.len()
        invariant
            i <= es@.len(),
            keys_distinct(es@),
            pairs_view(es@) == outcomes@,
            forall|j: int| 0 <= j < i ==> (#[trigger] es@[j]).1 != Kind::Failures,
        decreases es@.len() - i,
    {
        if es[i].1 == Kind::Failures {
            proof {
                lemma_pairs_view_at(es@, i as int);
            }
            return true;
        }
        i += 1;
    }
    assert forall|p: PlatformView| outcomes@.contains_key(p) implies outcomes@[p] != Kind::Failures by {
        lemma_pairs_view_dom(es@, p);
        let j = choose|j: int| has_key_at(es@, p, j);
        lemma_pairs_view_at(es@, j);
    }
    false
}

/// Whether some run says that `name` failed somewhere.
fn failure_seen(runs: &Vec<Run>, name: &String) -> (r: bool)
    ensures
        r == has_failures(runs@, name@),
{
    let mut i: usize = 0;
    while i < runs.len()
        invariant
            i <= runs@.len(),
            forall|j: int, p: PlatformView| 0 <= j < i ==> !#[trigger] failed_on(runs@[j], name@, p),
        decreases runs@.len() - i,
    {
        match runs[i].results.get(name) {
            Some(outcomes) => {
                if failure_in(outcomes) {
                    let ghost p = choose|p: PlatformView|
                        outcomes@.contains_key(p) && outcomes@[p] == Kind::Failures;
                    assert(failed_on(runs@[i as int], name@, p));
                    return true;
                }
            },
            None => {},
        }
        i += 1;
    }
    false
}

/// `v` lists the names of `s`, each once.
pub open spec fn lists_names(v: Seq<String>, s: Set<Seq<char>>) -> bool {
    &&& forall|i: int, j: int| 0 <= i < v.len() && 0 <= j < v.len() && i != j ==> v[i]@ != v[j]@
    &&& forall|x: Seq<char>| #[trigger] s.contains(x) <==> exists|i: int| 0 <= i < v.len() && v[i]@ == x
}

/// What the site is built from.
pub struct Collected {
    pub runs: Vec<Run>,
    pub examples: Vec<Example>,
    pub mobile_platforms: Vec<String>,
    pub wasm_platforms: Vec<String>,
}

/// Everything the report gathers.
pub struct Report {
    /// Every example seen, with whether it looks flaky.
    pub examples: Table<ExampleId, bool>,
    /// The mobile platforms seen.
    pub mobile_platforms: NameSet,
    /// The wasm platforms seen.
    pub wasm_platforms: NameSet,
    /// The runs recorded so far.
    pub runs: Vec<Run>,
}

impl Report {
    /// A report with nothing in it.
    pub fn new() -> (r: Report)
        ensures
            r.examples@ == ExampleMap::empty(),
            r.mobile_platforms@ == Set::<Seq<char>>::empty(),
            r.wasm_platforms@ == Set::<Seq<char>>::empty(),
            r.runs@.len() == 0,
    {
        Report {
            examples: Table::new(),
            mobile_platforms: NameSet::new(),
            wasm_platforms: NameSet::new(),
            runs: Vec::new(),
        }
    }

    /// Reads a result file name (see `classify`); a wasm platform it names is
    /// added to the wasm platforms.
    pub fn classify_file(&mut self, file_name: &str) -> (r: Result<
        Option<(Platform, Kind)>,
        FileNameError,
    >)
        ensures
            match r {
                Ok(Some(pk)) => classify(file_name@) == Ok::<
                    Option<(PlatformView, Kind)>,
                    FileNameError,
                >(Some((pk.0@, pk.1))),
                Ok(None) => classify(file_name@) == Ok::<
                    Option<(PlatformView, Kind)>,
                    FileNameError,
                >(None),
                Err(e) => classify(file_name@) == Err::<Option<(PlatformView, Kind)>, FileNameError>(
                    e,
                ),
            },
            final(self).wasm_platforms@ == (match classified_wasm_tag(file_name@) {
                Some(t) => old(self).wasm_platforms@.insert(t),
                None => old(self).wasm_platforms@,
            }),
            final(self).examples@ == old(self).examples@,
            final(self).mobile_platforms@ == old(self).mobile_platforms@,
            final(self).runs == old(self).runs,
    {
        let cs = chars_of(file_name);
        let prefix = chars_of("wasm-");
        if starts_with_exec(&cs, &prefix) {
            let rest = slice_chars(&cs, prefix.len(), cs.len());
            assert(rest@ == wasm_rest(file_name@));
            proof {
                lemma_rfind_in_range(rest@, '-', rest@.len() as int);
            }
            match rfind_exec(&rest, '-') {
                None => Err(FileNameError::WasmWithoutKind),
                Some(d) => {
                    let kind_chars = slice_chars(&rest, d + 1, rest.len());
                    assert(kind_chars@ == rest@.skip(d + 1));
                    let kind_name = string_of(&kind_chars);
                    match Kind::from_str(kind_name.as_str()) {
                        Err(_) => Err(FileNameError::UnknownWasmKind),
                        Ok(kind) => {
                            let tag = string_of(&slice_chars(&rest, 0, d));
                            assert(tag@ == rest@.take(d as int));
                            self.wasm_platforms.insert(tag.clone());
                            Ok(Some((Platform::Tag(tag), kind)))
                        },
                    }
                },
            }
        } else {
            let dash = chars_of("-");
            let platform_name = string_of(&first_piece_exec(&cs, &dash));
            match Platform::from_str(platform_name.as_str()) {
                Err(_) => Err(FileNameError::UnknownPlatform),
                Ok(platform) => match second_piece_exec(&cs, &dash) {
                    None => Err(FileNameError::MissingKind),
                    Some(kind_chars) => {
                        let kind_name = string_of(&kind_chars);
                        match Kind::from_str(kind_name.as_str()) {
                            Err(_) => Ok(None),
                            Ok(kind) => Ok(Some((platform, kind))),
                        }
                    },
                },
            }
        }
    }

    /// Notes that the example `(category, name)` was seen, flaky or not.
    fn note(&mut self, category: String, name: String, flaky: bool)
        ensures
            final(self).examples@ == note_example(
                old(self).examples@,
                (category@, name@),
                flaky,
            ),
            final(self).mobile_platforms@ == old(self).mobile_platforms@,
            final(self).wasm_platforms@ == old(self).wasm_platforms@,
            final(self).runs == old(self).runs,
    {
        let id = ExampleId { category, name };
        let was_flaky = match self.examples.take(&id) {
            Some(f) => f,
            None => false,
        };
        self.examples.insert(id, was_flaky || flaky);
        assert(self.examples@ =~= note_example(
            old(self).examples@,
            (category@, name@),
            flaky,
        ));
    }

    /// Records a result list of kind `kind` on `platform` into the examples
    /// and into `run`'s outcomes (see `apply_outcomes`). Nothing changes when a
    /// line names no example.
    pub fn record_outcomes(
        &mut self,
        run: &mut Run,
        platform: &Platform,
        kind: Kind,
        content: &str,
    ) -> (r: Result<(), MalformedLine>)
        ensures
            final(self).mobile_platforms@ == old(self).mobile_platforms@,
            final(self).wasm_platforms@ == old(self).wasm_platforms@,
            final(self).runs == old(self).runs,
            final(run).date == old(run).date,
            final(run).commit == old(run).commit,
            final(run).screenshots@ == old(run).screenshots@,
            final(run).logs@ == old(run).logs@,
            match r {
                Ok(()) => all_listed(lines(content@)) && (final(self).examples@, final(run).results@)
                    == apply_outcomes(
                    old(self).examples@,
                    old(run).results@,
                    lines(content@),
                    platform@,
                    kind,
                ),
                Err(e) => first_unlisted(lines(content@), e.index as int) && final(self).examples@
                    == old(self).examples@ && final(run).results@ == old(run).results@,
            },
    {
        let listed = match parse_listed_examples(content) {
            Ok(v) => v,
            Err(e) => {
                return Err(e);
            },
        };
        let ghost ls = lines(content@);
        let flaky = kind != Kind::Successes;
        let mut i: usize = 0;
        while i < listed.len()
            invariant
                i <= listed@.len(),
                listed@.len() == ls.len(),
                flaky == (kind != Kind::Successes),
                forall|j: int|
                    0 <= j < listed@.len() ==> listed_example(ls[j]) == Some(
                        (#[trigger] listed@[j].0@, listed@[j].1@),
                    ),
                self.mobile_platforms@ == old(self).mobile_platforms@,
                self.wasm_platforms@ == old(self).wasm_platforms@,
                self.runs == old(self).runs,
                run.date == old(run).date,
                run.commit == old(run).commit,
                run.screenshots@ == old(run).screenshots@,
                run.logs@ == old(run).logs@,
                (self.examples@, run.results@) == apply_outcomes(
                    old(self).examples@,
                    old(run).results@,
                    ls.take(i as int),
                    platform@,
                    kind,
                ),
            decreases listed@.len() - i,
        {
            assert(ls.take(i + 1).drop_last() == ls.take(i as int));
            assert(ls.take(i + 1).last() == ls[i as int]);
            assert(listed_example(ls[i as int]) == Some(
                (listed@[i as int].0@, listed@[i as int].1@),
            ));
            let category = listed[i].0.clone();
            let name = listed[i].1.clone();
            self.note(category, name.clone(), flaky);
            set_outcome(&mut run.results, name, platform, kind);
            i += 1;
        }
        assert(ls.take(listed@.len() as int) == ls);
        Ok(())
    }

    /// Where a screenshot of `s` on `platform` belongs (see `shot_place`).
    fn place_shot(&self, s: &ScreenshotData, platform: &Platform) -> (r: Option<
        (String, String, Option<String>),
    >)
        ensures
            match r {
                Some(t) => shot_place(s.example@, opt_view(s.tag), platform@, self.wasm_platforms@)
                    == Some((t.0@, t.1@, opt_view(t.2))),
                None => shot_place(
                    s.example@,
                    opt_view(s.tag),
                    platform@,
                    self.wasm_platforms@,
                ) is None,
            },
    {
        let e = chars_of(s.example.as_str());
        let dash = chars_of("-");
        let dot = chars_of(".");
        let slash = chars_of("/");
        let is_wasm = match platform {
            Platform::Tag(t) => self.wasm_platforms.contains(t),
            _ => false,
        };
        match platform {
            Platform::Mobile => {
                match &s.tag {
                    Some(t) => {
                        return Some(("Mobile".to_owned(), s.example.clone(), Some(t.clone())));
                    },
                    None => {},
                }
                let r1 = match after_first_exec(&e, &dash) {
                    Some(r) => r,
                    None => {
                        return None;
                    },
                };
                let r2 = match after_first_exec(&r1, &dash) {
                    Some(r) => r,
                    None => {
                        return None;
                    },
                };
                let tag = string_of(&first_piece_exec(&e, &dash)).concat(" ").concat(
                    string_of(&first_piece_exec(&r2, &dash)).as_str(),
                ).concat(" / ").concat(string_of(&first_piece_exec(&r1, &dash)).as_str());
                return Some(("Mobile".to_owned(), "Bevy Mobile Example".to_owned(), Some(tag)));
            },
            _ => {},
        }
        let tag = match &s.tag {
            Some(t) => Some(t.clone()),
            None => None,
        };
        if is_wasm {
            let base = first_piece_exec(&e, &dot);
            let name = match after_first_exec(&base, &slash) {
                Some(r) => r,
                None => base,
            };
            Some(("Wasm".to_owned(), string_of(&name), tag))
        } else {
            let d = first_piece_exec(&e, &dot);
            match second_piece_exec(&d, &slash) {
                Some(n) => Some((string_of(&first_piece_exec(&d, &slash)), string_of(&n), tag)),
                None => None,
            }
        }
    }

    /// Records the screenshots of a comparison made on `platform` into the
    /// examples, the mobile platforms and `run` (see `apply_shots`). Nothing
    /// changes when a screenshot cannot be placed.
    pub fn record_screenshots(
        &mut self,
        run: &mut Run,
        platform: &Platform,
        shots: &Vec<ScreenshotData>,
    ) -> (r: Result<(), UnplacedShot>)
        ensures
            final(self).wasm_platforms@ == old(self).wasm_platforms@,
            final(self).runs == old(self).runs,
            final(run).date == old(run).date,
            final(run).commit == old(run).commit,
            final(run).logs@ == old(run).logs@,
            match r {
                Ok(()) => all_placed(shots@, platform@, old(self).wasm_platforms@) && (
                    final(self).examples@,
                    final(self).mobile_platforms@,
                    final(run).results@,
                    final(run).screenshots@,
                ) == apply_shots(
                    (
                        old(self).examples@,
                        old(self).mobile_platforms@,
                        old(run).results@,
                        old(run).screenshots@,
                    ),
                    shots@,
                    platform@,
                    old(self).wasm_platforms@,
                ),
                Err(e) => first_unplaced(shots@, platform@, old(self).wasm_platforms@, e.index as int)
                    && final(self).examples@ == old(self).examples@ && final(self).mobile_platforms@
                    == old(self).mobile_platforms@ && final(run).results@ == old(run).results@
                    && final(run).screenshots@ == old(run).screenshots@,
            },
    {
        let ghost wasm = self.wasm_platforms@;
        let mut places: Vec<(String, String, Option<String>)> = Vec::new();
        let mut i: usize = 0;
        while i < shots.len()
            invariant
                i <= shots@.len(),
                places@.len() == i,
                wasm == self.wasm_platforms@,
                forall|j: int|
                    0 <= j < i ==> shot_place(shots@[j].example@, opt_view(shots@[j].tag), platform@, wasm)
                        == Some(
                        (#[trigger] places@[j].0@, places@[j].1@, opt_view(places@[j].2)),
                    ),
            decreases shots@.len() - i,
        {
            match self.place_shot(&shots[i], platform) {
                Some(place) => {
                    places.push(place);
                },
                None => {
                    assert forall|j: int| 0 <= j < i implies (#[trigger] shot_place(
                        shots@[j].example@,
                        opt_view(shots@[j].tag),
                        platform@,
                        wasm,
                    )) is Some by {
                        assert(shot_place(shots@[j].example@, opt_view(shots@[j].tag), platform@, wasm)
                            == Some((places@[j].0@, places@[j].1@, opt_view(places@[j].2))));
                    }
                    return Err(UnplacedShot { index: i });
                },
            }
            i += 1;
        }
        assert forall|j: int| 0 <= j < shots@.len() implies (#[trigger] shot_place(
            shots@[j].example@,
            opt_view(shots@[j].tag),
            platform@,
            wasm,
        )) is Some by {
            assert(shot_place(shots@[j].example@, opt_view(shots@[j].tag), platform@, wasm) == Some(
                (places@[j].0@, places@[j].1@, opt_view(places@[j].2)),
            ));
        }
        let ghost st0 = (
            old(self).examples@,
            old(self).mobile_platforms@,
            old(run).results@,
            old(run).screenshots@,
        );
        let mut i: usize = 0;
        while i < shots.len()
            invariant
                i <= shots@.len(),
                places@.len() == shots@.len(),
                wasm == self.wasm_platforms@,
                forall|j: int|
                    0 <= j < shots@.len() ==> shot_place(
                        shots@[j].example@,
                        opt_view(shots@[j].tag),
                        platform@,
                        wasm,
                    ) == Some((#[trigger] places@[j].0@, places@[j].1@, opt_view(places@[j].2))),
                self.runs == old(self).runs,
                run.date == old(run).date,
                run.commit == old(run).commit,
                run.logs@ == old(run).logs@,
                (self.examples@, self.mobile_platforms@, run.results@, run.screenshots@)
                    == apply_shots(st0, shots@.take(i as int), platform@, wasm),
            decreases shots@.len() - i,
        {
            assert(shots@.take(i + 1).drop_last() == shots@.take(i as int));
            assert(shots@.take(i + 1).last() == shots@[i as int]);
            assert(shot_place(shots@[i as int].example@, opt_view(shots@[i as int].tag), platform@, wasm)
                == Some((places@[i as int].0@, places@[i as int].1@, opt_view(places@[i as int].2))));
            let s = &shots[i];
            let category = places[i].0.clone();
            let name = places[i].1.clone();
            let tag = match &places[i].2 {
                Some(t) => Some(t.clone()),
                None => None,
            };
            assert(opt_view(tag) == opt_view(places@[i as int].2));
            self.note(category, name.clone(), s.changed == ScreenshotState::Changed);
            match platform {
                Platform::Mobile => {
                    match &tag {
                        Some(t) => self.mobile_platforms.insert(t.clone()),
                        None => {},
                    }
                },
                _ => {},
            }
            let p2 = match tag {
                Some(t) => Platform::Tag(t),
                None => platform.clone(),
            };
            let mut outcomes = match run.results.take(&name) {
                Some(t) => t,
                None => Table::new(),
            };
            if !outcomes.contains_key(&p2) {
                outcomes.insert(p2.clone(), Kind::Successes);
            }
            run.results.insert(name.clone(), outcomes);
            let state = if s.diff_is_zero && s.changed == ScreenshotState::Changed {
                ScreenshotState::Similar
            } else {
                s.changed
            };
            let shot = Shot {
                image: ImageUrl(s.screenshot.0.clone()),
                state,
                viewer: SnapshotViewerUrl(s.snapshot_url.0.clone()),
            };
            let mut by_platform = match run.screenshots.take(&name) {
                Some(t) => t,
                None => Table::new(),
            };
            by_platform.insert(p2, shot);
            run.screenshots.insert(name, by_platform);
            proof {
                let prev = apply_shots(st0, shots@.take(i as int), platform@, wasm);
                let next = apply_shot(prev, shots@[i as int], platform@, wasm);
                assert(self.examples@ == next.0);
                assert(self.mobile_platforms@ =~= next.1);
                assert(run.results@ =~= next.2);
                assert(run.screenshots@ =~= next.3);
            }
            i += 1;
        }
        assert(shots@.take(shots@.len() as int) == shots@);
        Ok(())
    }

    /// The examples seen, each once, flakiness settled against the runs (see
    /// `stays_flaky`), ordered by `category/name`.
    pub fn settle_examples(&self) -> (r: Vec<Example>)
        ensures
            settled_examples(r@, self.examples@, self.runs@),
    {
        broadcast use vstd::seq_lib::group_to_multiset_ensures;

        let es = self.examples.entries();
        let ghost runs = self.runs@;
        let ghost f = |e: (ExampleId, bool)| (e.0@, stays_flaky(runs, e.0.name@, e.1));
        let ghost g = |x: Example| (example_key(x), x.flaky);
        let mut out: Vec<Example> = Vec::new();
        let mut keys: Vec<Vec<char>> = Vec::new();
        let slash = chars_of("/");
        let mut i: usize = 0;
        assert(out@.map_values(g) =~= es@.take(0).map_values(f));
        while i < es.len()
            invariant
                i <= es@.len(),
                keys_distinct(es@),
                pairs_view(es@) == self.examples@,
                runs == self.runs@,
                slash@ == "/"@,
                f == (|e: (ExampleId, bool)| (e.0@, stays_flaky(runs, e.0.name@, e.1))),
                g == (|x: Example| (example_key(x), x.flaky)),
                out@.len() == keys@.len(),
                forall|j: int| 0 <= j < out@.len() ==> #[trigger] keys@[j]@ == example_sort_key(out@[j]),
                lex_sorted(keys@.map_values(|k: Vec<char>| k@)),
                out@.map_values(g).to_multiset() == es@.take(i as int).map_values(f).to_multiset(),
            decreases es@.len() - i,
        {
            let id = &es[i].0;
            let flaky = es[i].1 && (screenshot_seen(&self.runs, &id.name) || failure_seen(
                &self.runs,
                &id.name,
            ));
            let example = Example {
                name: id.name.clone(),
                category: ExampleCategory(id.category.clone()),
                flaky,
            };
            let mut key = chars_of(id.category.as_str());
            let mut name_chars = chars_of(id.name.as_str());
            key.append(&mut slash.clone());
            key.append(&mut name_chars);
            assert(key@ == example_sort_key(example));
            let ghost ks = keys@.map_values(|k: Vec<char>| k@);
            let mut p = out.len();
            while p > 0 && !lex_le_exec(&keys[p - 1], &key)
                invariant
                    p <= keys@.len(),
                    ks == keys@.map_values(|k: Vec<char>| k@),
                    forall|j: int| p <= j < keys@.len() ==> !lex_le(#[trigger] ks[j], key@),
                decreases p,
            {
                p -= 1;
            }
            proof {
                lemma_insert_keeps_sorted(ks, p as int, key@);
                assert(out@.insert(p as int, example).map_values(g) =~= out@.map_values(g).insert(
                    p as int,
                    g(example),
                ));
                assert(es@.take(i + 1).map_values(f) =~= es@.take(i as int).map_values(f).push(
                    f(es@[i as int]),
                ));
                assert(g(example) == f(es@[i as int]));
            }
            let ghost old_out = out@;
            let ghost old_keys = keys@;
            keys.insert(p, key);
            out.insert(p, example);
            proof {
                assert(out@.map_values(g) =~= old_out.map_values(g).insert(p as int, g(old_out.insert(p as int, example)[p as int])));
                vstd::seq_lib::to_multiset_insert(old_out.map_values(g), p as int, g(out@[p as int]));
                vstd::seq_lib::to_multiset_build(es@.take(i as int).map_values(f), f(es@[i as int]));
            }
            assert(keys@.map_values(|k: Vec<char>| k@) =~= ks.insert(p as int, key@));
            assert forall|j: int| 0 <= j < out@.len() implies #[trigger] keys@[j]@
                == example_sort_key(out@[j]) by {
                if j < p {
                    assert(keys@[j] == old_keys[j] && out@[j] == old_out[j]);
                } else if j > p {
                    assert(keys@[j] == old_keys[j - 1] && out@[j] == old_out[j - 1]);
                }
            }
            i += 1;
        }
        assert(es@.take(es@.len() as int) == es@);
        proof {
            lemma_settled(out@, es@, self.examples@, runs);
            let ks = keys@.map_values(|k: Vec<char>| k@);
            assert forall|a: int, b: int| 0 <= a < b < out@.len() implies lex_le(
                example_sort_key(#[trigger] out@[a]),
                example_sort_key(#[trigger] out@[b]),
            ) by {
                assert(keys@[a]@ == example_sort_key(out@[a]));
                assert(keys@[b]@ == example_sort_key(out@[b]));
                assert(lex_le(ks[a], ks[b]));
            }
        }
        out
    }

    /// Hands over what the site is built from: the runs, the examples settled
    /// (see `settle_examples`) and the platforms seen.
    pub fn finish(self) -> (r: Collected)
        ensures
            r.runs@ == self.runs@,
            settled_examples(r.examples@, self.examples@, self.runs@),
            lists_names(r.mobile_platforms@, self.mobile_platforms@),
            lists_names(r.wasm_platforms@, self.wasm_platforms@),
    {
        let examples = self.settle_examples();
        let mobile_platforms = self.mobile_platforms.to_vec();
        let wasm_platforms = self.wasm_platforms.to_vec();
        Collected { runs: self.runs, examples, mobile_platforms, wasm_platforms }
    }

    /// Adds a run whose files have all been recorded.
    pub fn add_run(&mut self, run: Run)
        ensures
            final(self).runs@ == old(self).runs@.push(run),
            final(self).examples@ == old(self).examples@,
            final(self).mobile_platforms@ == old(self).mobile_platforms@,
            final(self).wasm_platforms@ == old(self).wasm_platforms@,
    {
        self.runs.push(run);
    }
}

} // verus!
