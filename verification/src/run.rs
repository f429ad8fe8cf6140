//! One run of the examples: its date and commit (from its folder name) and
//! what its result files, screenshots and rerun logs say.
use vstd::prelude::*;

use crate::date::{reformat_date, reformatted_date};
use crate::model::{Kind, Platform, PlatformView, Shot, platform_name};
use crate::table::Table;
use crate::text::{
    chars_of,
    ends_with,
    ends_with_exec,
    first_piece,
    first_piece_exec,
    lemma_insert_keeps_sorted_desc,
    lex_le,
    lex_le_exec,
    lex_sorted_desc,
    lines,
    lines_exec,
    remove_all,
    remove_all_exec,
    second_piece,
    second_piece_exec,
    slice_chars,
    starts_with,
    starts_with_exec,
    string_of,
};

verus! {

/// What a table holds at `name`, or the empty map.
pub open spec fn inner<K, V>(m: Map<Seq<char>, Map<K, V>>, name: Seq<char>) -> Map<K, V> {
    if m.contains_key(name) {
        m[name]
    } else {
        Map::empty()
    }
}

/// Outcomes by example name, then platform.
pub type ResultMap = Map<Seq<char>, Map<PlatformView, Kind>>;

/// Screenshots by example name, then platform.
pub type ShotMap = Map<Seq<char>, Map<PlatformView, (Seq<char>, crate::model::ScreenshotState, Seq<char>)>>;

/// Logs by example name, then platform name.
pub type LogMap = Map<Seq<char>, Map<Seq<char>, Seq<char>>>;

/// `res` with the outcome of `name` on `p` set to `k`.
pub open spec fn set_result(res: ResultMap, name: Seq<char>, p: PlatformView, k: Kind) -> ResultMap {
    res.insert(name, inner(res, name).insert(p, k))
}

/// The example a line of a result list names: the part before `" - "` is
/// `category/name`. `None` when that part has no `/`.
pub open spec fn listed_example(line: Seq<char>) -> Option<(Seq<char>, Seq<char>)> {
    let d = first_piece(line, " - "@);
    match second_piece(d, "/"@) {
        Some(n) => Some((first_piece(d, "/"@), n)),
        None => None,
    }
}

/// Every line names an example.
pub open spec fn all_listed(ls: Seq<Seq<char>>) -> bool {
    forall|i: int| 0 <= i < ls.len() ==> (#[trigger] listed_example(ls[i])) is Some
}

/// The index of the first line that names no example.
pub open spec fn first_unlisted(ls: Seq<Seq<char>>, i: int) -> bool {
    &&& 0 <= i < ls.len()
    &&& listed_example(ls[i]) is None
    &&& forall|j: int| 0 <= j < i ==> (#[trigger] listed_example(ls[j])) is Some
}

/// Rerun successes: each listed example is marked `NoScreenshots` on `p`.
pub open spec fn apply_rerun_successes(res: ResultMap, ls: Seq<Seq<char>>, p: PlatformView) -> ResultMap
    decreases ls.len(),
{
    if ls.len() == 0 {
        res
    } else {
        let before = apply_rerun_successes(res, ls.drop_last(), p);
        set_result(before, listed_example(ls.last()).unwrap().1, p, Kind::NoScreenshots)
    }
}

/// A log with the ANSI colour codes (the escape character followed by `[0m`,
/// `[1m`, `[2m`, `[31m`, `[32m` or `[33m`) removed, in that order.
pub open spec fn clean_log(s: Seq<char>) -> Seq<char> {
    remove_all(
        remove_all(
            remove_all(remove_all(remove_all(remove_all(s, "\u{1b}[0m"@), "\u{1b}[1m"@), "\u{1b}[2m"@), "\u{1b}[31m"@),
            "\u{1b}[32m"@,
        ),
        "\u{1b}[33m"@,
    )
}

/// The date of a run, from the timestamp before the first `-` of its folder
/// name (read as `%Y%m%d%H%M`), shown as `%Y-%m-%d %H:%M`.
pub open spec fn folder_date(folder_name: Seq<char>) -> Option<Seq<char>> {
    reformatted_date(first_piece(folder_name, "-"@), "%Y%m%d%H%M"@, "%Y-%m-%d %H:%M"@)
}

/// Why a run folder name cannot be read.
#[derive(Clone, Copy, Debug, PartialEq, Eq, Structural)]
pub enum FolderError {
    /// The part before the first `-` is not a `%Y%m%d%H%M` timestamp.
    UnreadableDate,
    /// There is no `-` followed by a commit.
    MissingCommit,
}

/// A line of a result list that names no `category/name` example.
#[derive(Clone, Copy, Debug, PartialEq, Eq, Structural)]
pub struct MalformedLine {
    /// The index of the line among the lines of the file.
    pub index: usize,
}

pub open spec fn opt_view(o: Option<String>) -> Option<Seq<char>> {
    match o {
        Some(s) => Some(s@),
        None => None,
    }
}

/// What a run folder name gives, with `date` the formatted date of its
/// timestamp: hidden folders (starting with `.`) are skipped; otherwise the
/// date and the commit (the second `-`-separated part).
pub open spec fn folder_outcome(name: Seq<char>, date: Option<Seq<char>>) -> Result<
    Option<(Seq<char>, Seq<char>)>,
    FolderError,
> {
    if starts_with(name, "."@) {
        Ok(None)
    } else {
        match date {
            None => Err(FolderError::UnreadableDate),
            Some(d) => match second_piece(name, "-"@) {
                None => Err(FolderError::MissingCommit),
                Some(c) => Ok(Some((d, c))),
            },
        }
    }
}

/// What a rerun directory's file stands for.
#[derive(Debug)]
pub enum RerunFile {
    /// The list of examples that succeeded on rerun.
    Successes,
    /// The log of the named example.
    Log(String),
    /// Anything else, which is ignored.
    Other,
}

/// Reads the example line `line`.
pub fn parse_listed_example(line: &Vec<char>) -> (r: Option<(String, String)>)
    ensures
        match r {
            Some(e) => listed_example(line@) == Some((e.0@, e.1@)),
            None => listed_example(line@) is None,
        },
{
    let dash = chars_of(" - ");
    let slash = chars_of("/");
    let d = first_piece_exec(line, &dash);
    match second_piece_exec(&d, &slash) {
        Some(name) => {
            let category = first_piece_exec(&d, &slash);
            Some((string_of(&category), string_of(&name)))
        },
        None => None,
    }
}

/// Reads every line of a result list, or points at the first line that names
/// no example.
pub fn parse_listed_examples(content: &str) -> (r: Result<Vec<(String, String)>, MalformedLine>)
    ensures
        match r {
            Ok(v) => {
                &&& all_listed(lines(content@))
                &&& v@.len() == lines(content@).len()
                &&& forall|i: int|
                    0 <= i < v@.len() ==> listed_example(lines(content@)[i]) == Some(
                        (#[trigger] v@[i].0@, v@[i].1@),
                    )
            },
            Err(e) => first_unlisted(lines(content@), e.index as int),
        },
{
    let cs = chars_of(content);
    let ls = lines_exec(&cs);
    let mut out: Vec<(String, String)> = Vec::new();
    let mut i: usize = 0;
    while i < ls.len()
        invariant
            ls@.len() == lines(content@).len(),
            forall|j: int| 0 <= j < ls@.len() ==> #[trigger] ls@[j]@ == lines(content@)[j],
            i <= ls@.len(),
            out@.len() == i,
            forall|j: int|
                0 <= j < i ==> listed_example(lines(content@)[j]) == Some(
                    (#[trigger] out@[j].0@, out@[j].1@),
                ),
        decreases ls@.len() - i,
    {
        match parse_listed_example(&ls[i]) {
            Some(e) => {
                out.push(e);
            },
            None => {
                assert forall|j: int| 0 <= j < i implies (#[trigger] listed_example(
                    lines(content@)[j],
                )) is Some by {
                    assert(listed_example(lines(content@)[j]) == Some((out@[j].0@, out@[j].1@)));
                }
                return Err(MalformedLine { index: i });
            },
        }
        i += 1;
    }
    assert forall|j: int| 0 <= j < lines(content@).len() implies (#[trigger] listed_example(
        lines(content@)[j],
    )) is Some by {
        assert(listed_example(lines(content@)[j]) == Some((out@[j].0@, out@[j].1@)));
    }
    Ok(out)
}

/// Sets the outcome of `name` on `p` to `k` in a results table.
pub fn set_outcome(
    results: &mut Table<String, Table<Platform, Kind>>,
    name: String,
    p: &Platform,
    k: Kind,
)
    ensures
        final(results)@ == set_result(old(results)@, name@, p@, k),
{
    let mut per_platform = match results.take(&name) {
        Some(t) => t,
        None => Table::new(),
    };
    per_platform.insert(p.clone(), k);
    results.insert(name, per_platform);
    assert(results@ =~= set_result(old(results)@, name@, p@, k));
}

/// What a file in a rerun directory stands for: `successes` is the list of
/// examples that passed; `<example>.log` is the log of that example.
pub open spec fn rerun_file(name: Seq<char>) -> Option<Option<Seq<char>>> {
    if name == "successes"@ {
        Some(None)
    } else if ends_with(name, ".log"@) {
        Some(Some(name.take(name.len() - ".log"@.len())))
    } else {
        None
    }
}

/// Tells what a file in a rerun directory stands for.
pub fn rerun_file_kind(name: &str) -> (r: RerunFile)
    ensures
        match r {
            RerunFile::Successes => rerun_file(name@) == Some(Option::<Seq<char>>::None),
            RerunFile::Log(e) => rerun_file(name@) == Some(Some(e@)),
            RerunFile::Other => rerun_file(name@) is None,
        },
{
    let owned = name.to_owned();
    if owned == "successes".to_owned() {
        return RerunFile::Successes;
    }
    let cs = chars_of(name);
    let suffix = chars_of(".log");
    if ends_with_exec(&cs, &suffix) {
        let stem = slice_chars(&cs, 0, cs.len() - suffix.len());
        assert(stem@ == name@.take(name@.len() - ".log"@.len()));
        RerunFile::Log(string_of(&stem))
    } else {
        RerunFile::Other
    }
}

/// The rerun directories of a run, with the platform each is for.
pub fn rerun_directories() -> (r: Vec<(Platform, String)>)
    ensures
        r@.len() == 3,
        r@[0].0@ == PlatformView::Linux && r@[0].1@ == "status-rerun-Linux"@,
        r@[1].0@ == PlatformView::Windows && r@[1].1@ == "status-rerun-Windows"@,
        r@[2].0@ == PlatformView::Macos && r@[2].1@ == "status-rerun-Macos"@,
{
    let mut r: Vec<(Platform, String)> = Vec::new();
    r.push((Platform::Linux, "status-rerun-Linux".to_owned()));
    r.push((Platform::Windows, "status-rerun-Windows".to_owned()));
    r.push((Platform::Macos, "status-rerun-Macos".to_owned()));
    r
}

/// Removes the colour codes from a log.
pub fn clean_log_exec(log: &str) -> (r: String)
    ensures
        r@ == clean_log(log@),
{
    let s0 = chars_of(log);
    let s1 = remove_all_exec(&s0, &chars_of("\u{1b}[0m"));
    let s2 = remove_all_exec(&s1, &chars_of("\u{1b}[1m"));
    let s3 = remove_all_exec(&s2, &chars_of("\u{1b}[2m"));
    let s4 = remove_all_exec(&s3, &chars_of("\u{1b}[31m"));
    let s5 = remove_all_exec(&s4, &chars_of("\u{1b}[32m"));
    let s6 = remove_all_exec(&s5, &chars_of("\u{1b}[33m"));
    string_of(&s6)
}

/// The run folders to look at: the names in reverse order (newest timestamp
/// first), at most `limit` of them.
pub fn newest_folders(names: &Vec<String>, limit: usize) -> (r: Vec<String>)
    ensures
        exists|all: Seq<String>|
            {
                &&& all.map_values(|s: String| s@).to_multiset() == names@.map_values(
                    |s: String| s@,
                ).to_multiset()
                &&& lex_sorted_desc(all.map_values(|s: String| s@))
                &&& r@ == all.take(if limit < all.len() {
                    limit as int
                } else {
                    all.len() as int
                })
            },
{
    broadcast use vstd::seq_lib::group_to_multiset_ensures;

    let ghost v = |s: String| s@;
    let mut out: Vec<String> = Vec::new();
    let mut i: usize = 0;
    assert(out@.map_values(v) =~= names@.take(0).map_values(v));
    while i < names.len()
        invariant
            i <= names@.len(),
            v == (|s: String| s@),
            lex_sorted_desc(out@.map_values(v)),
            out@.map_values(v).to_multiset() == names@.take(i as int).map_values(v).to_multiset(),
        decreases names@.len() - i,
    {
        let name = names[i].clone();
        let key = chars_of(name.as_str());
        let ghost ks = out@.map_values(v);
        let mut p = out.len();
        while p > 0 && !lex_le_exec(&key, &chars_of(out[p - 1].as_str()))
            invariant
                p <= out@.len(),
                ks == out@.map_values(v),
                v == (|s: String| s@),
                forall|j: int| p <= j < out@.len() ==> !lex_le(key@, #[trigger] ks[j]),
            decreases p,
        {
            p -= 1;
        }
        let ghost old_out = out@;
        proof {
            lemma_insert_keeps_sorted_desc(ks, p as int, key@);
        }
        out.insert(p, name);
        proof {
            assert(out@.map_values(v) =~= ks.insert(p as int, key@));
            vstd::seq_lib::to_multiset_insert(ks, p as int, key@);
            assert(names@.take(i + 1).map_values(v) =~= names@.take(i as int).map_values(v).push(
                v(names@[i as int]),
            ));
            vstd::seq_lib::to_multiset_build(names@.take(i as int).map_values(v), v(names@[i as int]));
        }
        i += 1;
    }
    assert(names@.take(names@.len() as int) == names@);
    let ghost all = out@;
    out.truncate(limit);
    assert(out@ == all.take(if limit < all.len() {
        limit as int
    } else {
        all.len() as int
    }));
    out
}

/// A run: when it happened, at which commit, and what it found.
pub struct Run {
    pub date: String,
    pub commit: String,
    pub results: Table<String, Table<Platform, Kind>>,
    pub screenshots: Table<String, Table<Platform, Shot>>,
    pub logs: Table<String, Table<String, String>>,
}

impl Run {
    /// Nothing has been recorded yet.
    pub open spec fn is_blank(&self) -> bool {
        &&& self.results@ == Map::<Seq<char>, Map<PlatformView, Kind>>::empty()
        &&& self.screenshots@ == Map::<
            Seq<char>,
            Map<PlatformView, (Seq<char>, crate::model::ScreenshotState, Seq<char>)>,
        >::empty()
        &&& self.logs@ == Map::<Seq<char>, Map<Seq<char>, Seq<char>>>::empty()
    }

    /// Starts a run from its folder name and the date formatted from the
    /// folder's timestamp (`None` when that did not parse).
    pub fn from_folder_parts(folder_name: &str, date: Option<String>) -> (r: Result<
        Option<Run>,
        FolderError,
    >)
        ensures
            match r {
                Ok(Some(run)) => folder_outcome(folder_name@, opt_view(date)) == Ok::<
                    Option<(Seq<char>, Seq<char>)>,
                    FolderError,
                >(Some((run.date@, run.commit@))) && run.is_blank(),
                Ok(None) => folder_outcome(folder_name@, opt_view(date)) == Ok::<
                    Option<(Seq<char>, Seq<char>)>,
                    FolderError,
                >(None),
                Err(e) => folder_outcome(folder_name@, opt_view(date)) == Err::<
                    Option<(Seq<char>, Seq<char>)>,
                    FolderError,
                >(e),
            },
    {
        let cs = chars_of(folder_name);
        if starts_with_exec(&cs, &chars_of(".")) {
            return Ok(None);
        }
        let date = match date {
            Some(d) => d,
            None => {
                return Err(FolderError::UnreadableDate);
            },
        };
        match second_piece_exec(&cs, &chars_of("-")) {
            Some(commit) => Ok(
                Some(
                    Run {
                        date,
                        commit: string_of(&commit),
                        results: Table::new(),
                        screenshots: Table::new(),
                        logs: Table::new(),
                    },
                ),
            ),
            None => Err(FolderError::MissingCommit),
        }
    }

    /// Starts a run from its folder name, `<%Y%m%d%H%M>-<commit>`; its date is
    /// shown as `%Y-%m-%d %H:%M` (see `folder_date`).
    pub fn from_folder_name(folder_name: &str) -> (r: Result<Option<Run>, FolderError>)
        ensures
            match r {
                Ok(Some(run)) => folder_outcome(
                    folder_name@,
                    folder_date(folder_name@),
                ) == Ok::<Option<(Seq<char>, Seq<char>)>, FolderError>(
                    Some((run.date@, run.commit@)),
                ) && run.is_blank(),
                Ok(None) => folder_outcome(
                    folder_name@,
                    folder_date(folder_name@),
                ) == Ok::<Option<(Seq<char>, Seq<char>)>, FolderError>(None),
                Err(e) => folder_outcome(
                    folder_name@,
                    folder_date(folder_name@),
                ) == Err::<Option<(Seq<char>, Seq<char>)>, FolderError>(e),
            },
    {
        let cs = chars_of(folder_name);
        if starts_with_exec(&cs, &chars_of(".")) {
            return Ok(None);
        }
        let stamp = string_of(&first_piece_exec(&cs, &chars_of("-")));
        let date = reformat_date(stamp.as_str(), "%Y%m%d%H%M", "%Y-%m-%d %H:%M");
        Run::from_folder_parts(folder_name, date)
    }

    /// Records a rerun `successes` list: every example in it is marked
    /// `NoScreenshots` on `platform`. Nothing changes when a line names no example.
    pub fn record_rerun_successes(&mut self, platform: &Platform, content: &str) -> (r: Result<
        (),
        MalformedLine,
    >)
        ensures
            final(self).date == old(self).date,
            final(self).commit == old(self).commit,
            final(self).screenshots@ == old(self).screenshots@,
            final(self).logs@ == old(self).logs@,
            match r {
                Ok(()) => all_listed(lines(content@)) && final(self).results@
                    == apply_rerun_successes(old(self).results@, lines(content@), platform@),
                Err(e) => first_unlisted(lines(content@), e.index as int) && final(self).results@
                    == old(self).results@,
            },
    {
        let listed = match parse_listed_examples(content) {
            Ok(v) => v,
            Err(e) => {
                return Err(e);
            },
        };
        let ghost ls = lines(content@);
        let mut i: usize = 0;
        while i < listed.len()
            invariant
                i <= listed@.len(),
                listed@.len() == ls.len(),
                forall|j: int|
                    0 <= j < listed@.len() ==> listed_example(ls[j]) == Some(
                        (#[trigger] listed@[j].0@, listed@[j].1@),
                    ),
                self.date == old(self).date,
                self.commit == old(self).commit,
                self.screenshots@ == old(self).screenshots@,
                self.logs@ == old(self).logs@,
                self.results@ == apply_rerun_successes(
                    old(self).results@,
                    ls.take(i as int),
                    platform@,
                ),
            decreases listed@.len() - i,
        {
            assert(ls.take(i + 1).drop_last() == ls.take(i as int));
            assert(ls.take(i + 1).last() == ls[i as int]);
            assert(listed_example(ls[i as int]) == Some(
                (listed@[i as int].0@, listed@[i as int].1@),
            ));
            set_outcome(&mut self.results, listed[i].1.clone(), platform, Kind::NoScreenshots);
            i += 1;
        }
        assert(ls.take(listed@.len() as int) == ls);
        Ok(())
    }

    /// Records the rerun log of an example on `platform`, colour codes removed.
    pub fn record_rerun_log(&mut self, platform: &Platform, example_name: &str, log: &str)
        ensures
            final(self).date == old(self).date,
            final(self).commit == old(self).commit,
            final(self).results@ == old(self).results@,
            final(self).screenshots@ == old(self).screenshots@,
            final(self).logs@ == old(self).logs@.insert(
                example_name@,
                inner(old(self).logs@, example_name@).insert(
                    platform_name(platform@),
                    clean_log(log@),
                ),
            ),
    {
        let name = example_name.to_owned();
        let mut per_platform = match self.logs.take(&name) {
            Some(t) => t,
            None => Table::new(),
        };
        per_platform.insert(platform.to_string(), clean_log_exec(log));
        self.logs.insert(name, per_platform);
        assert(self.logs@ =~= old(self).logs@.insert(
            example_name@,
            inner(old(self).logs@, example_name@).insert(platform_name(platform@), clean_log(log@)),
        ));
    }
}

} // verus!
