//! What the site's templates are given: runs keyed by platform names, and the
//! wasm platforms in display order.
use vstd::prelude::*;

use crate::model::{Kind, Platform, PlatformView, Shot, platform_name};
use crate::run::Run;
use crate::table::{
    Table,
    has_key_at,
    keys_distinct,
    lemma_pairs_view_at,
    lemma_pairs_view_dom,
    pairs_view,
};
use crate::text::{chars_of, contains, contains_exec, starts_with, starts_with_exec};

verus! {

/// `r` is `m` with each platform replaced by its name; where two platforms
/// share a name, the entry holds the value of one of them.
pub open spec fn renamed<V>(m: Map<PlatformView, V>, r: Map<Seq<char>, V>) -> bool {
    &&& forall|s: Seq<char>| #[trigger]
        r.contains_key(s) <==> exists|p: PlatformView| m.contains_key(p) && platform_name(p) == s
    &&& forall|s: Seq<char>| #[trigger]
        r.contains_key(s) ==> exists|p: PlatformView|
            m.contains_key(p) && platform_name(p) == s && r[s] == m[p]
}

/// Every inner map of `t` renamed into the inner map of `r` at the same key.
pub open spec fn all_renamed<V>(
    t: Map<Seq<char>, Map<PlatformView, V>>,
    r: Map<Seq<char>, Map<Seq<char>, V>>,
) -> bool {
    &&& r.dom() == t.dom()
    &&& forall|n: Seq<char>| #[trigger] t.contains_key(n) ==> renamed(t[n], r[n])
}

/// Replaces each platform key by the platform's name.
pub fn rename_platforms<V: View>(t: Table<Platform, V>) -> (r: Table<String, V>)
    ensures
        renamed(t@, r@),
{
    let ghost m = t@;
    let mut es = t.into_entries();
    let ghost orig = es@;
    let mut out: Table<String, V> = Table::new();
    while es.len() > 0
        invariant
            keys_distinct(orig),
            pairs_view(orig) == m,
            es@ == orig.take(es@.len() as int),
            es@.len() <= orig.len(),
            forall|s: Seq<char>| #[trigger]
                out@.contains_key(s) <==> exists|j: int|
                    es@.len() <= j < orig.len() && platform_name(orig[j].0@) == s,
            forall|s: Seq<char>| #[trigger]
                out@.contains_key(s) ==> exists|j: int|
                    es@.len() <= j < orig.len() && platform_name(orig[j].0@) == s && out@[s]
                        == orig[j].1@,
        decreases es@.len(),
    {
        let ghost k = es@.len() - 1;
        let entry = es.pop();
        match entry {
            Some((p, v)) => {
                assert(orig[k] == (p, v));
                out.insert(p.to_string(), v);
            },
            None => {},
        }
    }
    assert forall|s: Seq<char>| #[trigger]
        out@.contains_key(s) <==> exists|p: PlatformView| m.contains_key(p) && platform_name(p) == s by {
        if out@.contains_key(s) {
            let j = choose|j: int| 0 <= j < orig.len() && platform_name(orig[j].0@) == s;
            lemma_pairs_view_at(orig, j);
        }
        if exists|p: PlatformView| m.contains_key(p) && platform_name(p) == s {
            let p = choose|p: PlatformView| m.contains_key(p) && platform_name(p) == s;
            lemma_pairs_view_dom(orig, p);
            let j = choose|j: int| has_key_at(orig, p, j);
            assert(0 <= j < orig.len() && platform_name(orig[j].0@) == s);
        }
    }
    assert forall|s: Seq<char>| #[trigger] out@.contains_key(s) implies exists|p: PlatformView|
        m.contains_key(p) && platform_name(p) == s && out@[s] == m[p] by {
        let j = choose|j: int|
            0 <= j < orig.len() && platform_name(orig[j].0@) == s && out@[s] == orig[j].1@;
        lemma_pairs_view_at(orig, j);
    }
    out
}

/// Renames the platforms of every inner table.
pub fn rename_all<V: View>(t: Table<String, Table<Platform, V>>) -> (r: Table<String, Table<String, V>>)
    ensures
        all_renamed(t@, r@),
{
    let ghost m = t@;
    let mut es = t.into_entries();
    let ghost orig = es@;
    let mut out: Table<String, Table<String, V>> = Table::new();
    while es.len() > 0
        invariant
            keys_distinct(orig),
            pairs_view(orig) == m,
            es@ == orig.take(es@.len() as int),
            es@.len() <= orig.len(),
            forall|n: Seq<char>| #[trigger]
                out@.contains_key(n) <==> exists|j: int| es@.len() <= j < orig.len() && orig[j].0@ == n,
            forall|j: int| #![trigger orig[j]]
                es@.len() <= j < orig.len() ==> renamed(orig[j].1@, out@[orig[j].0@]),
        decreases es@.len(),
    {
        let ghost k = es@.len() - 1;
        let entry = es.pop();
        match entry {
            Some((name, inner)) => {
                assert(orig[k] == (name, inner));
                let renamed_inner = rename_platforms(inner);
                out.insert(name, renamed_inner);
                assert forall|j: int| #![trigger orig[j]]
                    k <= j < orig.len() implies renamed(orig[j].1@, out@[orig[j].0@]) by {
                    if j != k {
                        assert(orig[j].0@ != orig[k].0@);
                    }
                }
            },
            None => {},
        }
    }
    assert forall|n: Seq<char>| #[trigger] out@.contains_key(n) <==> m.contains_key(n) by {
        lemma_pairs_view_dom(orig, n);
        if out@.contains_key(n) {
            let j = choose|j: int| 0 <= j < orig.len() && orig[j].0@ == n;
            assert(has_key_at(orig, n, j));
        }
    }
    assert(out@.dom() =~= m.dom());
    assert forall|n: Seq<char>| #[trigger] m.contains_key(n) implies renamed(m[n], out@[n]) by {
        lemma_pairs_view_dom(orig, n);
        let j = choose|j: int| has_key_at(orig, n, j);
        lemma_pairs_view_at(orig, j);
        assert(renamed(orig[j].1@, out@[orig[j].0@]));
    }
    out
}

/// A run as the templates see it: platforms replaced by their names.
pub struct StringRun {
    pub date: String,
    pub commit: String,
    pub results: Table<String, Table<String, Kind>>,
    pub screenshots: Table<String, Table<String, Shot>>,
    pub logs: Table<String, Table<String, String>>,
}

impl StringRun {
    /// The run with every platform replaced by its name.
    pub fn from(value: Run) -> (r: StringRun)
        ensures
            r.date == value.date,
            r.commit == value.commit,
            all_renamed(value.results@, r.results@),
            all_renamed(value.screenshots@, r.screenshots@),
            r.logs@ == value.logs@,
    {
        StringRun {
            date: value.date,
            commit: value.commit,
            results: rename_all(value.results),
            screenshots: rename_all(value.screenshots),
            logs: value.logs,
        }
    }
}

/// What std's `str::to_lowercase` gives for `s`.
pub uninterp spec fn lowercase(s: Seq<char>) -> Seq<char>;

/// Calls std's `str::to_lowercase`; the contract names its result
/// `lowercase` and says nothing of Unicode case mapping.
#[verifier::external_body]
fn to_lowercase(s: &str) -> (r: String)
    ensures
        r@ == lowercase(s@),
{
    s.to_lowercase()
}

/// Where a wasm platform goes among the others, from its lower-cased tag:
/// first by graphics API (WebGPU, WebGL2, other), then by browser (Chromium,
/// Firefox, WebKit, other), then by OS (Linux, macOS, Windows, other).
pub open spec fn wasm_key(lower: Seq<char>) -> (u8, u8, u8) {
    (
        if contains(lower, "webgpu"@) {
            0u8
        } else if contains(lower, "webgl2"@) {
            1u8
        } else {
            2u8
        },
        if contains(lower, "chromium"@) {
            0u8
        } else if contains(lower, "firefox"@) {
            1u8
        } else if contains(lower, "webkit"@) {
            2u8
        } else {
            3u8
        },
        if starts_with(lower, "linux"@) {
            0u8
        } else if starts_with(lower, "macos"@) {
            1u8
        } else if starts_with(lower, "windows"@) {
            2u8
        } else {
            3u8
        },
    )
}

/// Lexicographic order on keys.
pub open spec fn key_le(a: (u8, u8, u8), b: (u8, u8, u8)) -> bool {
    a.0 < b.0 || (a.0 == b.0 && (a.1 < b.1 || (a.1 == b.1 && a.2 <= b.2)))
}

/// The ordering key of a wasm platform whose tag is already lower-cased.
pub fn sort_key_of_lowercase(lower: &str) -> (r: (u8, u8, u8))
    ensures
        r == wasm_key(lower@),
{
    let cs = chars_of(lower);
    let api = if contains_exec(&cs, &chars_of("webgpu")) {
        0u8
    } else if contains_exec(&cs, &chars_of("webgl2")) {
        1u8
    } else {
        2u8
    };
    let browser = if contains_exec(&cs, &chars_of("chromium")) {
        0u8
    } else if contains_exec(&cs, &chars_of("firefox")) {
        1u8
    } else if contains_exec(&cs, &chars_of("webkit")) {
        2u8
    } else {
        3u8
    };
    let os = if starts_with_exec(&cs, &chars_of("linux")) {
        0u8
    } else if starts_with_exec(&cs, &chars_of("macos")) {
        1u8
    } else if starts_with_exec(&cs, &chars_of("windows")) {
        2u8
    } else {
        3u8
    };
    (api, browser, os)
}

/// The ordering key of a wasm platform.
pub fn sort_key(tag: &str) -> (r: (u8, u8, u8))
    ensures
        r == wasm_key(lowercase(tag@)),
{
    let lower = to_lowercase(tag);
    sort_key_of_lowercase(lower.as_str())
}

/// The wasm platforms in display order (see `wasm_key`), each as often as given.
pub fn sort_wasm_platforms(platforms: &Vec<String>) -> (r: Vec<String>)
    ensures
        r@.map_values(|s: String| s@).to_multiset() == platforms@.map_values(|s: String| s@).to_multiset(),
        forall|i: int, j: int|
            0 <= i < j < r@.len() ==> key_le(
                wasm_key(lowercase(#[trigger] r@[i]@)),
                wasm_key(lowercase(#[trigger] r@[j]@)),
            ),
{
    broadcast use vstd::seq_lib::group_to_multiset_ensures;

    let ghost v = |s: String| s@;
    let mut out: Vec<String> = Vec::new();
    let mut keys: Vec<(u8, u8, u8)> = Vec::new();
    let mut i: usize = 0;
    assert(out@.map_values(v) =~= platforms@.take(0).map_values(v));
    while i < platforms.len()
        invariant
            i <= platforms@.len(),
            v == (|s: String| s@),
            out@.len() == keys@.len(),
            forall|j: int| 0 <= j < out@.len() ==> #[trigger] keys@[j] == wasm_key(lowercase(out@[j]@)),
            forall|a: int, b: int|
                0 <= a < b < keys@.len() ==> key_le(#[trigger] keys@[a], #[trigger] keys@[b]),
            out@.map_values(v).to_multiset() == platforms@.take(i as int).map_values(v).to_multiset(),
        decreases platforms@.len() - i,
    {
        let tag = platforms[i].clone();
        let key = sort_key(tag.as_str());
        let mut p = out.len();
        while p > 0 && !(keys[p - 1].0 < key.0 || (keys[p - 1].0 == key.0 && (keys[p - 1].1 < key.1
            || (keys[p - 1].1 == key.1 && keys[p - 1].2 <= key.2))))
            invariant
                p <= keys@.len(),
                forall|j: int| p <= j < keys@.len() ==> !key_le(#[trigger] keys@[j], key),
            decreases p,
        {
            p -= 1;
        }
        let ghost old_out = out@;
        let ghost old_keys = keys@;
        keys.insert(p, key);
        out.insert(p, tag);
        proof {
            assert(out@.map_values(v) =~= old_out.map_values(v).insert(p as int, v(out@[p as int])));
            vstd::seq_lib::to_multiset_insert(old_out.map_values(v), p as int, v(out@[p as int]));
            assert(platforms@.take(i + 1).map_values(v) =~= platforms@.take(i as int).map_values(v).push(
                v(platforms@[i as int]),
            ));
            vstd::seq_lib::to_multiset_build(platforms@.take(i as int).map_values(v), v(platforms@[i as int]));
            assert forall|j: int| 0 <= j < out@.len() implies #[trigger] keys@[j] == wasm_key(
                lowercase(out@[j]@),
            ) by {
                if j < p {
                    assert(keys@[j] == old_keys[j] && out@[j] == old_out[j]);
                } else if j > p {
                    assert(keys@[j] == old_keys[j - 1] && out@[j] == old_out[j - 1]);
                }
            }
            assert forall|a: int, b: int| 0 <= a < b < keys@.len() implies key_le(
                #[trigger] keys@[a],
                #[trigger] keys@[b],
            ) by {
                if b < p {
                    assert(keys@[a] == old_keys[a] && keys@[b] == old_keys[b]);
                } else if a > p {
                    assert(keys@[a] == old_keys[a - 1] && keys@[b] == old_keys[b - 1]);
                } else if b == p {
                    assert(keys@[a] == old_keys[a]);
                    if a < p - 1 {
                        assert(key_le(old_keys[a], old_keys[p - 1]));
                    }
                } else if a == p {
                    assert(keys@[b] == old_keys[b - 1]);
                } else {
                    assert(keys@[a] == old_keys[a] && keys@[b] == old_keys[b - 1]);
                }
            }
        }
        i += 1;
    }
    assert(platforms@.take(platforms@.len() as int) == platforms@);
    proof {
        assert forall|a: int, b: int| 0 <= a < b < out@.len() implies key_le(
            wasm_key(lowercase(#[trigger] out@[a]@)),
            wasm_key(lowercase(#[trigger] out@[b]@)),
        ) by {
            assert(keys@[a] == wasm_key(lowercase(out@[a]@)));
            assert(keys@[b] == wasm_key(lowercase(out@[b]@)));
        }
    }
    out
}

} // verus!
