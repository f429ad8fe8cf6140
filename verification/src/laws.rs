//! Properties of the report that hold across its operations.
use vstd::prelude::*;

use crate::model::{Kind, PlatformView, parse_platform, platform_name};
use crate::report::{
    ExampleMap,
    ScreenshotData,
    shot_place,
    ShotState,
    apply_outcomes,
    apply_shot,
    apply_shots,
    has_failures,
    has_screenshot,
    note_example,
    settled_examples,
};
use crate::run::{
    ResultMap,
    ShotMap,
    all_listed,
    apply_rerun_successes,
    inner,
    clean_log,
    listed_example,
    opt_view,
    set_result,
};
use crate::model::ScreenshotState;
use crate::screenshot::{decimal, digit};
use crate::text::{lex_le, remove_all, starts_with};

verus! {

/// A platform name read back gives the platform, for the three desktop
/// platforms (the mobile platform is shown as `Mobile` but read as `mobile`).
pub proof fn lemma_platform_name_round_trip(p: PlatformView)
    requires
        p == PlatformView::Linux || p == PlatformView::Macos || p == PlatformView::Windows,
    ensures
        parse_platform(platform_name(p)) == Some(p),
{
    reveal_strlit("Linux");
    reveal_strlit("macOS");
    reveal_strlit("Windows");
    assert("macOS"@[0] != "Linux"@[0]);
    assert("Windows"@.len() != "Linux"@.len());
    assert("Windows"@.len() != "macOS"@.len());
}

/// Every example seen before is still known afterwards, and one that was flaky
/// is still flaky.
pub open spec fn examples_kept(before: ExampleMap, after: ExampleMap) -> bool {
    forall|key: (Seq<char>, Seq<char>)| #[trigger]
        before.contains_key(key) ==> after.contains_key(key) && (before[key] ==> after[key])
}

/// Every screenshot of an example on a platform comes with an outcome of that
/// example on that platform.
pub open spec fn shots_have_outcomes(res: ResultMap, shots: ShotMap) -> bool {
    forall|name: Seq<char>, p: PlatformView| #[trigger]
        inner(shots, name).contains_key(p) ==> #[trigger] inner(res, name).contains_key(p)
}

proof fn lemma_note_keeps(ex: ExampleMap, key: (Seq<char>, Seq<char>), flaky: bool)
    ensures
        examples_kept(ex, note_example(ex, key, flaky)),
        note_example(ex, key, flaky).contains_key(key),
        flaky ==> note_example(ex, key, flaky)[key],
{
}

/// Recording a result list forgets no example and clears no flakiness.
pub proof fn lemma_outcomes_keep_examples(
    ex: ExampleMap,
    res: ResultMap,
    ls: Seq<Seq<char>>,
    p: PlatformView,
    k: Kind,
)
    ensures
        examples_kept(ex, apply_outcomes(ex, res, ls, p, k).0),
    decreases ls.len(),
{
    if ls.len() > 0 {
        lemma_outcomes_keep_examples(ex, res, ls.drop_last(), p, k);
        let before = apply_outcomes(ex, res, ls.drop_last(), p, k);
        lemma_note_keeps(before.0, listed_example(ls.last()).unwrap(), k != Kind::Successes);
    }
}

/// After a result list of kind `k` on `p`, every example it lists is known,
/// is flaky unless `k` is `Successes`, and has outcome `k` on `p`.
pub proof fn lemma_outcomes_recorded(
    ex: ExampleMap,
    res: ResultMap,
    ls: Seq<Seq<char>>,
    p: PlatformView,
    k: Kind,
    i: int,
)
    requires
        all_listed(ls),
        0 <= i < ls.len(),
    ensures
        ({
            let after = apply_outcomes(ex, res, ls, p, k);
            let key = listed_example(ls[i]).unwrap();
            &&& after.0.contains_key(key)
            &&& k != Kind::Successes ==> after.0[key]
            &&& after.1.contains_key(key.1)
            &&& after.1[key.1].contains_key(p)
            &&& after.1[key.1][p] == k
        }),
    decreases ls.len(),
{
    let before = apply_outcomes(ex, res, ls.drop_last(), p, k);
    let last = listed_example(ls.last()).unwrap();
    assert(listed_example(ls[ls.len() - 1]) is Some);
    lemma_note_keeps(before.0, last, k != Kind::Successes);
    if i < ls.len() - 1 {
        assert(all_listed(ls.drop_last())) by {
            assert forall|j: int| 0 <= j < ls.drop_last().len() implies (#[trigger] listed_example(
                ls.drop_last()[j],
            )) is Some by {
                assert(ls.drop_last()[j] == ls[j]);
            }
        }
        assert(ls.drop_last()[i] == ls[i]);
        lemma_outcomes_recorded(ex, res, ls.drop_last(), p, k, i);
    }
}

/// Recording screenshots forgets no example and clears no flakiness.
pub proof fn lemma_shots_keep_examples(
    st: ShotState,
    shots: Seq<crate::report::ScreenshotData>,
    p: PlatformView,
    wasm: Set<Seq<char>>,
)
    ensures
        examples_kept(st.0, apply_shots(st, shots, p, wasm).0),
    decreases shots.len(),
{
    if shots.len() > 0 {
        lemma_shots_keep_examples(st, shots.drop_last(), p, wasm);
        let before = apply_shots(st, shots.drop_last(), p, wasm);
        let s = shots.last();
        let place = crate::report::shot_place(
            s.example@,
            crate::run::opt_view(s.tag),
            p,
            wasm,
        ).unwrap();
        lemma_note_keeps(
            before.0,
            (place.0, place.1),
            s.changed == crate::model::ScreenshotState::Changed,
        );
    }
}

/// Recording a screenshot keeps every screenshot paired with an outcome: the
/// example's outcome on the screenshot's platform is set to `Successes` where
/// it had none.
pub proof fn lemma_shot_has_outcome(
    st: ShotState,
    s: crate::report::ScreenshotData,
    p: PlatformView,
    wasm: Set<Seq<char>>,
)
    requires
        shots_have_outcomes(st.2, st.3),
    ensures
        shots_have_outcomes(apply_shot(st, s, p, wasm).2, apply_shot(st, s, p, wasm).3),
{
    let after = apply_shot(st, s, p, wasm);
    assert forall|name: Seq<char>, q: PlatformView| #[trigger]
        inner(after.3, name).contains_key(q) implies #[trigger] inner(after.2, name).contains_key(
        q,
    ) by {
        if inner(st.3, name).contains_key(q) {
            assert(inner(st.2, name).contains_key(q));
        }
    }
}

/// Recording screenshots keeps every screenshot paired with an outcome.
pub proof fn lemma_shots_have_outcomes(
    st: ShotState,
    shots: Seq<crate::report::ScreenshotData>,
    p: PlatformView,
    wasm: Set<Seq<char>>,
)
    requires
        shots_have_outcomes(st.2, st.3),
    ensures
        shots_have_outcomes(apply_shots(st, shots, p, wasm).2, apply_shots(st, shots, p, wasm).3),
    decreases shots.len(),
{
    if shots.len() > 0 {
        lemma_shots_have_outcomes(st, shots.drop_last(), p, wasm);
        lemma_shot_has_outcome(apply_shots(st, shots.drop_last(), p, wasm), shots.last(), p, wasm);
    }
}

proof fn lemma_set_result_keeps_pairs(
    res: ResultMap,
    shots: ShotMap,
    name: Seq<char>,
    p: PlatformView,
    k: Kind,
)
    requires
        shots_have_outcomes(res, shots),
    ensures
        shots_have_outcomes(set_result(res, name, p, k), shots),
{
    let after = set_result(res, name, p, k);
    assert forall|n: Seq<char>, q: PlatformView| #[trigger]
        inner(shots, n).contains_key(q) implies #[trigger] inner(after, n).contains_key(q) by {
        assert(inner(res, n).contains_key(q));
    }
}

/// Recording a result list keeps every screenshot paired with an outcome.
pub proof fn lemma_outcomes_keep_pairs(
    ex: ExampleMap,
    res: ResultMap,
    shots: ShotMap,
    ls: Seq<Seq<char>>,
    p: PlatformView,
    k: Kind,
)
    requires
        shots_have_outcomes(res, shots),
    ensures
        shots_have_outcomes(apply_outcomes(ex, res, ls, p, k).1, shots),
    decreases ls.len(),
{
    if ls.len() > 0 {
        lemma_outcomes_keep_pairs(ex, res, shots, ls.drop_last(), p, k);
        let before = apply_outcomes(ex, res, ls.drop_last(), p, k);
        lemma_set_result_keeps_pairs(before.1, shots, listed_example(ls.last()).unwrap().1, p, k);
    }
}

/// Recording rerun successes keeps every screenshot paired with an outcome.
pub proof fn lemma_rerun_keeps_pairs(res: ResultMap, shots: ShotMap, ls: Seq<Seq<char>>, p: PlatformView)
    requires
        shots_have_outcomes(res, shots),
    ensures
        shots_have_outcomes(apply_rerun_successes(res, ls, p), shots),
    decreases ls.len(),
{
    if ls.len() > 0 {
        lemma_rerun_keeps_pairs(res, shots, ls.drop_last(), p);
        lemma_set_result_keeps_pairs(
            apply_rerun_successes(res, ls.drop_last(), p),
            shots,
            listed_example(ls.last()).unwrap().1,
            p,
            Kind::NoScreenshots,
        );
    }
}

/// Once the runs are all in, an example counts as flaky only if some run has
/// a screenshot of it or saw it fail.
pub proof fn lemma_flaky_needs_evidence(
    out: Seq<crate::model::Example>,
    ex: ExampleMap,
    runs: Seq<crate::run::Run>,
    i: int,
)
    requires
        settled_examples(out, ex, runs),
        0 <= i < out.len(),
        out[i].flaky,
    ensures
        has_screenshot(runs, out[i].name@) || has_failures(runs, out[i].name@),
{
}

/// A successes list changes no example's flakiness: every example afterwards
/// is flaky exactly when it was known and flaky before; one first seen in the
/// list is not flaky.
pub proof fn lemma_successes_keep_flakiness(
    ex: ExampleMap,
    res: ResultMap,
    ls: Seq<Seq<char>>,
    p: PlatformView,
)
    ensures
        forall|key: (Seq<char>, Seq<char>)| #[trigger]
            apply_outcomes(ex, res, ls, p, Kind::Successes).0.contains_key(key) ==> apply_outcomes(
                ex,
                res,
                ls,
                p,
                Kind::Successes,
            ).0[key] == (ex.contains_key(key) && ex[key]),
    decreases ls.len(),
{
    if ls.len() > 0 {
        lemma_successes_keep_flakiness(ex, res, ls.drop_last(), p);
        lemma_outcomes_keep_examples(ex, res, ls.drop_last(), p, Kind::Successes);
        let before = apply_outcomes(ex, res, ls.drop_last(), p, Kind::Successes);
        let after = apply_outcomes(ex, res, ls, p, Kind::Successes);
        assert forall|key: (Seq<char>, Seq<char>)| #[trigger] after.0.contains_key(key) implies after.0[key]
            == (ex.contains_key(key) && ex[key]) by {
            if ex.contains_key(key) {
                assert(before.0.contains_key(key));
            }
            if before.0.contains_key(key) {
                assert(before.0[key] == (ex.contains_key(key) && ex[key]));
            }
        }
    }
}

/// The state a screenshot is stored with: changed exactly when it was reported
/// changed and its measured difference is not zero, similar otherwise.
pub proof fn lemma_stored_state(st: ShotState, s: ScreenshotData, p: PlatformView, wasm: Set<Seq<char>>)
    requires
        shot_place(s.example@, opt_view(s.tag), p, wasm) is Some,
    ensures
        ({
            let place = shot_place(s.example@, opt_view(s.tag), p, wasm).unwrap();
            let p2 = match place.2 {
                Some(t) => PlatformView::Tag(t),
                None => p,
            };
            let after = apply_shot(st, s, p, wasm);
            &&& after.3.contains_key(place.1)
            &&& after.3[place.1].contains_key(p2)
            &&& (after.3[place.1][p2].1 == ScreenshotState::Changed) == (s.changed
                == ScreenshotState::Changed && !s.diff_is_zero)
            &&& after.3[place.1][p2].0 == s.screenshot@
            &&& after.3[place.1][p2].2 == s.snapshot_url@
        }),
{
}

/// Where two texts first differ, the smaller character decides their order,
/// whatever their lengths.
pub proof fn lemma_lex_first_difference(a: Seq<char>, b: Seq<char>, i: int)
    requires
        0 <= i < a.len(),
        i < b.len(),
        a.take(i) == b.take(i),
        (a[i] as int) < (b[i] as int),
    ensures
        lex_le(a, b),
        !lex_le(b, a),
    decreases i,
{
    if i > 0 {
        assert(a[0] == a.take(i)[0] && b[0] == b.take(i)[0]);
        assert(a.drop_first().take(i - 1) == a.take(i).drop_first());
        assert(b.drop_first().take(i - 1) == b.take(i).drop_first());
        lemma_lex_first_difference(a.drop_first(), b.drop_first(), i - 1);
    }
}

/// A proper prefix comes before the text it begins, and a text comes no later
/// than itself.
pub proof fn lemma_lex_prefix(a: Seq<char>, b: Seq<char>)
    requires
        a.len() <= b.len(),
        b.take(a.len() as int) == a,
    ensures
        lex_le(a, b),
        a.len() < b.len() ==> !lex_le(b, a),
    decreases a.len(),
{
    if a.len() > 0 {
        assert(b[0] == b.take(a.len() as int)[0]);
        assert(b.drop_first().take(a.len() - 1) == b.take(a.len() as int).drop_first());
        lemma_lex_prefix(a.drop_first(), b.drop_first());
    }
}

/// One of the six colour codes that logs are cleaned of: the escape character
/// followed by `[0m`, `[1m`, `[2m`, `[31m`, `[32m` or `[33m`.
pub open spec fn is_colour_code(c: Seq<char>) -> bool {
    ||| c == seq!['\u{1b}', '[', '0', 'm']
    ||| c == seq!['\u{1b}', '[', '1', 'm']
    ||| c == seq!['\u{1b}', '[', '2', 'm']
    ||| c == seq!['\u{1b}', '[', '3', '1', 'm']
    ||| c == seq!['\u{1b}', '[', '3', '2', 'm']
    ||| c == seq!['\u{1b}', '[', '3', '3', 'm']
}

/// `s` holds no escape character.
pub open spec fn no_escape(s: Seq<char>) -> bool {
    forall|i: int| 0 <= i < s.len() ==> s[i] != '\u{1b}'
}

/// `s` with each pattern of `pats` removed in turn.
pub open spec fn remove_each(s: Seq<char>, pats: Seq<Seq<char>>) -> Seq<char>
    decreases pats.len(),
{
    if pats.len() == 0 {
        s
    } else {
        remove_each(remove_all(s, pats[0]), pats.drop_first())
    }
}

proof fn lemma_clean_log_steps(s: Seq<char>)
    ensures
        clean_log(s) == remove_each(
            s,
            seq![
                seq!['\u{1b}', '[', '0', 'm'],
                seq!['\u{1b}', '[', '1', 'm'],
                seq!['\u{1b}', '[', '2', 'm'],
                seq!['\u{1b}', '[', '3', '1', 'm'],
                seq!['\u{1b}', '[', '3', '2', 'm'],
                seq!['\u{1b}', '[', '3', '3', 'm'],
            ],
        ),
{
    reveal_strlit("\u{1b}[0m");
    reveal_strlit("\u{1b}[1m");
    reveal_strlit("\u{1b}[2m");
    reveal_strlit("\u{1b}[31m");
    reveal_strlit("\u{1b}[32m");
    reveal_strlit("\u{1b}[33m");
    assert("\u{1b}[0m"@ =~= seq!['\u{1b}', '[', '0', 'm']);
    assert("\u{1b}[1m"@ =~= seq!['\u{1b}', '[', '1', 'm']);
    assert("\u{1b}[2m"@ =~= seq!['\u{1b}', '[', '2', 'm']);
    assert("\u{1b}[31m"@ =~= seq!['\u{1b}', '[', '3', '1', 'm']);
    assert("\u{1b}[32m"@ =~= seq!['\u{1b}', '[', '3', '2', 'm']);
    assert("\u{1b}[33m"@ =~= seq!['\u{1b}', '[', '3', '3', 'm']);
    let ps = seq![
        seq!['\u{1b}', '[', '0', 'm'],
        seq!['\u{1b}', '[', '1', 'm'],
        seq!['\u{1b}', '[', '2', 'm'],
        seq!['\u{1b}', '[', '3', '1', 'm'],
        seq!['\u{1b}', '[', '3', '2', 'm'],
        seq!['\u{1b}', '[', '3', '3', 'm'],
    ];
    reveal_with_fuel(remove_each, 7);
    assert(ps.drop_first()[0] == ps[1]);
    assert(ps.drop_first().drop_first()[0] == ps[2]);
    assert(ps.drop_first().drop_first().drop_first()[0] == ps[3]);
    assert(ps.drop_first().drop_first().drop_first().drop_first()[0] == ps[4]);
    assert(ps.drop_first().drop_first().drop_first().drop_first().drop_first()[0] == ps[5]);
    assert(ps.drop_first().drop_first().drop_first().drop_first().drop_first().drop_first().len()
        == 0);
}

/// Text without escape characters is not touched by removing a pattern that
/// starts with one.
proof fn lemma_remove_all_no_escape(d: Seq<char>, x: Seq<char>, pat: Seq<char>)
    requires
        pat.len() > 0,
        pat[0] == '\u{1b}',
        no_escape(d),
    ensures
        remove_all(d + x, pat) == d + remove_all(x, pat),
    decreases d.len(),
{
    if d.len() > 0 {
        let s = d + x;
        assert(!starts_with(s, pat)) by {
            if starts_with(s, pat) {
                assert(s.take(pat.len() as int)[0] == s[0]);
            }
        }
        assert(s.skip(1) == d.skip(1) + x);
        lemma_remove_all_no_escape(d.skip(1), x, pat);
        assert(d == seq![d[0]] + d.skip(1));
        assert(seq![s[0]] + (d.skip(1) + remove_all(x, pat)) == d + remove_all(x, pat));
    }
}

proof fn lemma_remove_code_step(c: Seq<char>, t: Seq<char>, pat: Seq<char>)
    requires
        is_colour_code(c),
        is_colour_code(pat),
    ensures
        remove_all(c + t, pat) == (if c == pat {
            remove_all(t, pat)
        } else {
            c + remove_all(t, pat)
        }),
{
    let s = c + t;
    if c == pat {
        assert(s.take(pat.len() as int) == pat);
        assert(s.skip(pat.len() as int) == t);
    } else {
        assert(!starts_with(s, pat)) by {
            if starts_with(s, pat) {
                let w = s.take(pat.len() as int);
                assert(w[2] == s[2] && w[2] == pat[2]);
                assert(w[3] == s[3] && w[3] == pat[3]);
                assert(s[2] == c[2] && s[3] == c[3]);
                if c.len() == 5 && pat.len() == 5 {
                    assert(w[4] == s[4] && s[4] == c[4]);
                }
            }
        }
        assert(s.skip(1) == c.skip(1) + t);
        assert(no_escape(c.skip(1)));
        lemma_remove_all_no_escape(c.skip(1), t, pat);
        assert(c == seq![c[0]] + c.skip(1));
    }
}

proof fn lemma_remove_each_code(c: Seq<char>, t: Seq<char>, pats: Seq<Seq<char>>)
    requires
        is_colour_code(c),
        forall|i: int| 0 <= i < pats.len() ==> is_colour_code(#[trigger] pats[i]),
    ensures
        pats.contains(c) ==> remove_each(c + t, pats) == remove_each(t, pats),
        !pats.contains(c) ==> remove_each(c + t, pats) == c + remove_each(t, pats),
    decreases pats.len(),
{
    if pats.len() > 0 {
        lemma_remove_code_step(c, t, pats[0]);
        let rest = pats.drop_first();
        assert forall|i: int| 0 <= i < rest.len() implies is_colour_code(#[trigger] rest[i]) by {
            assert(rest[i] == pats[i + 1]);
        }
        lemma_remove_each_code(c, remove_all(t, pats[0]), rest);
        if pats[0] != c {
            assert(pats.contains(c) ==> rest.contains(c)) by {
                if pats.contains(c) {
                    let i = choose|i: int| 0 <= i < pats.len() && pats[i] == c;
                    assert(rest[i - 1] == c);
                }
            }
            assert(rest.contains(c) ==> pats.contains(c)) by {
                if rest.contains(c) {
                    let i = choose|i: int| 0 <= i < rest.len() && rest[i] == c;
                    assert(pats[i + 1] == c);
                }
            }
        } else {
            assert(pats.contains(c)) by {
                assert(pats[0] == c);
            }
        }
    }
}

proof fn lemma_remove_each_no_escape(s: Seq<char>, pats: Seq<Seq<char>>)
    requires
        no_escape(s),
        forall|i: int| 0 <= i < pats.len() ==> is_colour_code(#[trigger] pats[i]),
    ensures
        remove_each(s, pats) == s,
    decreases pats.len(),
{
    if pats.len() > 0 {
        assert(is_colour_code(pats[0]));
        lemma_remove_all_no_escape(s, Seq::empty(), pats[0]);
        assert(s + Seq::<char>::empty() == s);
        assert(remove_all(Seq::<char>::empty(), pats[0]) == Seq::<char>::empty());
        let rest = pats.drop_first();
        assert forall|i: int| 0 <= i < rest.len() implies is_colour_code(#[trigger] rest[i]) by {
            assert(rest[i] == pats[i + 1]);
        }
        lemma_remove_each_no_escape(s, rest);
    }
}

/// Cleaning a log leaves text without escape characters as it is.
pub proof fn lemma_clean_log_keeps_plain_text(s: Seq<char>)
    requires
        no_escape(s),
    ensures
        clean_log(s) == s,
{
    lemma_clean_log_steps(s);
    let ps = seq![
        seq!['\u{1b}', '[', '0', 'm'],
        seq!['\u{1b}', '[', '1', 'm'],
        seq!['\u{1b}', '[', '2', 'm'],
        seq!['\u{1b}', '[', '3', '1', 'm'],
        seq!['\u{1b}', '[', '3', '2', 'm'],
        seq!['\u{1b}', '[', '3', '3', 'm'],
    ];
    lemma_remove_each_no_escape(s, ps);
}

/// Cleaning a log drops a colour code at its start: the rest is cleaned as if
/// the code were not there.
pub proof fn lemma_clean_log_drops_leading_code(c: Seq<char>, t: Seq<char>)
    requires
        is_colour_code(c),
    ensures
        clean_log(c + t) == clean_log(t),
{
    lemma_clean_log_steps(c + t);
    lemma_clean_log_steps(t);
    let ps = seq![
        seq!['\u{1b}', '[', '0', 'm'],
        seq!['\u{1b}', '[', '1', 'm'],
        seq!['\u{1b}', '[', '2', 'm'],
        seq!['\u{1b}', '[', '3', '1', 'm'],
        seq!['\u{1b}', '[', '3', '2', 'm'],
        seq!['\u{1b}', '[', '3', '3', 'm'],
    ];
    assert(ps.contains(c)) by {
        if c == ps[0] {
        } else if c == ps[1] {
        } else if c == ps[2] {
        } else if c == ps[3] {
        } else if c == ps[4] {
        } else {
            assert(c == ps[5]);
        }
    }
    lemma_remove_each_code(c, t, ps);
}

/// The number that decimal digits stand for, read in base 10.
pub open spec fn decimal_value(s: Seq<char>) -> int
    decreases s.len(),
{
    if s.len() == 0 {
        0
    } else {
        decimal_value(s.drop_last()) * 10 + (s.last() as int - '0' as int)
    }
}

proof fn lemma_digit_value(d: nat)
    requires
        d < 10,
    ensures
        digit(d) as int - '0' as int == d,
        '0' as int <= digit(d) as int <= '9' as int,
{
    assert('1' as int == '0' as int + 1);
    assert('2' as int == '0' as int + 2);
    assert('3' as int == '0' as int + 3);
    assert('4' as int == '0' as int + 4);
    assert('5' as int == '0' as int + 5);
    assert('6' as int == '0' as int + 6);
    assert('7' as int == '0' as int + 7);
    assert('8' as int == '0' as int + 8);
    assert('9' as int == '0' as int + 9);
}

/// Writing a number in decimal uses only the digits `0` to `9`, starts with a
/// nonzero digit (unless the number is zero), and reads back as the number.
pub proof fn lemma_decimal_reads_back(n: nat)
    ensures
        decimal(n).len() > 0,
        forall|i: int|
            0 <= i < decimal(n).len() ==> '0' as int <= #[trigger] decimal(n)[i] as int <= '9' as int,
        n > 0 ==> decimal(n)[0] != '0',
        decimal_value(decimal(n)) == n,
    decreases n,
{
    if n < 10 {
        lemma_digit_value(n);
        assert(decimal(n) == seq![digit(n)]);
        assert(seq![digit(n)].drop_last() == Seq::<char>::empty());
        assert(decimal_value(Seq::<char>::empty()) == 0);
    } else {
        lemma_digit_value((n % 10) as nat);
        lemma_decimal_reads_back(n / 10);
        let s = decimal(n / 10).push(digit((n % 10) as nat));
        assert(s.drop_last() == decimal(n / 10));
        assert(s[0] == decimal(n / 10)[0]);
        assert forall|i: int| 0 <= i < s.len() implies '0' as int <= #[trigger] s[i] as int
            <= '9' as int by {
            if i < s.len() - 1 {
                assert(s[i] == decimal(n / 10)[i]);
            }
        }
    }
}

} // verus!
