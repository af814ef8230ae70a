use vstd::prelude::*;
use vstd::utf8::*;
use crate::error::RbdError;
use crate::cstr::{nul_free, until_nul, lemma_nul_position_is};
use crate::fields::{split_nul, decode_fields, drop_empty};
use crate::rbd::{listed_names, trim_unterminated};
use crate::image::{metadata_outcome, paired, superseded, keep_last, latest_entries, strip_nul};
use crate::options::{
    SettingView, StepView, ValueView, ImageOption, failure_of, expected_step, is_finish, reachable,
    creation_settings, derived_settings,
};

verus! {

/// Names written the way librbd lists them: each followed by a NUL byte.
pub open spec fn join_fields(fs: Seq<Seq<u8>>) -> Seq<u8>
    decreases fs.len(),
{
    if fs.len() == 0 {
        Seq::empty()
    } else {
        join_fields(fs.drop_last()) + fs.last().push(0u8)
    }
}

/// The answer at position `k` fails the request: a negative answer to a
/// checked setting, or to the request itself.
pub open spec fn fails_at(settings: Seq<SettingView>, answers: Seq<i32>, k: int) -> bool {
    ||| (k < settings.len() && settings[k].checked && answers[k] < 0)
    ||| (k == settings.len() && answers[k] < 0)
}

/// A C string read back from a buffer holding a NUL-free byte string and
/// its terminator gives back that byte string.
pub proof fn law_c_string_round_trip(s: Seq<u8>)
    requires
        nul_free(s),
    ensures
        until_nul(s.push(0u8)) == s,
{
    lemma_nul_position_is(s.push(0u8), s.len() as int);
    assert(s.push(0u8).take(s.len() as int) =~= s);
}

/// A text whose encoding holds no NUL byte, handed to librbd as a C string
/// and read back as one, comes back unchanged.
pub proof fn law_text_round_trip(text: Seq<char>)
    requires
        nul_free(encode_utf8(text)),
    ensures
        valid_utf8(until_nul(encode_utf8(text).push(0u8))),
        decode_utf8(until_nul(encode_utf8(text).push(0u8))) == text,
{
    law_c_string_round_trip(encode_utf8(text));
    encode_utf8_valid_utf8(text);
    encode_utf8_decode_utf8(text);
}

/// Adding NUL-free bytes to a buffer extends its last field.
proof fn lemma_split_nul_extend(x: Seq<u8>, w: Seq<u8>)
    requires
        nul_free(w),
    ensures
        split_nul(x + w) == split_nul(x).update(
            split_nul(x).len() - 1,
            split_nul(x).last() + w,
        ),
    decreases w.len(),
{
    crate::fields::lemma_split_nul_nonempty(x);
    let q = split_nul(x);
    if w.len() == 0 {
        assert(x + w =~= x);
        assert(q.last() + w =~= q.last());
        assert(q.update(q.len() - 1, q.last() + w) =~= q);
    } else {
        let w0 = w.drop_last();
        lemma_split_nul_extend(x, w0);
        assert((x + w).drop_last() =~= x + w0);
        assert((x + w).last() == w.last());
        let p = split_nul(x + w0);
        assert(p.last() == q.last() + w0);
        assert((q.last() + w0).push(w.last()) =~= q.last() + w);
        assert(p.update(p.len() - 1, p.last().push(w.last())) =~= q.update(
            q.len() - 1,
            q.last() + w,
        ));
    }
}

/// A NUL byte closes the last field and opens an empty one.
proof fn lemma_split_nul_terminate(x: Seq<u8>)
    ensures
        split_nul(x.push(0u8)) == split_nul(x).push(Seq::<u8>::empty()),
{
    assert(x.push(0u8).drop_last() =~= x);
}

/// The fields of names written with their terminators are the names, and
/// an empty field after the last terminator.
proof fn lemma_split_join(fs: Seq<Seq<u8>>)
    requires
        forall|i: int| 0 <= i < fs.len() ==> nul_free(#[trigger] fs[i]),
    ensures
        split_nul(join_fields(fs)) == fs.push(Seq::<u8>::empty()),
    decreases fs.len(),
{
    if fs.len() == 0 {
        assert(split_nul(Seq::<u8>::empty()) =~= fs.push(Seq::<u8>::empty()));
    } else {
        let f0 = fs.drop_last();
        let f = fs.last();
        assert forall|i: int| 0 <= i < f0.len() implies nul_free(#[trigger] f0[i]) by {
            assert(f0[i] == fs[i]);
        }
        assert(nul_free(fs[fs.len() - 1]));
        lemma_split_join(f0);
        let j = join_fields(f0);
        assert(join_fields(fs) =~= (j + f).push(0u8));
        lemma_split_nul_terminate(j + f);
        lemma_split_nul_extend(j, f);
        assert(Seq::<u8>::empty() + f =~= f);
        assert(f0.push(Seq::<u8>::empty()).update(f0.len() as int, f) =~= fs);
    }
}

/// Fields that are all valid UTF-8 decode one by one.
proof fn lemma_decode_all_valid(fs: Seq<Seq<u8>>)
    requires
        forall|i: int| 0 <= i < fs.len() ==> valid_utf8(#[trigger] fs[i]),
    ensures
        decode_fields(fs) == Ok::<Seq<Seq<char>>, Seq<u8>>(fs.map_values(|f: Seq<u8>| decode_utf8(f))),
    decreases fs.len(),
{
    if fs.len() > 0 {
        let f0 = fs.drop_last();
        assert forall|i: int| 0 <= i < f0.len() implies valid_utf8(#[trigger] f0[i]) by {
            assert(f0[i] == fs[i]);
        }
        assert(valid_utf8(fs[fs.len() - 1]));
        lemma_decode_all_valid(f0);
        assert(f0.map_values(|f: Seq<u8>| decode_utf8(f)).push(decode_utf8(fs.last()))
            =~= fs.map_values(|f: Seq<u8>| decode_utf8(f)));
    } else {
        assert(fs.map_values(|f: Seq<u8>| decode_utf8(f)) =~= Seq::<Seq<char>>::empty());
    }
}

/// Dropping the empty texts leaves texts that are all non-empty untouched.
proof fn lemma_drop_empty_keeps(ts: Seq<Seq<char>>)
    requires
        forall|i: int| 0 <= i < ts.len() ==> (#[trigger] ts[i]).len() > 0,
    ensures
        drop_empty(ts) == ts,
    decreases ts.len(),
{
    if ts.len() > 0 {
        let t0 = ts.drop_last();
        assert forall|i: int| 0 <= i < t0.len() implies (#[trigger] t0[i]).len() > 0 by {
            assert(t0[i] == ts[i]);
        }
        assert(ts[ts.len() - 1].len() > 0);
        lemma_drop_empty_keeps(t0);
        assert(t0.push(ts.last()) =~= ts);
    }
}

/// A non-empty valid UTF-8 byte string decodes to a non-empty text.
proof fn lemma_decode_nonempty(f: Seq<u8>)
    requires
        valid_utf8(f),
        f.len() > 0,
    ensures
        decode_utf8(f).len() > 0,
{
}

/// Listing names written the way librbd writes them gives back exactly
/// those names, in order, when each is non-empty, NUL-free UTF-8.
pub proof fn law_name_list_round_trip(fs: Seq<Seq<u8>>)
    requires
        forall|i: int|
            0 <= i < fs.len() ==> (#[trigger] fs[i]).len() > 0 && nul_free(fs[i]) && valid_utf8(
                fs[i],
            ),
    ensures
        listed_names(join_fields(fs)) == Ok::<Seq<Seq<char>>, Seq<u8>>(
            fs.map_values(|f: Seq<u8>| decode_utf8(f)),
        ),
{
    lemma_decode_joined(fs);
    if fs.len() > 0 {
        assert(join_fields(fs).last() == 0);
    }
    assert(trim_unterminated(join_fields(fs)) == join_fields(fs));
    let ts = fs.map_values(|f: Seq<u8>| decode_utf8(f));
    assert(decoded_with_empty(fs).drop_last() =~= ts);
    assert forall|i: int| 0 <= i < ts.len() implies (#[trigger] ts[i]).len() > 0 by {
        lemma_decode_nonempty(fs[i]);
    }
    lemma_drop_empty_keeps(ts);
}

/// Every text that survives dropping the empty ones is non-empty.
proof fn lemma_drop_empty_nonempty(ts: Seq<Seq<char>>)
    ensures
        forall|i: int|
            0 <= i < drop_empty(ts).len() ==> (#[trigger] drop_empty(ts)[i]).len() > 0,
    decreases ts.len(),
{
    if ts.len() > 0 {
        let rest = drop_empty(ts.drop_last());
        lemma_drop_empty_nonempty(ts.drop_last());
        if ts.last().len() > 0 {
            assert forall|i: int| 0 <= i < drop_empty(ts).len() implies (#[trigger] drop_empty(
                ts,
            )[i]).len() > 0 by {
                if i < rest.len() {
                    assert(drop_empty(ts)[i] == rest[i]);
                }
            }
        }
    }
}

/// No name in a listing is empty.
pub proof fn law_listed_names_nonempty(buf: Seq<u8>, ns: Seq<Seq<char>>)
    requires
        listed_names(buf) == Ok::<Seq<Seq<char>>, Seq<u8>>(ns),
    ensures
        forall|i: int| 0 <= i < ns.len() ==> (#[trigger] ns[i]).len() > 0,
{
    if let Ok(ts) = decode_fields(split_nul(trim_unterminated(buf))) {
        lemma_drop_empty_nonempty(ts);
    }
}

/// The paired entries have non-empty keys and values and are no more than
/// the pairs considered.
proof fn lemma_paired_nonempty(ks: Seq<Seq<char>>, vs: Seq<Seq<char>>, n: nat)
    ensures
        paired(ks, vs, n).len() <= n,
        forall|i: int|
            0 <= i < paired(ks, vs, n).len() ==> (#[trigger] paired(ks, vs, n)[i]).0.len() > 0
                && paired(ks, vs, n)[i].1.len() > 0,
    decreases n,
{
    if n > 0 {
        lemma_paired_nonempty(ks, vs, (n - 1) as nat);
    }
}

/// Every metadata entry has a non-empty key and a non-empty value, and
/// there are never more entries than keys or than values.
pub proof fn law_metadata_entries_nonempty(
    keys: Seq<u8>,
    values: Seq<u8>,
    es: Seq<(Seq<char>, Seq<char>)>,
)
    requires
        metadata_outcome(keys, values) == Ok::<Seq<(Seq<char>, Seq<char>)>, Seq<u8>>(es),
    ensures
        es.len() <= split_nul(keys).len(),
        es.len() <= split_nul(values).len(),
        forall|i: int| 0 <= i < es.len() ==> (#[trigger] es[i]).0.len() > 0 && es[i].1.len() > 0,
{
    if let Ok(ks) = decode_fields(split_nul(keys)) {
        if let Ok(vs) = decode_fields(split_nul(values)) {
            lemma_decode_fields_len(split_nul(keys));
            lemma_decode_fields_len(split_nul(values));
            let n = if ks.len() <= vs.len() { ks.len() } else { vs.len() };
            lemma_paired_nonempty(ks, vs, n);
            let p = paired(ks, vs, n);
            lemma_keep_last_members(p, p.len());
            assert forall|i: int| 0 <= i < es.len() implies (#[trigger] es[i]).0.len() > 0
                && es[i].1.len() > 0 by {
                assert(kept_from(p, es[i], p.len()));
                let m = choose|m: int| 0 <= m < p.len() && !superseded(p, m) && es[i] == p[m];
                assert(p[m].0.len() > 0);
            }
        }
    }
}

/// `e` is one of the first `n` entries that no later entry replaces.
spec fn kept_from(es: Seq<(Seq<char>, Seq<char>)>, e: (Seq<char>, Seq<char>), n: nat) -> bool {
    exists|m: int| 0 <= m < n && !superseded(es, m) && e == es[m]
}

/// The kept entries are no more than those considered, and each is one
/// that no later entry replaces.
proof fn lemma_keep_last_members(es: Seq<(Seq<char>, Seq<char>)>, n: nat)
    requires
        n <= es.len(),
    ensures
        keep_last(es, n).len() <= n,
        forall|k: int|
            0 <= k < keep_last(es, n).len() ==> kept_from(es, #[trigger] keep_last(es, n)[k], n),
    decreases n,
{
    if n > 0 {
        let r = keep_last(es, (n - 1) as nat);
        lemma_keep_last_members(es, (n - 1) as nat);
        assert forall|k: int| 0 <= k < keep_last(es, n).len() implies kept_from(
            es,
            #[trigger] keep_last(es, n)[k],
            n,
        ) by {
            if k < r.len() {
                assert(keep_last(es, n)[k] == r[k]);
                assert(kept_from(es, r[k], (n - 1) as nat));
                let m = choose|m: int| 0 <= m < n - 1 && !superseded(es, m) && r[k] == es[m];
                assert(0 <= m < n && !superseded(es, m) && keep_last(es, n)[k] == es[m]);
            } else {
                assert(keep_last(es, n)[k] == es[n - 1]);
                assert(0 <= n - 1 < n && !superseded(es, n - 1));
            }
        }
    }
}

/// No two kept entries share a key.
proof fn lemma_keep_last_distinct(es: Seq<(Seq<char>, Seq<char>)>, n: nat)
    requires
        n <= es.len(),
    ensures
        forall|a: int, b: int|
            0 <= a < b < keep_last(es, n).len() ==> (#[trigger] keep_last(es, n)[a]).0
                != (#[trigger] keep_last(es, n)[b]).0,
    decreases n,
{
    if n > 0 {
        let r = keep_last(es, (n - 1) as nat);
        lemma_keep_last_distinct(es, (n - 1) as nat);
        lemma_keep_last_members(es, (n - 1) as nat);
        if !superseded(es, n - 1) {
            let t = keep_last(es, n);
            assert forall|a: int, b: int| 0 <= a < b < t.len() implies (#[trigger] t[a]).0 != (
            #[trigger] t[b]).0 by {
                assert(t[a] == r[a]);
                if b < r.len() {
                    assert(t[b] == r[b]);
                } else {
                    assert(t[b] == es[n - 1]);
                    assert(kept_from(es, r[a], (n - 1) as nat));
                    let m = choose|m: int| 0 <= m < n - 1 && !superseded(es, m) && r[a] == es[m];
                    if es[m].0 == es[n - 1].0 {
                        assert(superseded(es, m));
                    }
                }
            }
        }
    }
}

/// An entry that no later entry replaces is kept.
proof fn lemma_keep_last_has(es: Seq<(Seq<char>, Seq<char>)>, n: nat, m: int)
    requires
        n <= es.len(),
        0 <= m < n,
        !superseded(es, m),
    ensures
        exists|k: int| 0 <= k < keep_last(es, n).len() && keep_last(es, n)[k] == es[m],
    decreases n,
{
    let r = keep_last(es, (n - 1) as nat);
    if m == n - 1 {
        assert(keep_last(es, n)[r.len() as int] == es[m]);
    } else {
        lemma_keep_last_has(es, (n - 1) as nat, m);
        let k = choose|k: int| 0 <= k < r.len() && r[k] == es[m];
        assert(keep_last(es, n)[k] == es[m]);
    }
}

/// Every key has a last entry, one that no later entry replaces.
proof fn lemma_last_with_key(es: Seq<(Seq<char>, Seq<char>)>, i: int)
    requires
        0 <= i < es.len(),
    ensures
        exists|m: int| i <= m < es.len() && !superseded(es, m) && es[m].0 == es[i].0,
    decreases es.len() - i,
{
    if superseded(es, i) {
        let j = choose|j: int| i < j < es.len() && es[j].0 == es[i].0;
        lemma_last_with_key(es, j);
        let m = choose|m: int| j <= m < es.len() && !superseded(es, m) && es[m].0 == es[j].0;
        assert(i <= m < es.len() && !superseded(es, m) && es[m].0 == es[i].0);
    } else {
        assert(i <= i < es.len() && !superseded(es, i) && es[i].0 == es[i].0);
    }
}

/// Read as a map keyed by name, the entries keep one entry per key: no
/// two kept entries share a key.
pub proof fn law_latest_keys_distinct(es: Seq<(Seq<char>, Seq<char>)>)
    ensures
        forall|a: int, b: int|
            0 <= a < b < latest_entries(es).len() ==> (#[trigger] latest_entries(es)[a]).0
                != (#[trigger] latest_entries(es)[b]).0,
{
    lemma_keep_last_distinct(es, es.len());
}

/// Every kept entry is the last entry with its key.
pub proof fn law_latest_entries_are_last(es: Seq<(Seq<char>, Seq<char>)>, k: int)
    requires
        0 <= k < latest_entries(es).len(),
    ensures
        exists|m: int| 0 <= m < es.len() && !superseded(es, m) && latest_entries(es)[k] == es[m],
{
    lemma_keep_last_members(es, es.len());
    assert(kept_from(es, latest_entries(es)[k], es.len()));
}

/// Every key of the entries is kept, with the value of its last entry.
pub proof fn law_latest_entries_cover(es: Seq<(Seq<char>, Seq<char>)>, i: int)
    requires
        0 <= i < es.len(),
    ensures
        exists|k: int, m: int|
            0 <= k < latest_entries(es).len() && 0 <= m < es.len() && !superseded(es, m)
                && latest_entries(es)[k] == es[m] && es[m].0 == es[i].0,
{
    lemma_last_with_key(es, i);
    let m = choose|m: int| i <= m < es.len() && !superseded(es, m) && es[m].0 == es[i].0;
    lemma_keep_last_has(es, es.len(), m);
    let k = choose|k: int| 0 <= k < latest_entries(es).len() && latest_entries(es)[k] == es[m];
    assert(0 <= k < latest_entries(es).len() && 0 <= m < es.len() && !superseded(es, m)
        && latest_entries(es)[k] == es[m] && es[m].0 == es[i].0);
}

/// Entries with distinct keys are all kept, in order.
proof fn lemma_keep_last_distinct_keys(es: Seq<(Seq<char>, Seq<char>)>, n: nat)
    requires
        n <= es.len(),
        forall|a: int, b: int| 0 <= a < b < es.len() ==> (#[trigger] es[a]).0 != (#[trigger] es[b]).0,
    ensures
        keep_last(es, n) == es.take(n as int),
    decreases n,
{
    if n > 0 {
        lemma_keep_last_distinct_keys(es, (n - 1) as nat);
        assert(!superseded(es, n - 1));
        assert(es.take(n - 1).push(es[n - 1]) =~= es.take(n as int));
    } else {
        assert(es.take(0) =~= Seq::<(Seq<char>, Seq<char>)>::empty());
    }
}

/// Decoding keeps the number of fields.
proof fn lemma_decode_fields_len(fs: Seq<Seq<u8>>)
    ensures
        decode_fields(fs) matches Ok(ts) ==> ts.len() == fs.len(),
    decreases fs.len(),
{
    if fs.len() > 0 {
        lemma_decode_fields_len(fs.drop_last());
    }
}

/// The first failure is the earliest failing answer.
proof fn lemma_failure_of(settings: Seq<SettingView>, answers: Seq<i32>)
    ensures
        failure_of(settings, answers) is None <==> forall|k: int|
            0 <= k < answers.len() ==> !fails_at(settings, answers, k),
        failure_of(settings, answers) matches Some(c) ==> exists|k: int|
            0 <= k < answers.len() && fails_at(settings, answers, k) && answers[k] == c && forall|
                j: int,
            |
                0 <= j < k ==> !fails_at(settings, answers, j),
    decreases answers.len(),
{
    if answers.len() > 0 {
        let a0 = answers.drop_last();
        lemma_failure_of(settings, a0);
        assert forall|k: int| 0 <= k < a0.len() implies fails_at(settings, a0, k) == fails_at(
            settings,
            answers,
            k,
        ) by {
            assert(a0[k] == answers[k]);
        }
        if let Some(c) = failure_of(settings, a0) {
            let k = choose|k: int|
                0 <= k < a0.len() && fails_at(settings, a0, k) && a0[k] == c && forall|j: int|
                    0 <= j < k ==> !fails_at(settings, a0, j);
            assert(fails_at(settings, answers, k) && answers[k] == c);
            assert forall|j: int| 0 <= j < k implies !fails_at(settings, answers, j) by {
                assert(fails_at(settings, a0, j) == fails_at(settings, answers, j));
            }
        } else if failure_of(settings, answers) is Some {
            let k = answers.len() - 1;
            assert(fails_at(settings, answers, k));
        }
    }
}

/// A request succeeds exactly when it has set every option, made the
/// request and destroyed the option list, and neither a checked setting
/// nor the request itself was answered with a negative code.
pub proof fn law_options_success(settings: Seq<SettingView>, answers: Seq<i32>)
    requires
        reachable(settings, answers),
    ensures
        expected_step(settings, answers) == StepView::Finish(Ok(())) <==> {
            &&& answers.len() == settings.len() + 2
            &&& forall|k: int|
                0 <= k < settings.len() && (#[trigger] settings[k]).checked ==> answers[k] >= 0
            &&& answers[settings.len() as int] >= 0
        },
{
    lemma_failure_of(settings, answers);
    if answers.len() == settings.len() + 2 {
        if failure_of(settings, answers) is None {
            assert(!fails_at(settings, answers, settings.len() as int));
            assert forall|k: int|
                0 <= k < settings.len() && (#[trigger] settings[k]).checked implies answers[k]
                >= 0 by {
                assert(!fails_at(settings, answers, k));
            }
        } else {
            let c = failure_of(settings, answers)->Some_0;
            let k = choose|k: int|
                0 <= k < answers.len() && fails_at(settings, answers, k) && answers[k] == c
                    && forall|j: int| 0 <= j < k ==> !fails_at(settings, answers, j);
            assert(fails_at(settings, answers, k));
        }
    }
}

/// A failed request reports the code of the answer it failed on, which is
/// the last one received and the first failing one.
pub proof fn law_options_failure(settings: Seq<SettingView>, answers: Seq<i32>, code: i32)
    requires
        reachable(settings, answers),
        expected_step(settings, answers) == StepView::Finish(Err(RbdError::Api(code))),
    ensures
        answers.len() > 0,
        code == answers.last(),
        code < 0,
        fails_at(settings, answers, answers.len() - 1),
        forall|k: int| 0 <= k < answers.len() - 1 ==> !fails_at(settings, answers, k),
{
    lemma_failure_of(settings, answers);
    lemma_failure_of(settings, answers.drop_last());
    assert forall|k: int| 0 <= k < answers.len() - 1 implies !fails_at(settings, answers, k) by {
        assert(answers.drop_last()[k] == answers[k]);
        assert(!fails_at(settings, answers.drop_last(), k));
    }
}

/// Until it ends, a request sets the options one after the other in the
/// order of its list, then makes the request, then destroys the option
/// list; after the destruction it is over.
pub proof fn law_options_order(settings: Seq<SettingView>, answers: Seq<i32>)
    requires
        reachable(settings, answers),
        !is_finish(expected_step(settings, answers)),
    ensures
        answers.len() < settings.len() ==> expected_step(settings, answers) == StepView::Apply(
            settings[answers.len() as int].option,
            settings[answers.len() as int].value,
        ),
        answers.len() == settings.len() ==> expected_step(settings, answers) == StepView::Submit,
        answers.len() == settings.len() + 1 ==> expected_step(settings, answers)
            == StepView::Destroy,
        answers.len() < settings.len() + 2,
{
}

/// Pairs with a non-empty key and value throughout are all kept, in order.
proof fn lemma_paired_keeps_all(ks: Seq<Seq<char>>, vs: Seq<Seq<char>>, n: nat)
    requires
        n <= ks.len(),
        n <= vs.len(),
        forall|i: int| 0 <= i < n ==> (#[trigger] ks[i]).len() > 0 && vs[i].len() > 0,
    ensures
        paired(ks, vs, n) == Seq::new(n, |i: int| (ks[i], vs[i])),
    decreases n,
{
    if n > 0 {
        lemma_paired_keeps_all(ks, vs, (n - 1) as nat);
        assert(ks[n - 1].len() > 0);
        assert(Seq::new((n - 1) as nat, |i: int| (ks[i], vs[i])).push((ks[n - 1], vs[n - 1]))
            =~= Seq::new(n, |i: int| (ks[i], vs[i])));
    } else {
        assert(paired(ks, vs, n) =~= Seq::new(n, |i: int| (ks[i], vs[i])));
    }
}

/// A trailing pair with an empty key is left out.
proof fn lemma_paired_trailing_empty(ks: Seq<Seq<char>>, vs: Seq<Seq<char>>, n: nat)
    requires
        n < ks.len(),
        n < vs.len(),
        ks[n as int].len() == 0,
    ensures
        paired(ks, vs, n + 1) == paired(ks, vs, n),
{
}

/// Metadata written the way librbd writes it (keys and values each
/// followed by a NUL byte, in two buffers) reads back as exactly those
/// key-value pairs, in order, when every key and value is non-empty,
/// NUL-free UTF-8 and no key is written twice.
pub proof fn law_metadata_round_trip(ks: Seq<Seq<u8>>, vs: Seq<Seq<u8>>)
    requires
        ks.len() == vs.len(),
        forall|i: int|
            0 <= i < ks.len() ==> (#[trigger] ks[i]).len() > 0 && nul_free(ks[i]) && valid_utf8(
                ks[i],
            ),
        forall|i: int|
            0 <= i < vs.len() ==> (#[trigger] vs[i]).len() > 0 && nul_free(vs[i]) && valid_utf8(
                vs[i],
            ),
        forall|a: int, b: int| 0 <= a < b < ks.len() ==> #[trigger] ks[a] != #[trigger] ks[b],
    ensures
        metadata_outcome(join_fields(ks), join_fields(vs)) == Ok::<
            Seq<(Seq<char>, Seq<char>)>,
            Seq<u8>,
        >(Seq::new(ks.len(), |i: int| (decode_utf8(ks[i]), decode_utf8(vs[i])))),
{
    assert forall|i: int| 0 <= i < ks.len() implies nul_free(#[trigger] ks[i]) && valid_utf8(ks[i]) by {}
    assert forall|i: int| 0 <= i < vs.len() implies nul_free(#[trigger] vs[i]) && valid_utf8(vs[i]) by {}
    lemma_decode_joined(ks);
    lemma_decode_joined(vs);
    let dk = decoded_with_empty(ks);
    let dv = decoded_with_empty(vs);
    let n = ks.len();
    assert forall|i: int| 0 <= i < n implies (#[trigger] dk[i]).len() > 0 && dv[i].len() > 0 by {
        lemma_decode_nonempty(ks[i]);
        lemma_decode_nonempty(vs[i]);
    }
    assert(dk[n as int] =~= Seq::<char>::empty());
    lemma_paired_keeps_all(dk, dv, n);
    lemma_paired_trailing_empty(dk, dv, n);
    let es = Seq::new(n, |i: int| (decode_utf8(ks[i]), decode_utf8(vs[i])));
    assert(Seq::new(n, |i: int| (dk[i], dv[i])) =~= es);
    assert forall|a: int, b: int| 0 <= a < b < es.len() implies (#[trigger] es[a]).0 != (
    #[trigger] es[b]).0 by {
        if es[a].0 == es[b].0 {
            decode_utf8_encode_utf8(ks[a]);
            decode_utf8_encode_utf8(ks[b]);
            assert(ks[a] == ks[b]);
        }
    }
    lemma_keep_last_distinct_keys(es, n);
    assert(es.take(n as int) =~= es);
}

/// What the fields of NUL-terminated valid names decode to: the names,
/// then an empty text.
spec fn decoded_with_empty(fs: Seq<Seq<u8>>) -> Seq<Seq<char>> {
    fs.map_values(|f: Seq<u8>| decode_utf8(f)).push(Seq::<char>::empty())
}

/// The fields of NUL-terminated valid names decode to the names and an
/// empty text.
proof fn lemma_decode_joined(fs: Seq<Seq<u8>>)
    requires
        forall|i: int| 0 <= i < fs.len() ==> nul_free(#[trigger] fs[i]) && valid_utf8(fs[i]),
    ensures
        decode_fields(split_nul(join_fields(fs))) == Ok::<Seq<Seq<char>>, Seq<u8>>(
            decoded_with_empty(fs),
        ),
{
    lemma_split_join(fs);
    let all = fs.push(Seq::<u8>::empty());
    assert forall|i: int| 0 <= i < all.len() implies valid_utf8(#[trigger] all[i]) by {
        if i < fs.len() {
            assert(all[i] == fs[i]);
        } else {
            assert(all[i] =~= Seq::<u8>::empty());
        }
    }
    lemma_decode_all_valid(all);
    assert(decode_utf8(Seq::<u8>::empty()) =~= Seq::<char>::empty());
    assert(all.map_values(|f: Seq<u8>| decode_utf8(f)) =~= decoded_with_empty(fs));
}

/// The list holds this setting.
pub open spec fn holds_setting(l: Seq<SettingView>, s: SettingView) -> bool {
    exists|i: int| 0 <= i < l.len() && l[i] == s
}

/// Some setting of the list is of this option.
pub open spec fn mentions(l: Seq<SettingView>, o: ImageOption) -> bool {
    exists|i: int| 0 <= i < l.len() && l[i].option == o
}

/// A checked setting of a number.
pub open spec fn checked_number(o: ImageOption, v: u64) -> SettingView {
    SettingView { option: o, value: ValueView::Number(v), checked: true }
}

/// Image creation sets, whatever the other arguments: first the format, 1
/// for an old-style image and 2 otherwise, unchecked; the features exactly
/// when they are given, with their value; the order exactly when it is
/// given, with its value; the stripe unit and count, the given ones or 0;
/// and, last, the data pool exactly when one is given, with its name.
pub proof fn law_creation_settings(
    order: Option<u64>,
    old_format: bool,
    features: Option<u64>,
    stripe_unit: Option<u64>,
    stripe_count: Option<u64>,
    data_pool: Option<Seq<u8>>,
)
    ensures
        ({
            let l = creation_settings(order, old_format, features, stripe_unit, stripe_count, data_pool);
            &&& l.len() > 0
            &&& l[0] == SettingView {
                option: ImageOption::Format,
                value: ValueView::Number(if old_format { 1u64 } else { 2u64 }),
                checked: false,
            }
            &&& (features matches Some(f) ==> holds_setting(l, checked_number(ImageOption::Features, f)))
            &&& (mentions(l, ImageOption::Features) <==> features is Some)
            &&& (order matches Some(o) ==> holds_setting(l, checked_number(ImageOption::Order, o)))
            &&& (mentions(l, ImageOption::Order) <==> order is Some)
            &&& holds_setting(l, checked_number(ImageOption::StripeUnit, match stripe_unit { Some(x) => x, None => 0 }))
            &&& holds_setting(l, checked_number(ImageOption::StripeCount, match stripe_count { Some(x) => x, None => 0 }))
            &&& (data_pool matches Some(p) ==> l.last() == SettingView {
                option: ImageOption::DataPool,
                value: ValueView::Text(p),
                checked: true,
            })
            &&& (mentions(l, ImageOption::DataPool) <==> data_pool is Some)
        }),
{
    let l = creation_settings(order, old_format, features, stripe_unit, stripe_count, data_pool);
    let fmt = l[0];
    let su = checked_number(ImageOption::StripeUnit, match stripe_unit { Some(x) => x, None => 0 });
    let sc = checked_number(ImageOption::StripeCount, match stripe_count { Some(x) => x, None => 0 });
    let fs: Seq<SettingView> = match features {
        Some(f) => seq![checked_number(ImageOption::Features, f)],
        None => Seq::empty(),
    };
    let os: Seq<SettingView> = match order {
        Some(o) => seq![checked_number(ImageOption::Order, o)],
        None => Seq::empty(),
    };
    let ps: Seq<SettingView> = match data_pool {
        Some(p) => seq![SettingView { option: ImageOption::DataPool, value: ValueView::Text(p), checked: true }],
        None => Seq::empty(),
    };
    assert(l =~= seq![fmt] + fs + os + seq![su, sc] + ps);
    let a = fs.len() as int;
    let b = os.len() as int;
    assert(l[1 + a + b] == su);
    assert(l[2 + a + b] == sc);
    if let Some(f) = features {
        assert(l[1] == checked_number(ImageOption::Features, f));
    }
    if let Some(o) = order {
        assert(l[1 + a] == checked_number(ImageOption::Order, o));
    }
    if data_pool is Some {
        assert(l[3 + a + b].option == ImageOption::DataPool);
    }
    assert forall|i: int| 0 <= i < l.len() implies {
        &&& (l[i].option == ImageOption::Features ==> i == 1 && features is Some)
        &&& (l[i].option == ImageOption::Order ==> i == 1 + a && order is Some)
        &&& (l[i].option == ImageOption::DataPool ==> i == 3 + a + b && data_pool is Some)
    } by {
        if i == 0 {
        } else if i < 1 + a {
            assert(l[i] == fs[i - 1]);
        } else if i < 1 + a + b {
            assert(l[i] == os[i - 1 - a]);
        } else if i < 3 + a + b {
        } else {
            assert(l[i] == ps[i - 3 - a - b]);
        }
    }
}

/// Cloning and copying set, whatever the other arguments: first the
/// features exactly when they are given, with their value; then the order,
/// the given one or 0, and the stripe unit and count, the given ones or 0,
/// each once.
pub proof fn law_derived_settings(
    features: Option<u64>,
    order: Option<u64>,
    stripe_unit: Option<u64>,
    stripe_count: Option<u64>,
)
    ensures
        ({
            let l = derived_settings(features, order, stripe_unit, stripe_count);
            &&& (features matches Some(f) ==> l[0] == checked_number(ImageOption::Features, f))
            &&& (mentions(l, ImageOption::Features) <==> features is Some)
            &&& holds_setting(l, checked_number(ImageOption::Order, match order { Some(x) => x, None => 0 }))
            &&& holds_setting(l, checked_number(ImageOption::StripeUnit, match stripe_unit { Some(x) => x, None => 0 }))
            &&& holds_setting(l, checked_number(ImageOption::StripeCount, match stripe_count { Some(x) => x, None => 0 }))
            &&& forall|i: int, j: int| 0 <= i < j < l.len() ==> #[trigger] l[i].option != #[trigger] l[j].option
        }),
{
    let l = derived_settings(features, order, stripe_unit, stripe_count);
    let od = checked_number(ImageOption::Order, match order { Some(x) => x, None => 0 });
    let su = checked_number(ImageOption::StripeUnit, match stripe_unit { Some(x) => x, None => 0 });
    let sc = checked_number(ImageOption::StripeCount, match stripe_count { Some(x) => x, None => 0 });
    let fs: Seq<SettingView> = match features {
        Some(f) => seq![checked_number(ImageOption::Features, f)],
        None => Seq::empty(),
    };
    assert(l =~= fs + seq![od, su, sc]);
    let a = fs.len() as int;
    assert(l[a] == od);
    assert(l[a + 1] == su);
    assert(l[a + 2] == sc);
    assert forall|i: int| 0 <= i < l.len() implies (l[i].option == ImageOption::Features
        <==> i < a) && (i == a ==> l[i].option == ImageOption::Order) && (i == a + 1
        ==> l[i].option == ImageOption::StripeUnit) && (i == a + 2 ==> l[i].option
        == ImageOption::StripeCount) by {
        if i < a {
            assert(l[i] == fs[i]);
        }
    }
}

/// Removing the NUL bytes of a character array splits over concatenation.
proof fn lemma_strip_nul_concat(a: Seq<u8>, b: Seq<u8>)
    ensures
        strip_nul(a + b) == strip_nul(a) + strip_nul(b),
    decreases b.len(),
{
    if b.len() == 0 {
        assert(a + b =~= a);
        assert(strip_nul(a) + strip_nul(b) =~= strip_nul(a));
    } else {
        lemma_strip_nul_concat(a, b.drop_last());
        assert((a + b).drop_last() =~= a + b.drop_last());
        assert((a + b).last() == b.last());
        if b.last() != 0 {
            assert(strip_nul(a) + strip_nul(b.drop_last()).push(b.last()) =~= (strip_nul(a)
                + strip_nul(b.drop_last())).push(b.last()));
        }
    }
}

/// Removing the NUL bytes of a character array keeps every other byte, in
/// order: it is the array filtered by "not NUL".
pub proof fn law_strip_nul_is_filter(s: Seq<u8>)
    ensures
        strip_nul(s) == s.filter(|b: u8| b != 0),
    decreases s.len(),
{
    reveal(Seq::filter);
    if s.len() > 0 {
        law_strip_nul_is_filter(s.drop_last());
    }
}

/// A NUL-free name padded with NUL bytes, as librbd fills a fixed-size
/// character array, reads back whole.
pub proof fn law_strip_nul_padded(t: Seq<u8>, pad: nat)
    requires
        nul_free(t),
    ensures
        strip_nul(t + Seq::new(pad, |i: int| 0u8)) == t,
{
    lemma_strip_nul_nul_free(t);
    lemma_strip_nul_zeros(pad);
    lemma_strip_nul_concat(t, Seq::new(pad, |i: int| 0u8));
    assert(t + Seq::<u8>::empty() =~= t);
}

/// A NUL-free array is kept whole.
proof fn lemma_strip_nul_nul_free(t: Seq<u8>)
    requires
        nul_free(t),
    ensures
        strip_nul(t) == t,
    decreases t.len(),
{
    if t.len() > 0 {
        assert(nul_free(t.drop_last()));
        lemma_strip_nul_nul_free(t.drop_last());
        assert(t.drop_last().push(t.last()) =~= t);
    }
}

/// An array of NUL bytes is removed entirely.
proof fn lemma_strip_nul_zeros(n: nat)
    ensures
        strip_nul(Seq::new(n, |i: int| 0u8)) == Seq::<u8>::empty(),
    decreases n,
{
    if n > 0 {
        lemma_strip_nul_zeros((n - 1) as nat);
        assert(Seq::new(n, |i: int| 0u8).drop_last() =~= Seq::new((n - 1) as nat, |i: int| 0u8));
    }
}

} // verus!
