use vstd::prelude::*;
use crate::exercises::live_exercise;
use crate::models::{Exercise, WorkoutSet};
use crate::sessions::{max_set_number_opt, next_set_number};
use crate::store::{
    exercise_name_taken, exercise_names_unique, template_name_taken, template_names_unique,
    TemplateRow,
};
use crate::templates::live_template;

verus! {

// The engine-wide guarantees that tie several operations together. Each
// is stated over the same spec functions the operations' contracts use.

/// A listing that is a permutation of the live rows shows no archived
/// exercise: whatever `list` returns, every row in it is live.
pub proof fn lemma_exercise_listing_live(s: Seq<Exercise>, v: Seq<Exercise>)
    requires
        v.to_multiset() == s.filter(live_exercise()).to_multiset(),
    ensures
        forall|i: int| 0 <= i < v.len() ==> !(#[trigger] v[i]).archived,
{
    let f = s.filter(live_exercise());
    assert forall|i: int| 0 <= i < v.len() implies !(#[trigger] v[i]).archived by {
        let x = v[i];
        assert(v.contains(x));
        v.to_multiset_ensures();
        f.to_multiset_ensures();
        assert(v.to_multiset().count(x) > 0);
        assert(f.to_multiset().count(x) > 0);
        assert(f.contains(x));
        let k = choose|k: int| 0 <= k < f.len() && f[k] == x;
        s.lemma_filter_pred(live_exercise(), k);
    }
}

/// The same for templates: a listing permutation of the live template
/// rows shows no archived one.
pub proof fn lemma_template_listing_live(s: Seq<TemplateRow>, v: Seq<TemplateRow>)
    requires
        v.to_multiset() == s.filter(live_template()).to_multiset(),
    ensures
        forall|i: int| 0 <= i < v.len() ==> !(#[trigger] v[i]).archived,
{
    let f = s.filter(live_template());
    assert forall|i: int| 0 <= i < v.len() implies !(#[trigger] v[i]).archived by {
        let x = v[i];
        assert(v.contains(x));
        v.to_multiset_ensures();
        f.to_multiset_ensures();
        assert(v.to_multiset().count(x) > 0);
        assert(f.to_multiset().count(x) > 0);
        assert(f.contains(x));
        let k = choose|k: int| 0 <= k < f.len() && f[k] == x;
        s.lemma_filter_pred(live_template(), k);
    }
}

/// Archiving a live exercise frees its name: afterwards no live exercise
/// holds it, so re-creating the same name succeeds by `create`'s
/// contract.
pub proof fn lemma_archive_frees_exercise_name(s: Seq<Exercise>, i: int)
    requires
        exercise_names_unique(s),
        0 <= i < s.len(),
        !s[i].archived,
    ensures
        !exercise_name_taken(s.update(i, Exercise { archived: true, ..s[i] }), s[i].name@),
{
    let t = s.update(i, Exercise { archived: true, ..s[i] });
    assert forall|j: int| 0 <= j < t.len() implies !(!(#[trigger] t[j]).archived && t[j].name@
        == s[i].name@) by {
        if j != i && !t[j].archived && t[j].name@ == s[i].name@ {
            assert(s[j] == t[j]);
            assert(s[j].name@ != s[i].name@);
        }
    }
}

/// Archiving a live template frees its name in the same way.
pub proof fn lemma_archive_frees_template_name(s: Seq<TemplateRow>, i: int)
    requires
        template_names_unique(s),
        0 <= i < s.len(),
        !s[i].archived,
    ensures
        !template_name_taken(s.update(i, TemplateRow { archived: true, ..s[i] }), s[i].name@),
{
    let t = s.update(i, TemplateRow { archived: true, ..s[i] });
    assert forall|j: int| 0 <= j < t.len() implies !(!(#[trigger] t[j]).archived && t[j].name@
        == s[i].name@) by {
        if j != i && !t[j].archived && t[j].name@ == s[i].name@ {
            assert(s[j] == t[j]);
            assert(s[j].name@ != s[i].name@);
        }
    }
}

/// Some set of the session exercise attains the maximum number.
pub proof fn lemma_max_set_number_achieved(s: Seq<WorkoutSet>, seid: i64)
    requires
        max_set_number_opt(s, seid) is Some,
    ensures
        exists|j: int|
            0 <= j < s.len() && (#[trigger] s[j]).session_exercise_id == seid && s[j].set_number
                as int == max_set_number_opt(s, seid)->0,
    decreases s.len(),
{
    let t = s.drop_last();
    let y = s.last();
    let m = max_set_number_opt(s, seid)->0;
    if y.session_exercise_id == seid && y.set_number as int == m {
        assert(s[s.len() - 1].session_exercise_id == seid && s[s.len() - 1].set_number as int
            == m);
    } else {
        lemma_max_set_number_achieved(t, seid);
        let j = choose|j: int|
            0 <= j < t.len() && (#[trigger] t[j]).session_exercise_id == seid && t[j].set_number
                as int == max_set_number_opt(t, seid)->0;
        assert(s[j].session_exercise_id == seid && s[j].set_number as int == m);
    }
}

/// Deleting a set whose number lies below the current maximum leaves the
/// number the next set receives unchanged: set numbers of deleted sets
/// are never reused. (Deleting the highest-numbered set itself does free
/// its number: max(existing)+1 then assigns it again.)
pub proof fn lemma_set_numbers_not_reused(s: Seq<WorkoutSet>, seid: i64, del: i64)
    requires
        max_set_number_opt(s, seid) is Some,
        forall|j: int|
            0 <= j < s.len() && (#[trigger] s[j]).id == del && s[j].session_exercise_id == seid
                ==> (s[j].set_number as int) < max_set_number_opt(s, seid)->0,
    ensures
        next_set_number(s.filter(|st: WorkoutSet| st.id != del), seid) == next_set_number(s, seid),
{
    let pred = |st: WorkoutSet| st.id != del;
    let f = s.filter(pred);
    let m = max_set_number_opt(s, seid)->0;
    crate::sessions::lemma_max_set_number(s, seid);
    crate::sessions::lemma_max_set_number(f, seid);
    // The maximum's holder survives the deletion.
    lemma_max_set_number_achieved(s, seid);
    let j = choose|j: int|
        0 <= j < s.len() && (#[trigger] s[j]).session_exercise_id == seid && s[j].set_number as int
            == m;
    assert(s[j].id != del);
    s.lemma_filter_contains(pred, j);
    assert(f.contains(s[j]));
    let k = choose|k: int| 0 <= k < f.len() && f[k] == s[j];
    assert(max_set_number_opt(f, seid) is Some && s[j].set_number as int <= max_set_number_opt(
        f,
        seid,
    )->0);
    // Every surviving set is one of the original sets, so the new
    // maximum does not exceed the old one.
    lemma_max_set_number_achieved(f, seid);
    let w = choose|w: int|
        0 <= w < f.len() && (#[trigger] f[w]).session_exercise_id == seid && f[w].set_number as int
            == max_set_number_opt(f, seid)->0;
    s.lemma_filter_contains_rev(pred, f[w]);
    let orig = choose|o: int| 0 <= o < s.len() && s[o] == f[w];
    assert(s[orig].set_number as int <= m);
    assert(max_set_number_opt(f, seid)->0 == m);
}

} // verus!
