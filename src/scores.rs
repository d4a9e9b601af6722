//! Score tables: recording the best score per name, and ordering results.
use vstd::prelude::*;

verus! {

/// Whether no two entries of a score table share a name.
pub open spec fn names_unique(v: Seq<(String, i32)>) -> bool {
    forall|i: int, j: int| 0 <= i < v.len() && 0 <= j < v.len() && i != j ==> v[i].0@ != v[j].0@
}

/// Whether some entry of the table is for `name`.
pub open spec fn has_name(v: Seq<(String, i32)>, name: Seq<char>) -> bool {
    exists|i: int| 0 <= i < v.len() && v[i].0@ == name
}

/// The table as a map from names to scores.
pub open spec fn table(v: Seq<(String, i32)>) -> Map<Seq<char>, i32> {
    Map::new(
        |k: Seq<char>| has_name(v, k),
        |k: Seq<char>| v[choose|i: int| 0 <= i < v.len() && v[i].0@ == k].1,
    )
}

/// The best score stored for `name`; zero where there is none.
pub open spec fn stored(h: Map<Seq<char>, i32>, name: Seq<char>) -> i32 {
    if h.contains_key(name) {
        h[name]
    } else {
        0
    }
}

/// The table after a new score: kept where it beats the stored one.
pub open spec fn recorded(h: Map<Seq<char>, i32>, name: Seq<char>, score: i32) -> Map<Seq<char>, i32> {
    if stored(h, name) < score {
        h.insert(name, score)
    } else {
        h
    }
}

/// The table after each score of `s` in turn.
pub open spec fn recorded_all(h: Map<Seq<char>, i32>, s: Seq<(String, i32)>) -> Map<Seq<char>, i32>
    decreases s.len(),
{
    if s.len() == 0 {
        h
    } else {
        recorded(recorded_all(h, s.drop_last()), s.last().0@, s.last().1)
    }
}

proof fn lemma_table_at(v: Seq<(String, i32)>, i: int)
    requires
        names_unique(v),
        0 <= i < v.len(),
    ensures
        table(v).contains_key(v[i].0@),
        table(v)[v[i].0@] == v[i].1,
{
    let k = v[i].0@;
    assert(has_name(v, k));
    let c = choose|j: int| 0 <= j < v.len() && v[j].0@ == k;
    assert(c == i);
}

/// Index of the entry for `name`, if any.
pub fn find_name(v: &Vec<(String, i32)>, name: &String) -> (r: Option<usize>)
    ensures
        r matches Some(i) ==> i < v@.len() && v@[i as int].0@ == name@,
        r is None ==> !has_name(v@, name@),
{
    let mut i: usize = 0;
    while i < v.len()
        invariant
            i <= v@.len(),
            forall|j: int| 0 <= j < i ==> v@[j].0@ != name@,
        decreases v@.len() - i,
    {
        if v[i].0 == *name {
            return Some(i);
        }
        i = i + 1;
    }
    None
}

/// Records `score` for `name` where it beats the stored best (zero for a
/// name with none).
pub fn record_score(h: &mut Vec<(String, i32)>, name: &String, score: i32)
    requires
        names_unique(old(h)@),
    ensures
        names_unique(final(h)@),
        table(final(h)@) == recorded(table(old(h)@), name@, score),
{
    let ghost before = h@;
    match find_name(h, name) {
        Some(i) => {
            proof {
                lemma_table_at(before, i as int);
            }
            if h[i].1 < score {
                h.set(i, (name.clone(), score));
                proof {
                    assert forall|a: int, b: int| 0 <= a < h@.len() && 0 <= b < h@.len() && a != b
                        implies h@[a].0@ != h@[b].0@ by {
                        if a != i && b != i {
                            assert(before[a].0@ != before[b].0@);
                        } else if a == i {
                            assert(before[i as int].0@ != before[b].0@);
                        } else {
                            assert(before[a].0@ != before[i as int].0@);
                        }
                    }
                    assert forall|k: Seq<char>| #[trigger] has_name(h@, k) == has_name(before, k) by {
                        if has_name(before, k) {
                            let j = choose|j: int| 0 <= j < before.len() && before[j].0@ == k;
                            assert(h@[j].0@ == k);
                        }
                        if has_name(h@, k) {
                            let j = choose|j: int| 0 <= j < h@.len() && h@[j].0@ == k;
                            assert(before[j].0@ == k);
                        }
                    }
                    assert forall|k: Seq<char>| has_name(h@, k) implies #[trigger] table(h@)[k]
                        == recorded(table(before), name@, score)[k] by {
                        let j = choose|j: int| 0 <= j < h@.len() && h@[j].0@ == k;
                        lemma_table_at(h@, j);
                        lemma_table_at(before, j);
                    }
                    assert(table(h@) =~= recorded(table(before), name@, score));
                }
            } else {
                assert(table(h@) =~= recorded(table(before), name@, score));
            }
        },
        None => {
            if 0 < score {
                h.push((name.clone(), score));
                proof {
                    assert forall|a: int, b: int| 0 <= a < h@.len() && 0 <= b < h@.len() && a != b
                        implies h@[a].0@ != h@[b].0@ by {
                        if a < before.len() && b < before.len() {
                            assert(before[a].0@ != before[b].0@);
                        } else if a < before.len() {
                            assert(h@[a] == before[a]);
                        } else {
                            assert(h@[b] == before[b]);
                        }
                    }
                    assert forall|k: Seq<char>| #[trigger] has_name(h@, k) == (has_name(before, k) || k == name@) by {
                        if has_name(before, k) {
                            let j = choose|j: int| 0 <= j < before.len() && before[j].0@ == k;
                            assert(h@[j].0@ == k);
                        }
                        if k == name@ {
                            assert(h@[before.len() as int].0@ == k);
                        }
                        if has_name(h@, k) {
                            let j = choose|j: int| 0 <= j < h@.len() && h@[j].0@ == k;
                            if j < before.len() {
                                assert(before[j].0@ == k);
                            }
                        }
                    }
                    assert forall|k: Seq<char>| has_name(h@, k) implies #[trigger] table(h@)[k]
                        == recorded(table(before), name@, score)[k] by {
                        let j = choose|j: int| 0 <= j < h@.len() && h@[j].0@ == k;
                        lemma_table_at(h@, j);
                        if j < before.len() {
                            lemma_table_at(before, j);
                            assert(h@[j] == before[j]);
                        }
                    }
                    assert(table(h@) =~= recorded(table(before), name@, score));
                }
            } else {
                assert(table(h@) =~= recorded(table(before), name@, score));
            }
        },
    }
}

/// Records each score of `s` in turn: see `record_score`.
pub fn record_scores(h: &mut Vec<(String, i32)>, s: &Vec<(String, i32)>)
    requires
        names_unique(old(h)@),
    ensures
        names_unique(final(h)@),
        table(final(h)@) == recorded_all(table(old(h)@), s@),
{
    let ghost start = table(h@);
    let mut i: usize = 0;
    while i < s.len()
        invariant
            i <= s@.len(),
            names_unique(h@),
            table(h@) == recorded_all(start, s@.subrange(0, i as int)),
        decreases s@.len() - i,
    {
        record_score(h, &s[i].0, s[i].1);
        proof {
            let w = s@.subrange(0, i + 1);
            assert(w.drop_last() =~= s@.subrange(0, i as int));
        }
        i = i + 1;
    }
    assert(s@.subrange(0, s@.len() as int) =~= s@);
}

/// Whether the entries are by decreasing score.
pub open spec fn by_score_desc(v: Seq<(String, i32)>) -> bool {
    forall|i: int, j: int| 0 <= i < j < v.len() ==> v[i].1 >= v[j].1
}

/// The entries of `s` by decreasing score.
pub fn sort_by_score_desc(s: Vec<(String, i32)>) -> (r: Vec<(String, i32)>)
    ensures
        by_score_desc(r@),
        r@.to_multiset() == s@.to_multiset(),
{
    let ghost all = s@;
    let mut s = s;
    let mut out: Vec<(String, i32)> = Vec::new();
    proof {
        assert(s@.to_multiset().add(out@.to_multiset()) =~= all.to_multiset()) by {
            broadcast use vstd::multiset::group_multiset_axioms;
            assert(out@ =~= Seq::<(String, i32)>::empty());
            vstd::seq_lib::to_multiset_len(out@);
        }
    }
    while s.len() > 0
        invariant
            by_score_desc(out@),
            s@.to_multiset().add(out@.to_multiset()) == all.to_multiset(),
        decreases s@.len(),
    {
        let ghost before_s = s@;
        let ghost before_out = out@;
        let e = s.pop().unwrap();
        let mut idx: usize = 0;
        while idx < out.len() && out[idx].1 > e.1
            invariant
                idx <= out@.len(),
                forall|k: int| 0 <= k < idx ==> (#[trigger] out@[k]).1 > e.1,
            decreases out@.len() - idx,
        {
            idx = idx + 1;
        }
        out.insert(idx, e);
        proof {
            assert forall|a: int, b: int| 0 <= a < b < out@.len() implies out@[a].1 >= out@[b].1 by {
                if idx < before_out.len() {
                    assert(before_out[idx as int].1 <= e.1);
                }
                if a < idx && b > idx {
                    assert(before_out[a].1 >= before_out[b - 1].1);
                }
            }
            assert(before_s =~= s@.push(e));
            vstd::seq_lib::to_multiset_build(s@, e);
            vstd::seq_lib::to_multiset_insert(before_out, idx as int, e);
            broadcast use vstd::multiset::group_multiset_axioms;
            assert(s@.to_multiset().add(out@.to_multiset()) =~= all.to_multiset());
        }
    }
    proof {
        assert(s@ =~= Seq::<(String, i32)>::empty());
        vstd::seq_lib::to_multiset_len(s@);
        broadcast use vstd::multiset::group_multiset_axioms;
        assert(out@.to_multiset() =~= all.to_multiset());
    }
    out
}

/// A new score replaces the stored best of its name exactly when it is
/// higher (a name without one counts as zero); a lower or equal score
/// changes nothing, and other names keep theirs.
pub proof fn law_record_keeps_best(h: Map<Seq<char>, i32>, name: Seq<char>, score: i32)
    ensures
        stored(h, name) < score ==> recorded(h, name, score).contains_key(name) && recorded(h, name, score)[name] == score,
        score <= stored(h, name) ==> recorded(h, name, score) == h,
        forall|k: Seq<char>| k != name ==> stored(#[trigger] recorded(h, name, score), k) == stored(h, k),
{
}

/// After a list of scores is recorded, each name's stored best is the
/// largest of its best before and its scores in the list: at least each of
/// them, and equal to one of them. A name without scores in the list keeps
/// its best.
pub proof fn law_recorded_all_best(h: Map<Seq<char>, i32>, s: Seq<(String, i32)>, name: Seq<char>)
    ensures
        stored(recorded_all(h, s), name) >= stored(h, name),
        forall|i: int| 0 <= i < s.len() && (#[trigger] s[i]).0@ == name ==> stored(recorded_all(h, s), name) >= s[i].1,
        stored(recorded_all(h, s), name) == stored(h, name) || exists|i: int|
            0 <= i < s.len() && (#[trigger] s[i]).0@ == name && stored(recorded_all(h, s), name) == s[i].1,
    decreases s.len(),
{
    if s.len() > 0 {
        let init = s.drop_last();
        law_recorded_all_best(h, init, name);
        let prev = recorded_all(h, init);
        let last = s.last();
        law_record_keeps_best(prev, last.0@, last.1);
        assert forall|i: int| 0 <= i < init.len() implies #[trigger] s[i] == init[i] by {}
        if last.0@ == name {
            if stored(prev, name) < last.1 {
                assert(stored(recorded_all(h, s), name) == last.1);
            }
        } else {
            assert(stored(recorded_all(h, s), name) == stored(prev, name));
        }
        if stored(recorded_all(h, s), name) != stored(h, name) && stored(recorded_all(h, s), name) != last.1 {
            let j = choose|j: int| 0 <= j < init.len() && (#[trigger] init[j]).0@ == name && stored(prev, name) == init[j].1;
            assert(s[j] == init[j]);
        }
    }
}

} // verus!
