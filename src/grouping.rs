//! Grouped views over classified records: by toneless pinyin, by tone within
//! one pinyin, and by onset.

use crate::analysis::{onset_for, onset_of};
use crate::text::{
    lemma_text_lt_irreflexive, lemma_text_lt_total, lemma_text_lt_transitive, same_text, text_less,
    text_lt,
};
use crate::types::{HanziOnset, HanziRecord};
use vstd::multiset::Multiset;
use vstd::prelude::*;

verus! {

/// A toneless pinyin with the characters read that way.
pub type PinyinGroup = (String, Vec<String>);

/// A tone, the toned pinyin shown for it, and the characters read that way.
pub type ToneGroup = (u32, String, Vec<String>);

/// An onset and the number of records that have it.
pub type OnsetCount = (HanziOnset, u32);

/// The texts held by a list of strings.
pub open spec fn texts(v: Seq<String>) -> Seq<Seq<char>> {
    v.map_values(|s: String| s@)
}

/// The script form of a record that a grouping shows.
pub open spec fn form_of(r: HanziRecord, use_traditional: bool) -> Seq<char> {
    if use_traditional {
        r.traditional@
    } else {
        r.simplified@
    }
}

/// The forms of the records whose toneless pinyin is `key`, in input order.
pub open spec fn forms_with_pinyin(
    recs: Seq<HanziRecord>,
    key: Seq<char>,
    use_traditional: bool,
) -> Seq<Seq<char>>
    decreases recs.len(),
{
    if recs.len() == 0 {
        Seq::empty()
    } else {
        let earlier = forms_with_pinyin(recs.drop_last(), key, use_traditional);
        if recs.last().pinyin_without_tone@ == key {
            earlier.push(form_of(recs.last(), use_traditional))
        } else {
            earlier
        }
    }
}

/// `g` groups `recs` by toneless pinyin: one group per distinct pinyin that
/// occurs, each with the forms of its records in input order.
pub open spec fn is_pinyin_grouping(
    recs: Seq<HanziRecord>,
    use_traditional: bool,
    g: Seq<PinyinGroup>,
) -> bool {
    &&& forall|i: int|
        0 <= i < g.len() ==> texts((#[trigger] g[i]).1@) == forms_with_pinyin(
            recs,
            g[i].0@,
            use_traditional,
        ) && g[i].1@.len() > 0
    &&& forall|k: int|
        0 <= k < recs.len() ==> has_pinyin_group(g, (#[trigger] recs[k]).pinyin_without_tone@)
    &&& forall|i: int, j: int| 0 <= i < j < g.len() ==> g[i].0@ != g[j].0@
}

/// Some group of `g` is keyed `key`.
pub open spec fn has_pinyin_group(g: Seq<PinyinGroup>, key: Seq<char>) -> bool {
    exists|i: int| 0 <= i < g.len() && g[i].0@ == key
}

/// Pinyin group `a` is listed before `b`: more characters first, then the
/// pinyin in ascending text order.
pub open spec fn pinyin_group_before(a: PinyinGroup, b: PinyinGroup) -> bool {
    a.1@.len() > b.1@.len() || (a.1@.len() == b.1@.len() && text_lt(a.0@, b.0@))
}

/// No record carries `key`, so no form is grouped under it.
proof fn lemma_no_forms(recs: Seq<HanziRecord>, key: Seq<char>, use_traditional: bool)
    requires
        forall|k: int| 0 <= k < recs.len() ==> (#[trigger] recs[k]).pinyin_without_tone@ != key,
    ensures
        forms_with_pinyin(recs, key, use_traditional) == Seq::<Seq<char>>::empty(),
    decreases recs.len(),
{
    if recs.len() > 0 {
        let init = recs.drop_last();
        assert forall|k: int| 0 <= k < init.len() implies (#[trigger] init[k]).pinyin_without_tone@
            != key by {
            assert(init[k] == recs[k]);
        }
        lemma_no_forms(init, key, use_traditional);
        assert(recs.last() == recs[recs.len() - 1]);
    }
}

/// The position of the group keyed `key`, or `groups.len()` when there is none.
fn find_pinyin_group(groups: &Vec<PinyinGroup>, key: &String) -> (j: usize)
    ensures
        j <= groups@.len(),
        j < groups@.len() ==> groups@[j as int].0@ == key@,
        j == groups@.len() ==> forall|i: int| 0 <= i < groups@.len() ==> groups@[i].0@ != key@,
{
    let mut j: usize = 0;
    while j < groups.len()
        invariant
            j <= groups@.len(),
            forall|i: int| 0 <= i < j ==> groups@[i].0@ != key@,
        decreases groups@.len() - j,
    {
        if same_text(groups[j].0.as_str(), key.as_str()) {
            return j;
        }
        j = j + 1;
    }
    j
}

/// Groups the records by toneless pinyin, in order of first appearance.
fn collect_pinyin_groups(records: &[HanziRecord], use_traditional: bool) -> (g: Vec<
    PinyinGroup,
>)
    ensures
        is_pinyin_grouping(records@, use_traditional, g@),
{
    let mut groups: Vec<PinyinGroup> = Vec::new();
    let mut i: usize = 0;
    while i < records.len()
        invariant
            i <= records@.len(),
            is_pinyin_grouping(records@.take(i as int), use_traditional, groups@),
        decreases records@.len() - i,
    {
        let rec = &records[i];
        let form = if use_traditional {
            rec.traditional.clone()
        } else {
            rec.simplified.clone()
        };
        let ghost seen = records@.take(i as int);
        let ghost now = records@.take(i + 1);
        let ghost old_groups = groups@;
        assert(now.drop_last() =~= seen);
        assert(now.last() == *rec);
        assert(forall|k: int| 0 <= k < i ==> now[k] == seen[k]);
        let j = find_pinyin_group(&groups, &rec.pinyin_without_tone);
        if j < groups.len() {
            groups[j].1.push(form);
            assert(texts(groups@[j as int].1@) =~= texts(old_groups[j as int].1@).push(form@));
        } else {
            proof {
                lemma_no_forms(seen, rec.pinyin_without_tone@, use_traditional);
            }
            let mut forms: Vec<String> = Vec::new();
            forms.push(form);
            assert(texts(forms@) =~= seq![form@]);
            groups.push((rec.pinyin_without_tone.clone(), forms));
        }
        assert forall|k: int| 0 <= k < now.len() implies has_pinyin_group(
            groups@,
            (#[trigger] now[k]).pinyin_without_tone@,
        ) by {
            if k < i {
                let x = choose|x: int|
                    0 <= x < old_groups.len() && old_groups[x].0@ == seen[k].pinyin_without_tone@;
                assert(groups@[x].0@ == old_groups[x].0@);
            } else {
                assert(groups@[j as int].0@ == now[k].pinyin_without_tone@);
            }
        }
        i = i + 1;
    }
    assert(records@.take(records@.len() as int) =~= records@);
    groups
}

/// Two lists with the same multiset of items hold the same items.
proof fn lemma_same_items<T>(a: Seq<T>, b: Seq<T>, x: T)
    requires
        a.to_multiset() == b.to_multiset(),
    ensures
        a.contains(x) <==> b.contains(x),
{
    broadcast use vstd::seq_lib::group_to_multiset_ensures;

    assert(a.contains(x) <==> a.to_multiset().count(x) > 0);
    assert(b.contains(x) <==> b.to_multiset().count(x) > 0);
}

/// A rearrangement of a list without repeated items has none either.
proof fn lemma_no_duplicates_kept<T>(a: Seq<T>, b: Seq<T>)
    requires
        a.to_multiset() == b.to_multiset(),
        b.no_duplicates(),
    ensures
        a.no_duplicates(),
{
    b.lemma_multiset_has_no_duplicates();
    a.lemma_multiset_has_no_duplicates_conv();
}

/// Taking one item out of a list and adding it to another keeps the
/// multiset of both together.
proof fn lemma_move_item<T>(out: Seq<T>, rest: Seq<T>, b: int)
    requires
        0 <= b < rest.len(),
    ensures
        out.push(rest[b]).to_multiset().add(rest.remove(b).to_multiset()) =~= out.to_multiset().add(
            rest.to_multiset(),
        ),
{
    broadcast use vstd::seq_lib::group_to_multiset_ensures;

    assert(rest.to_multiset().count(rest[b]) > 0) by {
        assert(rest.contains(rest[b]));
    }
}

/// Pinyin group order is transitive.
proof fn lemma_pinyin_before_transitive(
    a: PinyinGroup,
    b: PinyinGroup,
    c: PinyinGroup,
)
    requires
        pinyin_group_before(a, b),
        pinyin_group_before(b, c),
    ensures
        pinyin_group_before(a, c),
{
    if a.1@.len() == b.1@.len() && b.1@.len() == c.1@.len() {
        lemma_text_lt_transitive(a.0@, b.0@, c.0@);
    }
}

/// Of two groups with different pinyin, one comes before the other; no group
/// comes before itself.
proof fn lemma_pinyin_before_total(a: PinyinGroup, b: PinyinGroup)
    ensures
        a.0@ != b.0@ ==> pinyin_group_before(a, b) || pinyin_group_before(b, a),
        !pinyin_group_before(a, a),
{
    lemma_text_lt_irreflexive(a.0@);
    if a.0@ != b.0@ {
        lemma_text_lt_total(a.0@, b.0@);
    }
}

/// Whether pinyin group `a` is listed before `b`.
fn pinyin_group_first(a: &PinyinGroup, b: &PinyinGroup) -> (r: bool)
    ensures
        r == pinyin_group_before(*a, *b),
{
    a.1.len() > b.1.len() || (a.1.len() == b.1.len() && text_less(a.0.as_str(), b.0.as_str()))
}

/// The position of the group that comes before all others.
fn first_pinyin_group(groups: &Vec<PinyinGroup>) -> (b: usize)
    requires
        groups@.len() > 0,
        forall|i: int, j: int| 0 <= i < j < groups@.len() ==> groups@[i].0@ != groups@[j].0@,
    ensures
        b < groups@.len(),
        forall|k: int|
            0 <= k < groups@.len() && k != b ==> pinyin_group_before(groups@[b as int], groups@[k]),
{
    let mut b: usize = 0;
    let mut i: usize = 1;
    while i < groups.len()
        invariant
            1 <= i <= groups@.len(),
            b < i,
            forall|i: int, j: int| 0 <= i < j < groups@.len() ==> groups@[i].0@ != groups@[j].0@,
            forall|k: int|
                0 <= k < i && k != b ==> pinyin_group_before(groups@[b as int], groups@[k]),
        decreases groups@.len() - i,
    {
        if pinyin_group_first(&groups[i], &groups[b]) {
            proof {
                assert forall|k: int| 0 <= k < i + 1 && k != i implies pinyin_group_before(
                    groups@[i as int],
                    groups@[k],
                ) by {
                    if k != b {
                        lemma_pinyin_before_transitive(groups@[i as int], groups@[b as int], groups@[k]);
                    }
                }
            }
            b = i;
        } else {
            proof {
                lemma_pinyin_before_total(groups@[b as int], groups@[i as int]);
            }
        }
        i = i + 1;
    }
    b
}

/// Puts pinyin groups in listing order by repeatedly taking the group that
/// comes first among those left.
fn sort_pinyin_groups(groups: Vec<PinyinGroup>) -> (r: Vec<PinyinGroup>)
    requires
        forall|i: int, j: int| 0 <= i < j < groups@.len() ==> groups@[i].0@ != groups@[j].0@,
    ensures
        r@.to_multiset() == groups@.to_multiset(),
        forall|i: int, j: int| 0 <= i < j < r@.len() ==> pinyin_group_before(r@[i], r@[j]),
{
    let ghost all = groups@;
    let mut rest = groups;
    let mut out: Vec<PinyinGroup> = Vec::new();
    proof {
        broadcast use vstd::seq_lib::group_to_multiset_ensures;
        assert(out@.to_multiset().add(rest@.to_multiset()) =~= all.to_multiset());
    }
    while rest.len() > 0
        invariant
            out@.to_multiset().add(rest@.to_multiset()) == all.to_multiset(),
            forall|i: int, j: int| 0 <= i < j < rest@.len() ==> rest@[i].0@ != rest@[j].0@,
            forall|i: int, j: int| 0 <= i < j < out@.len() ==> pinyin_group_before(out@[i], out@[j]),
            forall|i: int, j: int|
                0 <= i < out@.len() && 0 <= j < rest@.len() ==> pinyin_group_before(out@[i], rest@[j]),
        decreases rest@.len(),
    {
        let b = first_pinyin_group(&rest);
        let ghost before_rest = rest@;
        let ghost before_out = out@;
        proof {
            lemma_move_item(before_out, before_rest, b as int);
        }
        let g = rest.remove(b);
        out.push(g);
        assert forall|i: int, j: int| 0 <= i < j < rest@.len() implies rest@[i].0@ != rest@[j].0@ by {
            let i2 = if i < b { i } else { i + 1 };
            let j2 = if j < b { j } else { j + 1 };
            assert(rest@[i] == before_rest[i2]);
            assert(rest@[j] == before_rest[j2]);
        }
        assert forall|i: int, j: int|
            0 <= i < out@.len() && 0 <= j < rest@.len() implies pinyin_group_before(
            out@[i],
            rest@[j],
        ) by {
            let j2 = if j < b { j } else { j + 1 };
            assert(rest@[j] == before_rest[j2]);
            if i < before_out.len() {
                assert(out@[i] == before_out[i]);
            }
        }
        assert forall|i: int, j: int| 0 <= i < j < out@.len() implies pinyin_group_before(
            out@[i],
            out@[j],
        ) by {
            assert(out@[i] == before_out[i]);
            if j < before_out.len() {
                assert(out@[j] == before_out[j]);
            }
        }
    }
    proof {
        broadcast use vstd::seq_lib::group_to_multiset_ensures;
        assert(rest@.to_multiset() =~= Multiset::empty());
        assert(out@.to_multiset().add(Multiset::empty()) =~= out@.to_multiset());
    }
    out
}

/// Groups records by toneless pinyin, showing the traditional or the
/// simplified form. Groups with more characters come first, ties in ascending
/// text order of the pinyin; within a group the characters keep input order.
pub fn group_by_pinyin(records: &[HanziRecord], use_traditional: bool) -> (r: Vec<
    PinyinGroup,
>)
    ensures
        is_pinyin_grouping(records@, use_traditional, r@),
        forall|i: int, j: int| 0 <= i < j < r@.len() ==> pinyin_group_before(r@[i], r@[j]),
{
    let groups = collect_pinyin_groups(records, use_traditional);
    let r = sort_pinyin_groups(groups);
    proof {
        assert forall|i: int| 0 <= i < r@.len() implies groups@.contains(#[trigger] r@[i]) by {
            lemma_same_items(r@, groups@, r@[i]);
            assert(r@.contains(r@[i]));
        }
        assert forall|i: int| 0 <= i < r@.len() implies texts((#[trigger] r@[i]).1@)
            == forms_with_pinyin(records@, r@[i].0@, use_traditional) && r@[i].1@.len() > 0 by {
            assert(groups@.contains(r@[i]));
            let x = choose|x: int| 0 <= x < groups@.len() && groups@[x] == r@[i];
            assert(groups@[x] == r@[i]);
        }
        assert forall|k: int| 0 <= k < records@.len() implies has_pinyin_group(
            r@,
            (#[trigger] records@[k]).pinyin_without_tone@,
        ) by {
            let x = choose|x: int|
                0 <= x < groups@.len() && groups@[x].0@ == records@[k].pinyin_without_tone@;
            lemma_same_items(r@, groups@, groups@[x]);
            assert(groups@.contains(groups@[x]));
            let i = choose|i: int| 0 <= i < r@.len() && r@[i] == groups@[x];
            assert(r@[i].0@ == records@[k].pinyin_without_tone@);
        }
        assert forall|i: int, j: int| 0 <= i < j < r@.len() implies r@[i].0@ != r@[j].0@ by {
            lemma_pinyin_before_total(r@[i], r@[j]);
            if r@[i].0@ == r@[j].0@ {
                let x = choose|x: int| 0 <= x < groups@.len() && groups@[x] == r@[i];
                let y = choose|y: int| 0 <= y < groups@.len() && groups@[y] == r@[j];
                if x != y {
                    if x < y {
                        assert(groups@[x].0@ != groups@[y].0@);
                    } else {
                        assert(groups@[y].0@ != groups@[x].0@);
                    }
                }
            }
        }
    }
    r
}

/// Record `r` has toneless pinyin `target` and tone `tone`.
pub open spec fn tone_match(r: HanziRecord, target: Seq<char>, tone: u32) -> bool {
    r.pinyin_without_tone@ == target && r.tone == tone
}

/// The forms of the records with toneless pinyin `target` and tone `tone`, in
/// input order.
pub open spec fn forms_with_tone(
    recs: Seq<HanziRecord>,
    target: Seq<char>,
    tone: u32,
    use_traditional: bool,
) -> Seq<Seq<char>>
    decreases recs.len(),
{
    if recs.len() == 0 {
        Seq::empty()
    } else {
        let earlier = forms_with_tone(recs.drop_last(), target, tone, use_traditional);
        if tone_match(recs.last(), target, tone) {
            earlier.push(form_of(recs.last(), use_traditional))
        } else {
            earlier
        }
    }
}

/// Record `k` is the first with toneless pinyin `target` and tone `tone`.
pub open spec fn is_first_match(recs: Seq<HanziRecord>, target: Seq<char>, tone: u32, k: int) -> bool {
    &&& 0 <= k < recs.len()
    &&& tone_match(recs[k], target, tone)
    &&& forall|m: int| 0 <= m < k ==> !tone_match(#[trigger] recs[m], target, tone)
}

/// `p` is the toned pinyin of the first record with toneless pinyin `target`
/// and tone `tone`.
pub open spec fn first_toned_pinyin(
    recs: Seq<HanziRecord>,
    target: Seq<char>,
    tone: u32,
    p: Seq<char>,
) -> bool {
    exists|k: int| is_first_match(recs, target, tone, k) && recs[k].pinyin@ == p
}

/// Some group of `g` is for tone `tone`.
pub open spec fn has_tone_group(g: Seq<ToneGroup>, tone: u32) -> bool {
    exists|i: int| 0 <= i < g.len() && g[i].0 == tone
}

/// `g` groups the records of `recs` with toneless pinyin `target` by tone:
/// one group per tone that occurs, each with the toned pinyin of its first
/// record and the forms of its records in input order.
pub open spec fn is_tone_grouping(
    recs: Seq<HanziRecord>,
    target: Seq<char>,
    use_traditional: bool,
    g: Seq<ToneGroup>,
) -> bool {
    &&& forall|i: int|
        0 <= i < g.len() ==> texts((#[trigger] g[i]).2@) == forms_with_tone(
            recs,
            target,
            g[i].0,
            use_traditional,
        ) && g[i].2@.len() > 0
    &&& forall|i: int|
        0 <= i < g.len() ==> first_toned_pinyin(recs, target, (#[trigger] g[i]).0, g[i].1@)
    &&& forall|k: int|
        0 <= k < recs.len() && (#[trigger] recs[k]).pinyin_without_tone@ == target
            ==> has_tone_group(g, recs[k].tone)
    &&& forall|i: int, j: int| 0 <= i < j < g.len() ==> g[i].0 != g[j].0
}

/// No record has pinyin `target` and tone `tone`, so no form is grouped there.
proof fn lemma_no_tone_forms(
    recs: Seq<HanziRecord>,
    target: Seq<char>,
    tone: u32,
    use_traditional: bool,
)
    requires
        forall|k: int| 0 <= k < recs.len() ==> !tone_match(#[trigger] recs[k], target, tone),
    ensures
        forms_with_tone(recs, target, tone, use_traditional) == Seq::<Seq<char>>::empty(),
    decreases recs.len(),
{
    if recs.len() > 0 {
        let init = recs.drop_last();
        assert forall|k: int| 0 <= k < init.len() implies !tone_match(
            #[trigger] init[k],
            target,
            tone,
        ) by {
            assert(init[k] == recs[k]);
        }
        lemma_no_tone_forms(init, target, tone, use_traditional);
        assert(recs.last() == recs[recs.len() - 1]);
    }
}

/// The position of the group for `tone`, or `groups.len()` when there is none.
fn find_tone_group(groups: &Vec<ToneGroup>, tone: u32) -> (j: usize)
    ensures
        j <= groups@.len(),
        j < groups@.len() ==> groups@[j as int].0 == tone,
        j == groups@.len() ==> forall|i: int| 0 <= i < groups@.len() ==> groups@[i].0 != tone,
{
    let mut j: usize = 0;
    while j < groups.len()
        invariant
            j <= groups@.len(),
            forall|i: int| 0 <= i < j ==> groups@[i].0 != tone,
        decreases groups@.len() - j,
    {
        if groups[j].0 == tone {
            return j;
        }
        j = j + 1;
    }
    j
}

/// Groups the records with toneless pinyin `target` by tone, in order of
/// first appearance.
fn collect_tone_groups(
    records: &[HanziRecord],
    target: &str,
    use_traditional: bool,
) -> (g: Vec<ToneGroup>)
    ensures
        is_tone_grouping(records@, target@, use_traditional, g@),
{
    let mut groups: Vec<ToneGroup> = Vec::new();
    let mut i: usize = 0;
    while i < records.len()
        invariant
            i <= records@.len(),
            is_tone_grouping(records@.take(i as int), target@, use_traditional, groups@),
        decreases records@.len() - i,
    {
        let rec = &records[i];
        let ghost seen = records@.take(i as int);
        let ghost now = records@.take(i + 1);
        let ghost old_groups = groups@;
        assert(now.drop_last() =~= seen);
        assert(now.last() == *rec);
        assert(forall|k: int| 0 <= k < i ==> now[k] == seen[k]);
        if same_text(rec.pinyin_without_tone.as_str(), target) {
            let form = if use_traditional {
                rec.traditional.clone()
            } else {
                rec.simplified.clone()
            };
            let j = find_tone_group(&groups, rec.tone);
            if j < groups.len() {
                groups[j].2.push(form);
                assert(texts(groups@[j as int].2@) =~= texts(old_groups[j as int].2@).push(form@));
                assert(groups@[j as int].0 == rec.tone);
            } else {
                proof {
                    assert forall|k: int| 0 <= k < seen.len() implies !tone_match(
                        #[trigger] seen[k],
                        target@,
                        rec.tone,
                    ) by {
                        if tone_match(seen[k], target@, rec.tone) {
                            assert(has_tone_group(old_groups, seen[k].tone));
                        }
                    }
                    lemma_no_tone_forms(seen, target@, rec.tone, use_traditional);
                    assert(is_first_match(now, target@, rec.tone, i as int));
                }
                let mut forms: Vec<String> = Vec::new();
                forms.push(form);
                assert(texts(forms@) =~= seq![form@]);
                groups.push((rec.tone, rec.pinyin.clone(), forms));
                assert(groups@[groups@.len() - 1].0 == rec.tone);
            }
            assert(has_tone_group(groups@, rec.tone));
        }
        assert forall|x: int| 0 <= x < groups@.len() implies texts((#[trigger] groups@[x]).2@)
            == forms_with_tone(now, target@, groups@[x].0, use_traditional) && groups@[x].2@.len()
            > 0 by {
            let t = groups@[x].0;
            if x < old_groups.len() {
                assert(t == old_groups[x].0);
                assert(texts(old_groups[x].2@) == forms_with_tone(
                    seen,
                    target@,
                    t,
                    use_traditional,
                ));
            }
        }
        assert forall|x: int, y: int| 0 <= x < y < groups@.len() implies groups@[x].0
            != groups@[y].0 by {
            if y < old_groups.len() {
                assert(groups@[x].0 == old_groups[x].0);
                assert(groups@[y].0 == old_groups[y].0);
            } else {
                assert(groups@[x].0 == old_groups[x].0);
            }
        }
        assert forall|x: int| 0 <= x < groups@.len() implies first_toned_pinyin(
            now,
            target@,
            (#[trigger] groups@[x]).0,
            groups@[x].1@,
        ) by {
            if x < old_groups.len() {
                assert(groups@[x].0 == old_groups[x].0);
                assert(groups@[x].1 == old_groups[x].1);
                let k = choose|k: int|
                    is_first_match(seen, target@, old_groups[x].0, k) && seen[k].pinyin@
                        == old_groups[x].1@;
                assert(is_first_match(now, target@, groups@[x].0, k));
            } else {
                assert(is_first_match(now, target@, groups@[x].0, i as int));
            }
        }
        assert forall|k: int|
            0 <= k < now.len() && (#[trigger] now[k]).pinyin_without_tone@ == target@ implies has_tone_group(
            groups@,
            now[k].tone,
        ) by {
            if k < i {
                assert(has_tone_group(old_groups, seen[k].tone));
                let x = choose|x: int| 0 <= x < old_groups.len() && old_groups[x].0 == seen[k].tone;
                assert(groups@[x].0 == old_groups[x].0);
            } else {
                assert(now[k] == *rec);
            }
        }
        i = i + 1;
    }
    assert(records@.take(records@.len() as int) =~= records@);
    groups
}

/// The position of the group with the lowest tone.
fn first_tone_group(groups: &Vec<ToneGroup>) -> (b: usize)
    requires
        groups@.len() > 0,
        forall|i: int, j: int| 0 <= i < j < groups@.len() ==> groups@[i].0 != groups@[j].0,
    ensures
        b < groups@.len(),
        forall|k: int| 0 <= k < groups@.len() && k != b ==> groups@[b as int].0 < groups@[k].0,
{
    let mut b: usize = 0;
    let mut i: usize = 1;
    while i < groups.len()
        invariant
            1 <= i <= groups@.len(),
            b < i,
            forall|i: int, j: int| 0 <= i < j < groups@.len() ==> groups@[i].0 != groups@[j].0,
            forall|k: int| 0 <= k < i && k != b ==> groups@[b as int].0 < groups@[k].0,
        decreases groups@.len() - i,
    {
        if groups[i].0 < groups[b].0 {
            b = i;
        } else {
            assert(groups@[b as int].0 != groups@[i as int].0);
        }
        i = i + 1;
    }
    b
}

/// Puts tone groups in ascending order of tone by repeatedly taking the
/// group with the lowest tone among those left.
fn sort_tone_groups(groups: Vec<ToneGroup>) -> (r: Vec<ToneGroup>)
    requires
        forall|i: int, j: int| 0 <= i < j < groups@.len() ==> groups@[i].0 != groups@[j].0,
    ensures
        r@.to_multiset() == groups@.to_multiset(),
        forall|i: int, j: int| 0 <= i < j < r@.len() ==> r@[i].0 < r@[j].0,
{
    let ghost all = groups@;
    let mut rest = groups;
    let mut out: Vec<ToneGroup> = Vec::new();
    proof {
        broadcast use vstd::seq_lib::group_to_multiset_ensures;

        assert(out@.to_multiset().add(rest@.to_multiset()) =~= all.to_multiset());
    }
    while rest.len() > 0
        invariant
            out@.to_multiset().add(rest@.to_multiset()) == all.to_multiset(),
            forall|i: int, j: int| 0 <= i < j < rest@.len() ==> rest@[i].0 != rest@[j].0,
            forall|i: int, j: int| 0 <= i < j < out@.len() ==> out@[i].0 < out@[j].0,
            forall|i: int, j: int|
                0 <= i < out@.len() && 0 <= j < rest@.len() ==> out@[i].0 < rest@[j].0,
        decreases rest@.len(),
    {
        let b = first_tone_group(&rest);
        let ghost before_rest = rest@;
        let ghost before_out = out@;
        proof {
            lemma_move_item(before_out, before_rest, b as int);
        }
        let g = rest.remove(b);
        out.push(g);
        assert forall|i: int, j: int| 0 <= i < j < rest@.len() implies rest@[i].0 != rest@[j].0 by {
            let i2 = if i < b { i } else { i + 1 };
            let j2 = if j < b { j } else { j + 1 };
            assert(rest@[i] == before_rest[i2]);
            assert(rest@[j] == before_rest[j2]);
        }
        assert forall|i: int, j: int|
            0 <= i < out@.len() && 0 <= j < rest@.len() implies out@[i].0 < rest@[j].0 by {
            let j2 = if j < b { j } else { j + 1 };
            assert(rest@[j] == before_rest[j2]);
            if i < before_out.len() {
                assert(out@[i] == before_out[i]);
            }
        }
        assert forall|i: int, j: int| 0 <= i < j < out@.len() implies out@[i].0 < out@[j].0 by {
            assert(out@[i] == before_out[i]);
            if j < before_out.len() {
                assert(out@[j] == before_out[j]);
            }
        }
    }
    proof {
        broadcast use vstd::seq_lib::group_to_multiset_ensures;

        assert(rest@.to_multiset() =~= Multiset::empty());
        assert(out@.to_multiset().add(Multiset::empty()) =~= out@.to_multiset());
    }
    out
}

/// Groups the records whose toneless pinyin is exactly `target_pinyin` by
/// tone, showing the traditional or the simplified form. Nothing when no
/// record has that pinyin; otherwise the groups in ascending order of tone,
/// each with the toned pinyin of its first record and its characters in
/// input order.
pub fn group_by_tone(
    records: &[HanziRecord],
    target_pinyin: &str,
    use_traditional: bool,
) -> (r: Option<Vec<ToneGroup>>)
    ensures
        r.is_none() <==> forall|k: int|
            0 <= k < records@.len() ==> (#[trigger] records@[k]).pinyin_without_tone@
                != target_pinyin@,
        r matches Some(g) ==> is_tone_grouping(records@, target_pinyin@, use_traditional, g@)
            && forall|i: int, j: int| 0 <= i < j < g@.len() ==> g@[i].0 < g@[j].0,
{
    let groups = collect_tone_groups(records, target_pinyin, use_traditional);
    if groups.len() == 0 {
        proof {
            assert forall|k: int| 0 <= k < records@.len() implies (#[trigger] records@[k]).pinyin_without_tone@
                != target_pinyin@ by {
                if records@[k].pinyin_without_tone@ == target_pinyin@ {
                    assert(has_tone_group(groups@, records@[k].tone));
                }
            }
        }
        return None;
    }
    proof {
        assert(first_toned_pinyin(records@, target_pinyin@, groups@[0].0, groups@[0].1@));
        let k = choose|k: int|
            is_first_match(records@, target_pinyin@, groups@[0].0, k) && records@[k].pinyin@
                == groups@[0].1@;
        assert(records@[k].pinyin_without_tone@ == target_pinyin@);
    }
    let r = sort_tone_groups(groups);
    proof {
        assert forall|i: int| 0 <= i < r@.len() implies groups@.contains(#[trigger] r@[i]) by {
            lemma_same_items(r@, groups@, r@[i]);
            assert(r@.contains(r@[i]));
        }
        assert forall|i: int| 0 <= i < r@.len() implies texts((#[trigger] r@[i]).2@)
            == forms_with_tone(records@, target_pinyin@, r@[i].0, use_traditional) && r@[i].2@.len()
            > 0 && first_toned_pinyin(records@, target_pinyin@, r@[i].0, r@[i].1@) by {
            assert(groups@.contains(r@[i]));
            let x = choose|x: int| 0 <= x < groups@.len() && groups@[x] == r@[i];
            assert(groups@[x] == r@[i]);
        }
        assert forall|k: int|
            0 <= k < records@.len() && (#[trigger] records@[k]).pinyin_without_tone@
                == target_pinyin@ implies has_tone_group(r@, records@[k].tone) by {
            assert(has_tone_group(groups@, records@[k].tone));
            let x = choose|x: int| 0 <= x < groups@.len() && groups@[x].0 == records@[k].tone;
            lemma_same_items(r@, groups@, groups@[x]);
            assert(groups@.contains(groups@[x]));
            let i = choose|i: int| 0 <= i < r@.len() && r@[i] == groups@[x];
            assert(r@[i].0 == records@[k].tone);
        }
    }
    Some(r)
}

/// The number of records whose toneless pinyin has onset `o`.
pub open spec fn onset_count(recs: Seq<HanziRecord>, o: HanziOnset) -> nat
    decreases recs.len(),
{
    if recs.len() == 0 {
        0
    } else {
        onset_count(recs.drop_last(), o) + if onset_of(recs.last().pinyin_without_tone@) == o {
            1nat
        } else {
            0nat
        }
    }
}

/// Some entry of `c` counts onset `o`.
pub open spec fn has_onset_entry(c: Seq<OnsetCount>, o: HanziOnset) -> bool {
    exists|i: int| 0 <= i < c.len() && c[i].0 == o
}

/// `c` counts the records of `recs` by onset: one entry per onset that
/// occurs, each with the number of records that have it.
pub open spec fn is_onset_tally(recs: Seq<HanziRecord>, c: Seq<OnsetCount>) -> bool {
    &&& forall|i: int|
        0 <= i < c.len() ==> (#[trigger] c[i]).1 == onset_count(recs, c[i].0) && c[i].1 > 0
    &&& forall|k: int|
        0 <= k < recs.len() ==> has_onset_entry(c, onset_of((#[trigger] recs[k]).pinyin_without_tone@))
    &&& forall|i: int, j: int| 0 <= i < j < c.len() ==> c[i].0 != c[j].0
}

/// The sum of the counts in `c`.
pub open spec fn tally_total(c: Seq<OnsetCount>) -> int
    decreases c.len(),
{
    if c.len() == 0 {
        0
    } else {
        tally_total(c.drop_last()) + c.last().1
    }
}

proof fn lemma_onset_count_bound(recs: Seq<HanziRecord>, o: HanziOnset)
    ensures
        onset_count(recs, o) <= recs.len(),
    decreases recs.len(),
{
    if recs.len() > 0 {
        lemma_onset_count_bound(recs.drop_last(), o);
    }
}

proof fn lemma_tally_total_update(c: Seq<OnsetCount>, j: int, x: OnsetCount)
    requires
        0 <= j < c.len(),
    ensures
        tally_total(c.update(j, x)) == tally_total(c) - c[j].1 + x.1,
    decreases c.len(),
{
    let u = c.update(j, x);
    if j == c.len() - 1 {
        assert(u.drop_last() =~= c.drop_last());
    } else {
        assert(u.drop_last() =~= c.drop_last().update(j, x));
        lemma_tally_total_update(c.drop_last(), j, x);
    }
}

proof fn lemma_tally_total_remove(c: Seq<OnsetCount>, j: int)
    requires
        0 <= j < c.len(),
    ensures
        tally_total(c.remove(j)) == tally_total(c) - c[j].1,
    decreases c.len(),
{
    let u = c.remove(j);
    if j == c.len() - 1 {
        assert(u =~= c.drop_last());
    } else {
        assert(u.drop_last() =~= c.drop_last().remove(j));
        lemma_tally_total_remove(c.drop_last(), j);
    }
}

/// The position of the entry for `o`, or `counts.len()` when there is none.
fn find_onset_entry(counts: &Vec<OnsetCount>, o: HanziOnset) -> (j: usize)
    ensures
        j <= counts@.len(),
        j < counts@.len() ==> counts@[j as int].0 == o,
        j == counts@.len() ==> forall|i: int| 0 <= i < counts@.len() ==> counts@[i].0 != o,
{
    let mut j: usize = 0;
    while j < counts.len()
        invariant
            j <= counts@.len(),
            forall|i: int| 0 <= i < j ==> counts@[i].0 != o,
        decreases counts@.len() - j,
    {
        if counts[j].0 == o {
            return j;
        }
        j = j + 1;
    }
    j
}

/// Counts the records by onset, in order of first appearance.
fn collect_onset_counts(records: &[HanziRecord]) -> (c: Vec<OnsetCount>)
    requires
        records@.len() <= u32::MAX,
    ensures
        is_onset_tally(records@, c@),
        tally_total(c@) == records@.len(),
{
    let mut counts: Vec<OnsetCount> = Vec::new();
    let mut i: usize = 0;
    while i < records.len()
        invariant
            i <= records@.len(),
            records@.len() <= u32::MAX,
            is_onset_tally(records@.take(i as int), counts@),
            tally_total(counts@) == i,
        decreases records@.len() - i,
    {
        let o = onset_for(records[i].pinyin_without_tone.as_str());
        let ghost seen = records@.take(i as int);
        let ghost now = records@.take(i + 1);
        let ghost old_counts = counts@;
        assert(now.drop_last() =~= seen);
        assert(now.last() == records@[i as int]);
        assert(forall|k: int| 0 <= k < i ==> now[k] == seen[k]);
        let j = find_onset_entry(&counts, o);
        if j < counts.len() {
            proof {
                lemma_onset_count_bound(seen, o);
                assert(old_counts[j as int].1 == onset_count(seen, old_counts[j as int].0));
            }
            let n = counts[j].1 + 1;
            counts.set(j, (o, n));
            proof {
                lemma_tally_total_update(old_counts, j as int, (o, n));
            }
        } else {
            proof {
                if onset_count(seen, o) > 0 {
                    lemma_onset_count_witness(seen, o);
                    let k = choose|k: int| 0 <= k < seen.len() && onset_of(seen[k].pinyin_without_tone@) == o;
                    assert(has_onset_entry(old_counts, onset_of(seen[k].pinyin_without_tone@)));
                }
            }
            counts.push((o, 1));
            assert(counts@.drop_last() =~= old_counts);
        }
        assert forall|x: int| 0 <= x < counts@.len() implies (#[trigger] counts@[x]).1 == onset_count(
            now,
            counts@[x].0,
        ) && counts@[x].1 > 0 by {
            if x < old_counts.len() && x != j {
                assert(counts@[x] == old_counts[x]);
            }
        }
        assert forall|x: int, y: int| 0 <= x < y < counts@.len() implies counts@[x].0
            != counts@[y].0 by {
            if y < old_counts.len() {
                assert(x == j || counts@[x] == old_counts[x]);
                assert(y == j || counts@[y] == old_counts[y]);
            } else {
                assert(counts@[x] == old_counts[x]);
            }
        }
        assert forall|k: int| 0 <= k < now.len() implies has_onset_entry(
            counts@,
            onset_of((#[trigger] now[k]).pinyin_without_tone@),
        ) by {
            if k < i {
                let t = onset_of(seen[k].pinyin_without_tone@);
                assert(has_onset_entry(old_counts, t));
                let x = choose|x: int| 0 <= x < old_counts.len() && old_counts[x].0 == t;
                assert(counts@[x].0 == old_counts[x].0);
            } else {
                assert(counts@[j as int].0 == o);
            }
        }
        i = i + 1;
    }
    assert(records@.take(records@.len() as int) =~= records@);
    counts
}

/// An onset that is counted at least once has a record.
proof fn lemma_onset_count_witness(recs: Seq<HanziRecord>, o: HanziOnset)
    requires
        onset_count(recs, o) > 0,
    ensures
        exists|k: int| 0 <= k < recs.len() && onset_of(recs[k].pinyin_without_tone@) == o,
    decreases recs.len(),
{
    if onset_of(recs.last().pinyin_without_tone@) == o {
        assert(recs[recs.len() - 1] == recs.last());
    } else {
        lemma_onset_count_witness(recs.drop_last(), o);
        let k = choose|k: int|
            0 <= k < recs.len() - 1 && onset_of(recs.drop_last()[k].pinyin_without_tone@) == o;
        assert(recs.drop_last()[k] == recs[k]);
    }
}

/// The position of the first entry with the highest count.
fn first_onset_entry(counts: &Vec<OnsetCount>) -> (b: usize)
    requires
        counts@.len() > 0,
    ensures
        b < counts@.len(),
        forall|k: int| 0 <= k < counts@.len() ==> counts@[b as int].1 >= counts@[k].1,
{
    let mut b: usize = 0;
    let mut i: usize = 1;
    while i < counts.len()
        invariant
            1 <= i <= counts@.len(),
            b < i,
            forall|k: int| 0 <= k < i ==> counts@[b as int].1 >= counts@[k].1,
        decreases counts@.len() - i,
    {
        if counts[i].1 > counts[b].1 {
            b = i;
        }
        i = i + 1;
    }
    b
}

/// Puts onset entries in descending order of count by repeatedly taking the
/// first entry with the highest count among those left.
fn sort_onset_counts(counts: Vec<OnsetCount>) -> (r: Vec<OnsetCount>)
    ensures
        r@.to_multiset() == counts@.to_multiset(),
        tally_total(r@) == tally_total(counts@),
        forall|i: int, j: int| 0 <= i < j < r@.len() ==> r@[i].1 >= r@[j].1,
{
    let ghost all = counts@;
    let mut rest = counts;
    let mut out: Vec<OnsetCount> = Vec::new();
    proof {
        broadcast use vstd::seq_lib::group_to_multiset_ensures;

        assert(out@.to_multiset().add(rest@.to_multiset()) =~= all.to_multiset());
    }
    while rest.len() > 0
        invariant
            out@.to_multiset().add(rest@.to_multiset()) == all.to_multiset(),
            tally_total(out@) + tally_total(rest@) == tally_total(all),
            forall|i: int, j: int| 0 <= i < j < out@.len() ==> out@[i].1 >= out@[j].1,
            forall|i: int, j: int|
                0 <= i < out@.len() && 0 <= j < rest@.len() ==> out@[i].1 >= rest@[j].1,
        decreases rest@.len(),
    {
        let b = first_onset_entry(&rest);
        let ghost before_rest = rest@;
        let ghost before_out = out@;
        proof {
            lemma_move_item(before_out, before_rest, b as int);
            lemma_tally_total_remove(before_rest, b as int);
        }
        let g = rest.remove(b);
        out.push(g);
        assert(out@.drop_last() =~= before_out);
        assert forall|i: int, j: int|
            0 <= i < out@.len() && 0 <= j < rest@.len() implies out@[i].1 >= rest@[j].1 by {
            let j2 = if j < b { j } else { j + 1 };
            assert(rest@[j] == before_rest[j2]);
            if i < before_out.len() {
                assert(out@[i] == before_out[i]);
            }
        }
        assert forall|i: int, j: int| 0 <= i < j < out@.len() implies out@[i].1 >= out@[j].1 by {
            assert(out@[i] == before_out[i]);
            if j < before_out.len() {
                assert(out@[j] == before_out[j]);
            }
        }
    }
    proof {
        broadcast use vstd::seq_lib::group_to_multiset_ensures;

        assert(rest@.to_multiset() =~= Multiset::empty());
        assert(out@.to_multiset().add(Multiset::empty()) =~= out@.to_multiset());
    }
    out
}

/// Counts records by the onset of their toneless pinyin, classifying them
/// afresh without touching the caller's records. Nothing for no records;
/// otherwise one entry per onset that occurs, in descending order of count
/// (ties in no promised order), the counts summing to the number of records.
pub fn group_by_onset(records: &[HanziRecord]) -> (r: Option<Vec<OnsetCount>>)
    requires
        records@.len() <= u32::MAX,
    ensures
        r.is_none() <==> records@.len() == 0,
        r matches Some(c) ==> {
            &&& is_onset_tally(records@, c@)
            &&& forall|i: int, j: int| 0 <= i < j < c@.len() ==> c@[i].1 >= c@[j].1
            &&& tally_total(c@) == records@.len()
        },
{
    if records.len() == 0 {
        return None;
    }
    let counts = collect_onset_counts(records);
    let r = sort_onset_counts(counts);
    proof {
        assert forall|i: int| 0 <= i < r@.len() implies (#[trigger] r@[i]).1 == onset_count(
            records@,
            r@[i].0,
        ) && r@[i].1 > 0 by {
            lemma_same_items(r@, counts@, r@[i]);
            assert(r@.contains(r@[i]));
            let x = choose|x: int| 0 <= x < counts@.len() && counts@[x] == r@[i];
            assert(counts@[x] == r@[i]);
        }
        assert forall|k: int| 0 <= k < records@.len() implies has_onset_entry(
            r@,
            onset_of((#[trigger] records@[k]).pinyin_without_tone@),
        ) by {
            let t = onset_of(records@[k].pinyin_without_tone@);
            assert(has_onset_entry(counts@, t));
            let x = choose|x: int| 0 <= x < counts@.len() && counts@[x].0 == t;
            lemma_same_items(r@, counts@, counts@[x]);
            assert(counts@.contains(counts@[x]));
            let i = choose|i: int| 0 <= i < r@.len() && r@[i] == counts@[x];
            assert(r@[i].0 == t);
        }
        assert(counts@.no_duplicates()) by {
            assert forall|i: int, j: int|
                0 <= i < counts@.len() && 0 <= j < counts@.len() && i != j implies counts@[i]
                != counts@[j] by {
                if i < j {
                    assert(counts@[i].0 != counts@[j].0);
                } else {
                    assert(counts@[j].0 != counts@[i].0);
                }
            }
        }
        lemma_no_duplicates_kept(r@, counts@);
        assert forall|i: int, j: int| 0 <= i < j < r@.len() implies r@[i].0 != r@[j].0 by {
            lemma_same_items(r@, counts@, r@[i]);
            lemma_same_items(r@, counts@, r@[j]);
            assert(r@.contains(r@[i]));
            assert(r@.contains(r@[j]));
            if r@[i].0 == r@[j].0 {
                let x = choose|x: int| 0 <= x < counts@.len() && counts@[x] == r@[i];
                let y = choose|y: int| 0 <= y < counts@.len() && counts@[y] == r@[j];
                if x != y {
                    if x < y {
                        assert(counts@[x].0 != counts@[y].0);
                    } else {
                        assert(counts@[y].0 != counts@[x].0);
                    }
                } else {
                    assert(r@[i] == r@[j]);
                }
            }
        }
    }
    Some(r)
}

} // verus!
