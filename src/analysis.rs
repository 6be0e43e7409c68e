//! Classification of toneless pinyin into onset and rime.

use crate::text::starts_with;
use crate::types::{lower_of, onset_spelling, rime_named, HanziOnset, HanziRecord, HanziRime};
use vstd::prelude::*;

verus! {

/// The onsets tried against a toneless pinyin, in order. The two-letter onsets
/// come first, so that `zh`, `ch` and `sh` win over `z`, `c` and `s`.
pub open spec fn onset_candidates() -> Seq<HanziOnset> {
    seq![
        HanziOnset::Zh,
        HanziOnset::Ch,
        HanziOnset::Sh,
        HanziOnset::B,
        HanziOnset::P,
        HanziOnset::M,
        HanziOnset::F,
        HanziOnset::D,
        HanziOnset::T,
        HanziOnset::N,
        HanziOnset::Z,
        HanziOnset::C,
        HanziOnset::S,
        HanziOnset::L,
        HanziOnset::R,
        HanziOnset::J,
        HanziOnset::Q,
        HanziOnset::X,
        HanziOnset::G,
        HanziOnset::K,
        HanziOnset::H,
        HanziOnset::Y,
        HanziOnset::W,
    ]
}

/// The first of `cands` whose spelling begins `s`; `NoOnset` when none does.
pub open spec fn first_prefix_onset(s: Seq<char>, cands: Seq<HanziOnset>) -> HanziOnset
    decreases cands.len(),
{
    if cands.len() == 0 {
        HanziOnset::NoOnset
    } else if onset_spelling(cands[0]).is_prefix_of(s) {
        cands[0]
    } else {
        first_prefix_onset(s, cands.drop_first())
    }
}

/// The onset of a toneless pinyin.
pub open spec fn onset_of(s: Seq<char>) -> HanziOnset {
    first_prefix_onset(s, onset_candidates())
}

/// The part of `pinyin` left for the rime once `onset` is taken off its
/// front. The whole text when the onset is `NoOnset` or does not begin it.
pub open spec fn rime_text(pinyin: Seq<char>, onset: HanziOnset) -> Seq<char> {
    if onset != HanziOnset::NoOnset && onset_spelling(onset).is_prefix_of(pinyin) {
        pinyin.skip(onset_spelling(onset).len() as int)
    } else {
        pinyin
    }
}

/// The rime of `pinyin` under `onset`: the case-insensitive reading of its
/// rime text, `NoRime` when that names no rime.
pub open spec fn rime_of(pinyin: Seq<char>, onset: HanziOnset) -> HanziRime {
    match rime_named(lower_of(rime_text(pinyin, onset))) {
        Some(r) => r,
        None => HanziRime::NoRime,
    }
}

/// `r` with its onset replaced.
pub open spec fn with_onset(r: HanziRecord, o: HanziOnset) -> HanziRecord {
    HanziRecord { onset: o, ..r }
}

/// `r` with its rime replaced.
pub open spec fn with_rime(r: HanziRecord, x: HanziRime) -> HanziRecord {
    HanziRecord { rime: x, ..r }
}

/// The scan over a candidate list yields `NoOnset` exactly when no candidate
/// begins `s`, and otherwise a listed candidate that begins `s`.
proof fn lemma_first_prefix_onset(s: Seq<char>, cands: Seq<HanziOnset>)
    requires
        !cands.contains(HanziOnset::NoOnset),
    ensures
        first_prefix_onset(s, cands) == HanziOnset::NoOnset <==> forall|k: int|
            0 <= k < cands.len() ==> !onset_spelling(#[trigger] cands[k]).is_prefix_of(s),
        first_prefix_onset(s, cands) != HanziOnset::NoOnset ==> cands.contains(
            first_prefix_onset(s, cands),
        ) && onset_spelling(first_prefix_onset(s, cands)).is_prefix_of(s),
    decreases cands.len(),
{
    if cands.len() > 0 {
        let rest = cands.drop_first();
        assert forall|k: int| 0 <= k < rest.len() implies rest[k] == cands[k + 1] by {}
        if !rest.contains(HanziOnset::NoOnset) {
            lemma_first_prefix_onset(s, rest);
        } else {
            let k = choose|k: int| 0 <= k < rest.len() && rest[k] == HanziOnset::NoOnset;
            assert(cands[k + 1] == HanziOnset::NoOnset);
        }
        assert(cands[0] != HanziOnset::NoOnset);
        if first_prefix_onset(s, cands) == HanziOnset::NoOnset {
            assert forall|k: int| 0 <= k < cands.len() implies !onset_spelling(
                #[trigger] cands[k],
            ).is_prefix_of(s) by {
                if k > 0 {
                    assert(cands[k] == rest[k - 1]);
                }
            }
        }
        if first_prefix_onset(s, cands) != HanziOnset::NoOnset && !onset_spelling(cands[0]).is_prefix_of(s) {
            let o = first_prefix_onset(s, rest);
            let k = choose|k: int| 0 <= k < rest.len() && rest[k] == o;
            assert(cands[k + 1] == o);
        }
    }
}

/// Onset classification is total: every toneless pinyin, the empty one
/// included, gets exactly one onset. It is `NoOnset` exactly when no
/// candidate onset begins the text; otherwise it is a candidate whose
/// spelling begins the text.
pub proof fn lemma_onset_total(s: Seq<char>)
    ensures
        onset_of(s) == HanziOnset::NoOnset <==> forall|k: int|
            0 <= k < onset_candidates().len() ==> !onset_spelling(
                #[trigger] onset_candidates()[k],
            ).is_prefix_of(s),
        onset_of(s) != HanziOnset::NoOnset ==> onset_candidates().contains(onset_of(s))
            && onset_spelling(onset_of(s)).is_prefix_of(s),
        s.len() == 0 ==> onset_of(s) == HanziOnset::NoOnset,
{
    let cands = onset_candidates();
    if cands.contains(HanziOnset::NoOnset) {
        let k = choose|k: int| 0 <= k < cands.len() && cands[k] == HanziOnset::NoOnset;
        assert(false);
    }
    lemma_first_prefix_onset(s, cands);
    if s.len() == 0 {
        assert forall|k: int| 0 <= k < cands.len() implies !onset_spelling(
            #[trigger] cands[k],
        ).is_prefix_of(s) by {
            assert(onset_spelling(cands[k]).len() > 0);
        }
    }
}

/// A toneless pinyin that begins with `zh`, `ch` or `sh` takes that
/// two-letter onset, never the one-letter onset that also begins it.
pub proof fn lemma_two_letter_onsets_first(s: Seq<char>)
    ensures
        seq!['z', 'h'].is_prefix_of(s) ==> onset_of(s) == HanziOnset::Zh,
        seq!['c', 'h'].is_prefix_of(s) ==> onset_of(s) == HanziOnset::Ch,
        seq!['s', 'h'].is_prefix_of(s) ==> onset_of(s) == HanziOnset::Sh,
{
    reveal_with_fuel(first_prefix_onset, 4);
    let cands = onset_candidates();
    if s.len() >= 2 {
        assert(onset_spelling(cands[0]) == seq!['z', 'h']);
        assert(onset_spelling(cands[1]) == seq!['c', 'h']);
        assert(onset_spelling(cands[2]) == seq!['s', 'h']);
        if seq!['z', 'h'].is_prefix_of(s) {
            assert(seq!['z', 'h'] =~= s.subrange(0, 2));
        }
        if seq!['c', 'h'].is_prefix_of(s) {
            assert(s[0] == 'c');
            assert(!seq!['z', 'h'].is_prefix_of(s));
            assert(cands.drop_first()[0] == HanziOnset::Ch);
        }
        if seq!['s', 'h'].is_prefix_of(s) {
            assert(s[0] == 's');
            assert(!seq!['z', 'h'].is_prefix_of(s));
            assert(!seq!['c', 'h'].is_prefix_of(s));
            assert(cands.drop_first()[0] == HanziOnset::Ch);
            assert(cands.drop_first().drop_first()[0] == HanziOnset::Sh);
        }
    }
}

/// The rime is read from what is left once exactly the given onset's
/// spelling is taken off the front of the pinyin: under `NoOnset`, or under
/// an onset that does not begin the pinyin, the whole pinyin is read.
/// Under the onset that classification assigns, onset spelling and rime
/// text put together give back the pinyin.
pub proof fn lemma_rime_follows_onset(pinyin: Seq<char>, onset: HanziOnset)
    ensures
        rime_of(pinyin, onset) == match rime_named(lower_of(rime_text(pinyin, onset))) {
            Some(r) => r,
            None => HanziRime::NoRime,
        },
        onset == HanziOnset::NoOnset ==> rime_text(pinyin, onset) == pinyin,
        !onset_spelling(onset).is_prefix_of(pinyin) ==> rime_text(pinyin, onset) == pinyin,
        onset != HanziOnset::NoOnset && onset_spelling(onset).is_prefix_of(pinyin)
            ==> onset_spelling(onset) + rime_text(pinyin, onset) == pinyin,
        onset_of(pinyin) != HanziOnset::NoOnset ==> onset_spelling(onset_of(pinyin))
            + rime_text(pinyin, onset_of(pinyin)) == pinyin,
        onset_of(pinyin) == HanziOnset::NoOnset ==> rime_text(pinyin, onset_of(pinyin)) == pinyin,
{
    let sp = onset_spelling(onset);
    if onset != HanziOnset::NoOnset && sp.is_prefix_of(pinyin) {
        assert(sp + pinyin.skip(sp.len() as int) =~= pinyin);
    }
    lemma_onset_total(pinyin);
    let o = onset_of(pinyin);
    if o != HanziOnset::NoOnset {
        let so = onset_spelling(o);
        assert(so + pinyin.skip(so.len() as int) =~= pinyin);
    }
}

fn candidate_list() -> (r: Vec<HanziOnset>)
    ensures
        r@ == onset_candidates(),
{
    vec![
        HanziOnset::Zh,
        HanziOnset::Ch,
        HanziOnset::Sh,
        HanziOnset::B,
        HanziOnset::P,
        HanziOnset::M,
        HanziOnset::F,
        HanziOnset::D,
        HanziOnset::T,
        HanziOnset::N,
        HanziOnset::Z,
        HanziOnset::C,
        HanziOnset::S,
        HanziOnset::L,
        HanziOnset::R,
        HanziOnset::J,
        HanziOnset::Q,
        HanziOnset::X,
        HanziOnset::G,
        HanziOnset::K,
        HanziOnset::H,
        HanziOnset::Y,
        HanziOnset::W,
    ]
}

/// The onset of one toneless pinyin: the first candidate that begins it.
pub fn onset_for(pinyin: &str) -> (o: HanziOnset)
    ensures
        o == onset_of(pinyin@),
{
    let cands = candidate_list();
    let mut i: usize = 0;
    assert(cands@.skip(0) =~= cands@);
    while i < cands.len()
        invariant
            cands@ == onset_candidates(),
            i <= cands.len(),
            first_prefix_onset(pinyin@, cands@.skip(i as int)) == onset_of(pinyin@),
        decreases cands.len() - i,
    {
        let c = cands[i];
        assert(cands@.skip(i as int).drop_first() =~= cands@.skip(i + 1));
        if starts_with(pinyin, c.as_str()) {
            return c;
        }
        i = i + 1;
    }
    HanziOnset::NoOnset
}

/// The rime of one toneless pinyin whose onset is already known.
pub fn rime_for(pinyin: &str, onset: HanziOnset) -> (r: HanziRime)
    ensures
        r == rime_of(pinyin@, onset),
{
    let spelled = onset.as_str();
    let part = if onset != HanziOnset::NoOnset && starts_with(pinyin, spelled) {
        pinyin.substring_char(spelled.unicode_len(), pinyin.unicode_len())
    } else {
        pinyin
    };
    assert(part@ == rime_text(pinyin@, onset));
    match HanziRime::parse(part) {
        Ok(x) => x,
        Err(_) => HanziRime::NoRime,
    }
}

/// Sets the onset of every record from its toneless pinyin.
pub fn set_hanzi_onsets(records: &mut [HanziRecord])
    ensures
        final(records)@.len() == old(records)@.len(),
        forall|i: int|
            0 <= i < old(records)@.len() ==> #[trigger] final(records)@[i] == with_onset(
                old(records)@[i],
                onset_of(old(records)@[i].pinyin_without_tone@),
            ),
{
    let n = records.len();
    let mut i: usize = 0;
    while i < n
        invariant
            n == old(records)@.len(),
            records@.len() == n,
            i <= n,
            forall|k: int|
                0 <= k < i ==> #[trigger] records@[k] == with_onset(
                    old(records)@[k],
                    onset_of(old(records)@[k].pinyin_without_tone@),
                ),
            forall|k: int| i <= k < n ==> #[trigger] records@[k] == old(records)@[k],
        decreases n - i,
    {
        let o = onset_for(records[i].pinyin_without_tone.as_str());
        records[i].onset = o;
        i = i + 1;
    }
}

/// Sets the rime of every record from its toneless pinyin and the onset it
/// already holds.
pub fn set_hanzi_rime(records: &mut [HanziRecord])
    ensures
        final(records)@.len() == old(records)@.len(),
        forall|i: int|
            0 <= i < old(records)@.len() ==> #[trigger] final(records)@[i] == with_rime(
                old(records)@[i],
                rime_of(old(records)@[i].pinyin_without_tone@, old(records)@[i].onset),
            ),
{
    let n = records.len();
    let mut i: usize = 0;
    while i < n
        invariant
            n == old(records)@.len(),
            records@.len() == n,
            i <= n,
            forall|k: int|
                0 <= k < i ==> #[trigger] records@[k] == with_rime(
                    old(records)@[k],
                    rime_of(old(records)@[k].pinyin_without_tone@, old(records)@[k].onset),
                ),
            forall|k: int| i <= k < n ==> #[trigger] records@[k] == old(records)@[k],
        decreases n - i,
    {
        let x = rime_for(records[i].pinyin_without_tone.as_str(), records[i].onset);
        records[i].rime = x;
        i = i + 1;
    }
}

} // verus!
