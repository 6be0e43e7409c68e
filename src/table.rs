//! Reading one row of the tab-separated character table into a record.

use crate::grouping::texts;
use crate::types::{HanziOnset, HanziRecord, HanziRime};
use vstd::prelude::*;

verus! {

/// The fields of `s`, split at each tab character.
pub open spec fn tab_fields(s: Seq<char>) -> Seq<Seq<char>>
    decreases s.len(),
{
    if s.len() == 0 {
        seq![Seq::empty()]
    } else {
        let f = tab_fields(s.drop_last());
        if s.last() == '\t' {
            f.push(Seq::empty())
        } else {
            f.update(f.len() - 1, f.last().push(s.last()))
        }
    }
}

/// An ASCII decimal digit.
pub open spec fn is_digit(c: char) -> bool {
    '0' <= c && c <= '9'
}

/// The value of a run of decimal digits.
pub open spec fn digits_value(d: Seq<char>) -> int
    decreases d.len(),
{
    if d.len() == 0 {
        0
    } else {
        digits_value(d.drop_last()) * 10 + (d.last() as int - '0' as int)
    }
}

/// `s` with one leading `+` taken off, if it has one.
pub open spec fn unsigned_part(s: Seq<char>) -> Seq<char> {
    if s.len() > 0 && s[0] == '+' {
        s.drop_first()
    } else {
        s
    }
}

/// Every character of `d` is a decimal digit.
pub open spec fn all_digits(d: Seq<char>) -> bool {
    forall|i: int| 0 <= i < d.len() ==> is_digit(#[trigger] d[i])
}

/// A numeric field: decimal digits, after at most one leading `+`, whose
/// value fits in 32 bits. Anything else reads as 0.
pub open spec fn field_number(s: Seq<char>) -> u32 {
    let d = unsigned_part(s);
    if d.len() > 0 && all_digits(d) && digits_value(d) <= u32::MAX {
        digits_value(d) as u32
    } else {
        0
    }
}

/// The record a row describes, when it has at least six fields: rank,
/// simplified form, traditional form, toned pinyin, toneless pinyin and tone,
/// with onset and rime not yet classified.
pub open spec fn is_row_record(fields: Seq<Seq<char>>, r: HanziRecord) -> bool {
    &&& r.frequency == field_number(fields[0])
    &&& r.simplified@ == fields[1]
    &&& r.traditional@ == fields[2]
    &&& r.pinyin@ == fields[3]
    &&& r.pinyin_without_tone@ == fields[4]
    &&& r.tone == field_number(fields[5])
    &&& r.onset == HanziOnset::NoOnset
    &&& r.rime == HanziRime::NoRime
}

proof fn lemma_tab_fields_nonempty(s: Seq<char>)
    ensures
        tab_fields(s).len() >= 1,
    decreases s.len(),
{
    if s.len() > 0 {
        lemma_tab_fields_nonempty(s.drop_last());
    }
}

/// A run of digits is worth at least as much as any of its prefixes.
proof fn lemma_digits_value_grows(d: Seq<char>, k: int)
    requires
        0 <= k <= d.len(),
        forall|i: int| 0 <= i < d.len() ==> is_digit(#[trigger] d[i]),
    ensures
        digits_value(d.take(k)) <= digits_value(d),
        digits_value(d) >= 0,
    decreases d.len(),
{
    if d.len() > 0 {
        let init = d.drop_last();
        assert forall|i: int| 0 <= i < init.len() implies is_digit(#[trigger] init[i]) by {
            assert(init[i] == d[i]);
        }
        assert(is_digit(d[d.len() - 1]));
        if k < d.len() {
            assert(d.take(k) =~= init.take(k));
            lemma_digits_value_grows(init, k);
        } else {
            assert(d.take(k) =~= d);
            lemma_digits_value_grows(init, 0);
        }
    } else {
        assert(d.take(k) =~= d);
    }
}

/// Reads a numeric field.
pub fn parse_field_number(s: &str) -> (r: u32)
    ensures
        r == field_number(s@),
{
    let n = s.unicode_len();
    let start: usize = if n > 0 && s.get_char(0) == '+' {
        1
    } else {
        0
    };
    let ghost d = s@.skip(start as int);
    assert(d =~= unsigned_part(s@));
    if start == n {
        return 0;
    }
    let mut acc: u64 = 0;
    let mut i: usize = start;
    assert(d.take(0) =~= Seq::<char>::empty());
    while i < n
        invariant
            n == s@.len(),
            start <= i <= n,
            d == s@.skip(start as int),
            d == unsigned_part(s@),
            d.len() > 0,
            acc == digits_value(d.take(i - start)),
            acc <= u32::MAX,
            forall|k: int| 0 <= k < i - start ==> is_digit(#[trigger] d[k]),
        decreases n - i,
    {
        let c = s.get_char(i);
        assert(d[i - start] == c);
        if !('0' <= c && c <= '9') {
            assert(!is_digit(d[i - start]));
            return 0;
        }
        assert(d.take(i - start + 1).drop_last() =~= d.take(i - start));
        acc = acc * 10 + ((c as u32) - ('0' as u32)) as u64;
        assert(acc == digits_value(d.take(i - start + 1)));
        if acc > 0xffff_ffff {
            proof {
                if all_digits(d) {
                    lemma_digits_value_grows(d, i - start + 1);
                    assert(digits_value(d) > u32::MAX);
                }
            }
            return 0;
        }
        i = i + 1;
    }
    assert(d.take(n - start) =~= d);
    acc as u32
}

/// Splits `line` at each tab character.
fn split_tabs(line: &str) -> (r: Vec<String>)
    ensures
        texts(r@) == tab_fields(line@),
{
    let n = line.unicode_len();
    let mut fields: Vec<String> = Vec::new();
    let mut start: usize = 0;
    let mut i: usize = 0;
    assert(line@.take(0) =~= Seq::<char>::empty());
    assert(texts(fields@).push(line@.subrange(0, 0)) =~= tab_fields(line@.take(0)));
    while i < n
        invariant
            n == line@.len(),
            start <= i <= n,
            texts(fields@).push(line@.subrange(start as int, i as int)) == tab_fields(
                line@.take(i as int),
            ),
        decreases n - i,
    {
        let c = line.get_char(i);
        let ghost before = texts(fields@);
        assert(line@.take(i + 1).drop_last() =~= line@.take(i as int));
        assert(line@.take(i + 1).last() == c);
        if c == '\t' {
            let field = line.substring_char(start, i);
            fields.push(String::from_str(field));
            assert(texts(fields@) =~= before.push(field@));
            start = i + 1;
            assert(line@.subrange(start as int, i + 1) =~= Seq::<char>::empty());
            assert(texts(fields@).push(line@.subrange(start as int, i + 1)) =~= before.push(
                field@,
            ).push(Seq::empty()));
        } else {
            assert(line@.subrange(start as int, i + 1) =~= line@.subrange(start as int, i as int).push(c));
            assert(texts(fields@).push(line@.subrange(start as int, i + 1)) =~= before.push(
                line@.subrange(start as int, i as int),
            ).update(before.len() as int, line@.subrange(start as int, i as int).push(c)));
        }
        i = i + 1;
    }
    let last = line.substring_char(start, n);
    let ghost before = texts(fields@);
    fields.push(String::from_str(last));
    assert(line@.take(n as int) =~= line@);
    assert(texts(fields@) =~= before.push(last@));
    fields
}

/// Reads one row of the character table. Rows with fewer than six
/// tab-separated fields give nothing; a rank or tone that is not a number
/// reads as 0; fields past the sixth are ignored.
pub fn parse_hanzi_line(line: &str) -> (r: Option<HanziRecord>)
    ensures
        r.is_none() <==> tab_fields(line@).len() < 6,
        r matches Some(rec) ==> is_row_record(tab_fields(line@), rec),
{
    let fields = split_tabs(line);
    if fields.len() < 6 {
        return None;
    }
    assert(fields@[1]@ == tab_fields(line@)[1]);
    assert(fields@[2]@ == tab_fields(line@)[2]);
    assert(fields@[3]@ == tab_fields(line@)[3]);
    assert(fields@[4]@ == tab_fields(line@)[4]);
    assert(fields@[0]@ == tab_fields(line@)[0]);
    assert(fields@[5]@ == tab_fields(line@)[5]);
    Some(
        HanziRecord {
            frequency: parse_field_number(fields[0].as_str()),
            simplified: fields[1].clone(),
            traditional: fields[2].clone(),
            pinyin: fields[3].clone(),
            pinyin_without_tone: fields[4].clone(),
            tone: parse_field_number(fields[5].as_str()),
            onset: HanziOnset::NoOnset,
            rime: HanziRime::NoRime,
        },
    )
}

} // verus!
