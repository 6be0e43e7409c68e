//! Text layout of the grouped views: one line per group, with folding of long
//! character lists under the pinyin view.

use crate::grouping::{texts, OnsetCount, PinyinGroup, ToneGroup};
use crate::types::{onset_spelling, HanziOnset};
use vstd::prelude::*;

verus! {

/// `n` spaces.
pub open spec fn spaces(n: nat) -> Seq<char> {
    Seq::new(n, |_i: int| ' ')
}

/// The character of the decimal digit `d`.
pub open spec fn digit_char(d: nat) -> char {
    seq!['0', '1', '2', '3', '4', '5', '6', '7', '8', '9'][d as int]
}

/// The decimal notation of `n`, without leading zeros.
pub open spec fn decimal(n: nat) -> Seq<char>
    decreases n,
{
    if n < 10 {
        seq![digit_char(n)]
    } else {
        decimal(n / 10).push(digit_char(n % 10))
    }
}

/// `s` in a field of `w` columns, aligned left: padded with spaces on the
/// right, or cut to its first `w` characters.
pub open spec fn field_left(s: Seq<char>, w: nat) -> Seq<char> {
    if s.len() < w {
        s + spaces((w - s.len()) as nat)
    } else {
        s.take(w as int)
    }
}

/// `s` aligned right in a field of at least `w` columns.
pub open spec fn field_right(s: Seq<char>, w: nat) -> Seq<char> {
    if s.len() < w {
        spaces((w - s.len()) as nat) + s
    } else {
        s
    }
}

/// The texts of `v` written one after the other.
pub open spec fn joined(v: Seq<Seq<char>>) -> Seq<char>
    decreases v.len(),
{
    if v.len() == 0 {
        Seq::empty()
    } else {
        joined(v.drop_last()) + v.last()
    }
}

/// The first line of a pinyin group: the pinyin in eight columns, `": "`, the
/// number of characters right-aligned in three columns, a space, and the
/// characters shown on this line.
pub open spec fn header_line(pinyin: Seq<char>, count: nat, shown: Seq<char>) -> Seq<char> {
    field_left(pinyin, 8) + seq![':', ' '] + field_right(decimal(count), 3) + seq![' '] + shown
}

/// The continuation lines that carry `rest` in chunks of `w` characters,
/// each indented by fourteen spaces.
pub open spec fn continuation_lines(rest: Seq<char>, w: nat) -> Seq<Seq<char>>
    decreases rest.len(),
{
    if rest.len() == 0 {
        Seq::empty()
    } else if rest.len() <= w || w == 0 {
        seq![spaces(14) + rest]
    } else {
        seq![spaces(14) + rest.take(w as int)] + continuation_lines(rest.skip(w as int), w)
    }
}

/// The lines of one pinyin group: a single header line, unless a fold width
/// is given and the characters are more than it; then the header line shows
/// the first `w` characters and continuation lines carry the rest.
pub open spec fn pinyin_group_lines(
    pinyin: Seq<char>,
    forms: Seq<Seq<char>>,
    fold: Option<usize>,
) -> Seq<Seq<char>> {
    let all = joined(forms);
    match fold {
        Some(w) => if all.len() > w {
            seq![header_line(pinyin, forms.len(), all.take(w as int))] + continuation_lines(
                all.skip(w as int),
                w as nat,
            )
        } else {
            seq![header_line(pinyin, forms.len(), all)]
        },
        None => seq![header_line(pinyin, forms.len(), all)],
    }
}

/// The lines of a whole pinyin grouping, group after group.
pub open spec fn pinyin_report(g: Seq<PinyinGroup>, fold: Option<usize>) -> Seq<Seq<char>>
    decreases g.len(),
{
    if g.len() == 0 {
        Seq::empty()
    } else {
        pinyin_report(g.drop_last(), fold) + pinyin_group_lines(
            g.last().0@,
            texts(g.last().1@),
            fold,
        )
    }
}

/// The line of one tone group: the toned pinyin, `": "`, and the characters.
pub open spec fn tone_line(g: ToneGroup) -> Seq<char> {
    g.1@ + seq![':', ' '] + joined(texts(g.2@))
}

/// The line of one onset count: the onset's spelling, `": "`, and the count.
pub open spec fn onset_line(e: OnsetCount) -> Seq<char> {
    onset_spelling(e.0) + seq![':', ' '] + decimal(e.1 as nat)
}

fn digit_text(d: u64) -> (r: &'static str)
    requires
        d < 10,
    ensures
        r@ == seq![digit_char(d as nat)],
{
    match d {
        0 => {
            proof {
                reveal_strlit("0");
            }
            "0"
        },
        1 => {
            proof {
                reveal_strlit("1");
            }
            "1"
        },
        2 => {
            proof {
                reveal_strlit("2");
            }
            "2"
        },
        3 => {
            proof {
                reveal_strlit("3");
            }
            "3"
        },
        4 => {
            proof {
                reveal_strlit("4");
            }
            "4"
        },
        5 => {
            proof {
                reveal_strlit("5");
            }
            "5"
        },
        6 => {
            proof {
                reveal_strlit("6");
            }
            "6"
        },
        7 => {
            proof {
                reveal_strlit("7");
            }
            "7"
        },
        8 => {
            proof {
                reveal_strlit("8");
            }
            "8"
        },
        _ => {
            proof {
                reveal_strlit("9");
            }
            "9"
        },
    }
}

/// The decimal notation of `n`.
pub fn decimal_text(n: u64) -> (r: String)
    ensures
        r@ == decimal(n as nat),
    decreases n,
{
    if n < 10 {
        String::from_str(digit_text(n))
    } else {
        let mut s = decimal_text(n / 10);
        s.append(digit_text(n % 10));
        s
    }
}

/// Appends `n` spaces to `s`.
fn push_spaces(s: &mut String, n: usize)
    ensures
        final(s)@ == old(s)@ + spaces(n as nat),
{
    proof {
        reveal_strlit(" ");
    }
    let mut i: usize = 0;
    while i < n
        invariant
            i <= n,
            s@ == old(s)@ + spaces(i as nat),
            " "@ == seq![' '],
        decreases n - i,
    {
        s.append(" ");
        assert(old(s)@ + spaces((i + 1) as nat) =~= old(s)@ + spaces(i as nat) + seq![' ']);
        i = i + 1;
    }
}

/// The texts of `v` written one after the other.
pub fn join_texts(v: &Vec<String>) -> (r: String)
    ensures
        r@ == joined(texts(v@)),
{
    let mut r = String::new();
    let mut i: usize = 0;
    while i < v.len()
        invariant
            i <= v@.len(),
            r@ == joined(texts(v@.take(i as int))),
        decreases v@.len() - i,
    {
        r.append(v[i].as_str());
        assert(texts(v@.take(i + 1)).drop_last() =~= texts(v@.take(i as int)));
        i = i + 1;
    }
    assert(v@.take(v@.len() as int) =~= v@);
    r
}

/// The first line of a pinyin group.
fn header_text(pinyin: &str, count: usize, shown: &str) -> (r: String)
    ensures
        r@ == header_line(pinyin@, count as nat, shown@),
{
    proof {
        reveal_strlit(": ");
        reveal_strlit(" ");
    }
    let n = pinyin.unicode_len();
    let mut line = if n < 8 {
        let mut padded = String::from_str(pinyin);
        push_spaces(&mut padded, 8 - n);
        padded
    } else {
        String::from_str(pinyin.substring_char(0, 8))
    };
    assert(line@ == field_left(pinyin@, 8));
    line.append(": ");
    let digits = decimal_text(count as u64);
    let d = digits.unicode_len();
    let ghost before_count = line@;
    if d < 3 {
        push_spaces(&mut line, 3 - d);
    }
    line.append(digits.as_str());
    assert(line@ =~= before_count + field_right(decimal(count as nat), 3));
    line.append(" ");
    line.append(shown);
    assert(line@ =~= header_line(pinyin@, count as nat, shown@));
    line
}

/// Appends the lines of one pinyin group to `lines`.
fn push_pinyin_group_lines(
    lines: &mut Vec<String>,
    pinyin: &String,
    forms: &Vec<String>,
    fold: Option<usize>,
)
    requires
        fold matches Some(w) ==> w > 0,
    ensures
        texts(final(lines)@) == texts(old(lines)@) + pinyin_group_lines(pinyin@, texts(forms@), fold),
{
    let all = join_texts(forms);
    let n = all.unicode_len();
    let count = forms.len();
    assert(texts(forms@).len() == count);
    match fold {
        Some(w) => {
            if n > w {
                let first = all.as_str().substring_char(0, w);
                lines.push(header_text(pinyin.as_str(), count, first));
                assert(texts(lines@) =~= texts(old(lines)@) + seq![
                    header_line(pinyin@, count as nat, all@.take(w as int)),
                ]);
                let ghost full = texts(old(lines)@) + pinyin_group_lines(
                    pinyin@,
                    texts(forms@),
                    fold,
                );
                let mut pos: usize = w;
                assert(all@.skip(w as int) =~= all@.skip(pos as int));
                while pos < n
                    invariant
                        n == all@.len(),
                        0 < w <= pos <= n,
                        texts(lines@) + continuation_lines(all@.skip(pos as int), w as nat) == full,
                    decreases n - pos,
                {
                    let end = if n - pos <= w {
                        n
                    } else {
                        pos + w
                    };
                    let chunk = all.as_str().substring_char(pos, end);
                    let mut line = String::new();
                    push_spaces(&mut line, 14);
                    line.append(chunk);
                    let ghost before = texts(lines@);
                    let ghost rest = all@.skip(pos as int);
                    lines.push(line);
                    assert(texts(lines@) =~= before.push(line@));
                    if end == n {
                        assert(rest =~= chunk@);
                        assert(all@.skip(end as int) =~= Seq::<char>::empty());
                        assert(continuation_lines(rest, w as nat) =~= seq![line@]);
                    } else {
                        assert(rest.take(w as int) =~= chunk@);
                        assert(rest.skip(w as int) =~= all@.skip(end as int));
                    }
                    assert(before + continuation_lines(rest, w as nat) =~= texts(lines@)
                        + continuation_lines(all@.skip(end as int), w as nat));
                    pos = end;
                }
                assert(all@.skip(pos as int) =~= Seq::<char>::empty());
                assert(texts(lines@) + Seq::<Seq<char>>::empty() =~= texts(lines@));
            } else {
                let line = header_text(pinyin.as_str(), count, all.as_str());
                lines.push(line);
                assert(texts(lines@) =~= texts(old(lines)@) + seq![line@]);
            }
        },
        None => {
            let line = header_text(pinyin.as_str(), count, all.as_str());
            lines.push(line);
            assert(texts(lines@) =~= texts(old(lines)@) + seq![line@]);
        },
    }
}

/// Lays out a pinyin grouping, group after group. Without a fold width, or
/// when a group's characters are no more than it, a group takes one line:
/// pinyin in eight columns, `": "`, the number of characters right-aligned in
/// three columns, a space, the characters. A longer group shows its first
/// `fold_size` characters there and the rest on lines of `fold_size`
/// characters indented by fourteen spaces.
pub fn format_pinyin_output(
    grouped_data: &[PinyinGroup],
    fold_size: Option<usize>,
) -> (r: Vec<String>)
    requires
        fold_size matches Some(w) ==> w > 0,
    ensures
        texts(r@) == pinyin_report(grouped_data@, fold_size),
{
    let mut lines: Vec<String> = Vec::new();
    let mut i: usize = 0;
    assert(texts(lines@) =~= pinyin_report(grouped_data@.take(0), fold_size));
    while i < grouped_data.len()
        invariant
            i <= grouped_data@.len(),
            fold_size matches Some(w) ==> w > 0,
            texts(lines@) == pinyin_report(grouped_data@.take(i as int), fold_size),
        decreases grouped_data@.len() - i,
    {
        push_pinyin_group_lines(&mut lines, &grouped_data[i].0, &grouped_data[i].1, fold_size);
        assert(grouped_data@.take(i + 1).drop_last() =~= grouped_data@.take(i as int));
        i = i + 1;
    }
    assert(grouped_data@.take(grouped_data@.len() as int) =~= grouped_data@);
    lines
}

/// Lays out tone groups, one line each: the toned pinyin, `": "`, and the
/// characters. The tone number itself is not shown.
pub fn format_tone_output(tone_groups: &[ToneGroup]) -> (r: Vec<String>)
    ensures
        r@.len() == tone_groups@.len(),
        forall|i: int| 0 <= i < r@.len() ==> (#[trigger] r@[i])@ == tone_line(tone_groups@[i]),
{
    proof {
        reveal_strlit(": ");
    }
    let mut lines: Vec<String> = Vec::new();
    let mut i: usize = 0;
    while i < tone_groups.len()
        invariant
            i <= tone_groups@.len(),
            lines@.len() == i,
            ": "@ == seq![':', ' '],
            forall|k: int| 0 <= k < i ==> (#[trigger] lines@[k])@ == tone_line(tone_groups@[k]),
        decreases tone_groups@.len() - i,
    {
        let mut line = tone_groups[i].1.clone();
        line.append(": ");
        let chars = join_texts(&tone_groups[i].2);
        line.append(chars.as_str());
        assert(line@ =~= tone_line(tone_groups@[i as int]));
        lines.push(line);
        i = i + 1;
    }
    lines
}

/// Lays out onset counts, one line each: the onset's spelling, `": "`, and
/// the count in decimal.
pub fn format_onset_output(onset_counts: &[OnsetCount]) -> (r: Vec<String>)
    ensures
        r@.len() == onset_counts@.len(),
        forall|i: int| 0 <= i < r@.len() ==> (#[trigger] r@[i])@ == onset_line(onset_counts@[i]),
{
    proof {
        reveal_strlit(": ");
    }
    let mut lines: Vec<String> = Vec::new();
    let mut i: usize = 0;
    while i < onset_counts.len()
        invariant
            i <= onset_counts@.len(),
            lines@.len() == i,
            ": "@ == seq![':', ' '],
            forall|k: int| 0 <= k < i ==> (#[trigger] lines@[k])@ == onset_line(onset_counts@[k]),
        decreases onset_counts@.len() - i,
    {
        let (onset, count) = onset_counts[i];
        let mut line = String::from_str(onset.as_str());
        line.append(": ");
        let digits = decimal_text(count as u64);
        line.append(digits.as_str());
        assert(line@ =~= onset_line(onset_counts@[i as int]));
        lines.push(line);
        i = i + 1;
    }
    lines
}

} // verus!
