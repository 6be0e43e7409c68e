//! Onset and rime taxonomies, their spellings and parsers, and the character
//! record that carries one classified syllable.

use crate::text::same_text;
use vstd::prelude::*;

verus! {

/// The initial consonant (or consonant cluster) of a pinyin syllable.
/// `NoOnset` stands for a syllable that starts with a vowel.
#[derive(Debug, Clone, Copy, PartialEq, Eq, Structural, Hash)]
pub enum HanziOnset {
    B,
    P,
    M,
    F,
    D,
    T,
    N,
    Z,
    C,
    S,
    L,
    Zh,
    Ch,
    Sh,
    R,
    J,
    Q,
    X,
    G,
    K,
    H,
    Y,
    W,
    NoOnset,
}

/// The vowel nucleus and optional final consonant of a pinyin syllable.
/// `V` and `Ve` are the `ü` finals; `NoRime` marks a remainder that names no rime.
#[derive(Debug, Clone, Copy, PartialEq, Eq, Structural, Hash)]
pub enum HanziRime {
    E,
    A,
    O,
    Ei,
    Ai,
    Ou,
    Ao,
    En,
    An,
    Ong,
    Eng,
    Ang,
    Er,
    I,
    Ie,
    Ia,
    Iu,
    Iao,
    In,
    Ian,
    Iong,
    Ing,
    Iang,
    U,
    Uo,
    Ua,
    Ui,
    Uai,
    Un,
    Uan,
    Uang,
    V,
    Ve,
    Ue,
    NoRime,
}

/// Canonical lowercase spelling of an onset; `NoOnset` spells as `none`.
pub open spec fn onset_spelling(x: HanziOnset) -> Seq<char> {
    match x {
        HanziOnset::B => seq!['b'],
        HanziOnset::P => seq!['p'],
        HanziOnset::M => seq!['m'],
        HanziOnset::F => seq!['f'],
        HanziOnset::D => seq!['d'],
        HanziOnset::T => seq!['t'],
        HanziOnset::N => seq!['n'],
        HanziOnset::Z => seq!['z'],
        HanziOnset::C => seq!['c'],
        HanziOnset::S => seq!['s'],
        HanziOnset::L => seq!['l'],
        HanziOnset::Zh => seq!['z', 'h'],
        HanziOnset::Ch => seq!['c', 'h'],
        HanziOnset::Sh => seq!['s', 'h'],
        HanziOnset::R => seq!['r'],
        HanziOnset::J => seq!['j'],
        HanziOnset::Q => seq!['q'],
        HanziOnset::X => seq!['x'],
        HanziOnset::G => seq!['g'],
        HanziOnset::K => seq!['k'],
        HanziOnset::H => seq!['h'],
        HanziOnset::Y => seq!['y'],
        HanziOnset::W => seq!['w'],
        HanziOnset::NoOnset => seq!['n', 'o', 'n', 'e'],
    }
}

/// Canonical spelling of a rime; the `ü` finals are written with `ü`, and
/// `NoRime` spells as `none`.
pub open spec fn rime_spelling(x: HanziRime) -> Seq<char> {
    match x {
        HanziRime::E => seq!['e'],
        HanziRime::A => seq!['a'],
        HanziRime::O => seq!['o'],
        HanziRime::Ei => seq!['e', 'i'],
        HanziRime::Ai => seq!['a', 'i'],
        HanziRime::Ou => seq!['o', 'u'],
        HanziRime::Ao => seq!['a', 'o'],
        HanziRime::En => seq!['e', 'n'],
        HanziRime::An => seq!['a', 'n'],
        HanziRime::Ong => seq!['o', 'n', 'g'],
        HanziRime::Eng => seq!['e', 'n', 'g'],
        HanziRime::Ang => seq!['a', 'n', 'g'],
        HanziRime::Er => seq!['e', 'r'],
        HanziRime::I => seq!['i'],
        HanziRime::Ie => seq!['i', 'e'],
        HanziRime::Ia => seq!['i', 'a'],
        HanziRime::Iu => seq!['i', 'u'],
        HanziRime::Iao => seq!['i', 'a', 'o'],
        HanziRime::In => seq!['i', 'n'],
        HanziRime::Ian => seq!['i', 'a', 'n'],
        HanziRime::Iong => seq!['i', 'o', 'n', 'g'],
        HanziRime::Ing => seq!['i', 'n', 'g'],
        HanziRime::Iang => seq!['i', 'a', 'n', 'g'],
        HanziRime::U => seq!['u'],
        HanziRime::Uo => seq!['u', 'o'],
        HanziRime::Ua => seq!['u', 'a'],
        HanziRime::Ui => seq!['u', 'i'],
        HanziRime::Uai => seq!['u', 'a', 'i'],
        HanziRime::Un => seq!['u', 'n'],
        HanziRime::Uan => seq!['u', 'a', 'n'],
        HanziRime::Uang => seq!['u', 'a', 'n', 'g'],
        HanziRime::V => seq!['ü'],
        HanziRime::Ve => seq!['ü', 'e'],
        HanziRime::Ue => seq!['u', 'e'],
        HanziRime::NoRime => seq!['n', 'o', 'n', 'e'],
    }
}

/// Every onset, in declaration order.
pub open spec fn all_onsets() -> Seq<HanziOnset> {
    seq![
        HanziOnset::B,
        HanziOnset::P,
        HanziOnset::M,
        HanziOnset::F,
        HanziOnset::D,
        HanziOnset::T,
        HanziOnset::N,
        HanziOnset::Z,
        HanziOnset::C,
        HanziOnset::S,
        HanziOnset::L,
        HanziOnset::Zh,
        HanziOnset::Ch,
        HanziOnset::Sh,
        HanziOnset::R,
        HanziOnset::J,
        HanziOnset::Q,
        HanziOnset::X,
        HanziOnset::G,
        HanziOnset::K,
        HanziOnset::H,
        HanziOnset::Y,
        HanziOnset::W,
        HanziOnset::NoOnset,
    ]
}

/// Every rime, in declaration order.
pub open spec fn all_rimes() -> Seq<HanziRime> {
    seq![
        HanziRime::E,
        HanziRime::A,
        HanziRime::O,
        HanziRime::Ei,
        HanziRime::Ai,
        HanziRime::Ou,
        HanziRime::Ao,
        HanziRime::En,
        HanziRime::An,
        HanziRime::Ong,
        HanziRime::Eng,
        HanziRime::Ang,
        HanziRime::Er,
        HanziRime::I,
        HanziRime::Ie,
        HanziRime::Ia,
        HanziRime::Iu,
        HanziRime::Iao,
        HanziRime::In,
        HanziRime::Ian,
        HanziRime::Iong,
        HanziRime::Ing,
        HanziRime::Iang,
        HanziRime::U,
        HanziRime::Uo,
        HanziRime::Ua,
        HanziRime::Ui,
        HanziRime::Uai,
        HanziRime::Un,
        HanziRime::Uan,
        HanziRime::Uang,
        HanziRime::V,
        HanziRime::Ve,
        HanziRime::Ue,
        HanziRime::NoRime,
    ]
}

/// The onset whose canonical spelling is exactly `t`, if there is one.
pub open spec fn onset_named(t: Seq<char>) -> Option<HanziOnset> {
    if exists|o: HanziOnset| onset_spelling(o) == t {
        Some(choose|o: HanziOnset| onset_spelling(o) == t)
    } else {
        None
    }
}

/// The rime spelled exactly `t`; `v` and `ve` are accepted as the ASCII
/// spellings of `ü` and `üe`.
pub open spec fn rime_named(t: Seq<char>) -> Option<HanziRime> {
    if t == seq!['v'] {
        Some(HanziRime::V)
    } else if t == seq!['v', 'e'] {
        Some(HanziRime::Ve)
    } else if exists|r: HanziRime| rime_spelling(r) == t {
        Some(choose|r: HanziRime| rime_spelling(r) == t)
    } else {
        None
    }
}

/// The message of a failed onset parse.
pub open spec fn onset_error(s: Seq<char>) -> Seq<char> {
    "Invalid onset: '"@ + s + "'"@
}

/// The message of a failed rime parse.
pub open spec fn rime_error(s: Seq<char>) -> Seq<char> {
    "Invalid rime: '"@ + s + "'"@
}

/// What `str::to_lowercase` makes of a text.
pub uninterp spec fn lower_of(s: Seq<char>) -> Seq<char>;

/// Relies on `str::to_lowercase`: the Unicode lowercase mapping of each
/// character, which depends on the characters of `s` alone.
#[verifier::external_body]
fn lowercase(s: &str) -> (r: String)
    ensures
        r@ == lower_of(s@),
{
    s.to_lowercase()
}

/// Different onsets are spelled differently.
pub proof fn lemma_onset_spelling_injective(a: HanziOnset, b: HanziOnset)
    ensures
        onset_spelling(a) == onset_spelling(b) ==> a == b,
{
    if onset_spelling(a) == onset_spelling(b) {
        assert(onset_spelling(a).len() == onset_spelling(b).len());
        assert(onset_spelling(a)[0] == onset_spelling(b)[0]);
        if onset_spelling(a).len() > 1 {
            assert(onset_spelling(a)[1] == onset_spelling(b)[1]);
        }
    }
}

/// Different rimes are spelled differently.
pub proof fn lemma_rime_spelling_injective(a: HanziRime, b: HanziRime)
    ensures
        rime_spelling(a) == rime_spelling(b) ==> a == b,
{
    if rime_spelling(a) == rime_spelling(b) {
        let s = rime_spelling(a);
        assert(s.len() == rime_spelling(b).len());
        assert(s[0] == rime_spelling(b)[0]);
        if s.len() > 1 {
            assert(s[1] == rime_spelling(b)[1]);
        }
        if s.len() > 2 {
            assert(s[2] == rime_spelling(b)[2]);
        }
        if s.len() > 3 {
            assert(s[3] == rime_spelling(b)[3]);
        }
    }
}

/// Reading a canonical spelling gives back the category it spells.
pub proof fn lemma_spelling_round_trip(o: HanziOnset, r: HanziRime)
    ensures
        onset_named(onset_spelling(o)) == Some(o),
        rime_named(rime_spelling(r)) == Some(r),
{
    let a = choose|x: HanziOnset| onset_spelling(x) == onset_spelling(o);
    lemma_onset_spelling_injective(a, o);
    let b = choose|x: HanziRime| rime_spelling(x) == rime_spelling(r);
    lemma_rime_spelling_injective(b, r);
    assert(rime_spelling(r) != seq!['v']) by {
        if rime_spelling(r) == seq!['v'] {
            assert(rime_spelling(r)[0] == 'v');
        }
    }
    assert(rime_spelling(r) != seq!['v', 'e']) by {
        if rime_spelling(r) == seq!['v', 'e'] {
            assert(rime_spelling(r)[0] == 'v');
        }
    }
}

/// `v` and `ve` read as the `ü` finals: `ü` and `v` name the same rime, and
/// so do `üe` and `ve`.
pub proof fn lemma_v_reads_as_u_umlaut()
    ensures
        rime_named(seq!['v']) == Some(HanziRime::V),
        rime_named(seq!['ü']) == rime_named(seq!['v']),
        rime_named(seq!['v', 'e']) == Some(HanziRime::Ve),
        rime_named(seq!['ü', 'e']) == rime_named(seq!['v', 'e']),
{
    assert(rime_spelling(HanziRime::V) == seq!['ü']);
    assert(rime_spelling(HanziRime::Ve) == seq!['ü', 'e']);
    assert(seq!['ü'] != seq!['v']) by {
        assert(seq!['ü'][0] != seq!['v'][0]);
    }
    assert(seq!['ü'] != seq!['v', 'e']) by {
        assert(seq!['ü'].len() != seq!['v', 'e'].len());
    }
    assert(seq!['ü', 'e'] != seq!['v', 'e']) by {
        assert(seq!['ü', 'e'][0] != seq!['v', 'e'][0]);
    }
    assert(seq!['ü', 'e'] != seq!['v']) by {
        assert(seq!['ü', 'e'].len() != seq!['v'].len());
    }
    assert(seq!['v', 'e'] != seq!['v']) by {
        assert(seq!['v', 'e'].len() != seq!['v'].len());
    }
    let a = choose|r: HanziRime| rime_spelling(r) == seq!['ü'];
    lemma_rime_spelling_injective(a, HanziRime::V);
    let b = choose|r: HanziRime| rime_spelling(r) == seq!['ü', 'e'];
    lemma_rime_spelling_injective(b, HanziRime::Ve);
}

/// Every onset is listed in `all_onsets`.
proof fn lemma_all_onsets_complete(o: HanziOnset)
    ensures
        all_onsets().contains(o),
{
    match o {
        HanziOnset::B => assert(all_onsets()[0] == HanziOnset::B),
        HanziOnset::P => assert(all_onsets()[1] == HanziOnset::P),
        HanziOnset::M => assert(all_onsets()[2] == HanziOnset::M),
        HanziOnset::F => assert(all_onsets()[3] == HanziOnset::F),
        HanziOnset::D => assert(all_onsets()[4] == HanziOnset::D),
        HanziOnset::T => assert(all_onsets()[5] == HanziOnset::T),
        HanziOnset::N => assert(all_onsets()[6] == HanziOnset::N),
        HanziOnset::Z => assert(all_onsets()[7] == HanziOnset::Z),
        HanziOnset::C => assert(all_onsets()[8] == HanziOnset::C),
        HanziOnset::S => assert(all_onsets()[9] == HanziOnset::S),
        HanziOnset::L => assert(all_onsets()[10] == HanziOnset::L),
        HanziOnset::Zh => assert(all_onsets()[11] == HanziOnset::Zh),
        HanziOnset::Ch => assert(all_onsets()[12] == HanziOnset::Ch),
        HanziOnset::Sh => assert(all_onsets()[13] == HanziOnset::Sh),
        HanziOnset::R => assert(all_onsets()[14] == HanziOnset::R),
        HanziOnset::J => assert(all_onsets()[15] == HanziOnset::J),
        HanziOnset::Q => assert(all_onsets()[16] == HanziOnset::Q),
        HanziOnset::X => assert(all_onsets()[17] == HanziOnset::X),
        HanziOnset::G => assert(all_onsets()[18] == HanziOnset::G),
        HanziOnset::K => assert(all_onsets()[19] == HanziOnset::K),
        HanziOnset::H => assert(all_onsets()[20] == HanziOnset::H),
        HanziOnset::Y => assert(all_onsets()[21] == HanziOnset::Y),
        HanziOnset::W => assert(all_onsets()[22] == HanziOnset::W),
        HanziOnset::NoOnset => assert(all_onsets()[23] == HanziOnset::NoOnset),
    }
}

/// Every rime is listed in `all_rimes`.
proof fn lemma_all_rimes_complete(r: HanziRime)
    ensures
        all_rimes().contains(r),
{
    match r {
        HanziRime::E => assert(all_rimes()[0] == HanziRime::E),
        HanziRime::A => assert(all_rimes()[1] == HanziRime::A),
        HanziRime::O => assert(all_rimes()[2] == HanziRime::O),
        HanziRime::Ei => assert(all_rimes()[3] == HanziRime::Ei),
        HanziRime::Ai => assert(all_rimes()[4] == HanziRime::Ai),
        HanziRime::Ou => assert(all_rimes()[5] == HanziRime::Ou),
        HanziRime::Ao => assert(all_rimes()[6] == HanziRime::Ao),
        HanziRime::En => assert(all_rimes()[7] == HanziRime::En),
        HanziRime::An => assert(all_rimes()[8] == HanziRime::An),
        HanziRime::Ong => assert(all_rimes()[9] == HanziRime::Ong),
        HanziRime::Eng => assert(all_rimes()[10] == HanziRime::Eng),
        HanziRime::Ang => assert(all_rimes()[11] == HanziRime::Ang),
        HanziRime::Er => assert(all_rimes()[12] == HanziRime::Er),
        HanziRime::I => assert(all_rimes()[13] == HanziRime::I),
        HanziRime::Ie => assert(all_rimes()[14] == HanziRime::Ie),
        HanziRime::Ia => assert(all_rimes()[15] == HanziRime::Ia),
        HanziRime::Iu => assert(all_rimes()[16] == HanziRime::Iu),
        HanziRime::Iao => assert(all_rimes()[17] == HanziRime::Iao),
        HanziRime::In => assert(all_rimes()[18] == HanziRime::In),
        HanziRime::Ian => assert(all_rimes()[19] == HanziRime::Ian),
        HanziRime::Iong => assert(all_rimes()[20] == HanziRime::Iong),
        HanziRime::Ing => assert(all_rimes()[21] == HanziRime::Ing),
        HanziRime::Iang => assert(all_rimes()[22] == HanziRime::Iang),
        HanziRime::U => assert(all_rimes()[23] == HanziRime::U),
        HanziRime::Uo => assert(all_rimes()[24] == HanziRime::Uo),
        HanziRime::Ua => assert(all_rimes()[25] == HanziRime::Ua),
        HanziRime::Ui => assert(all_rimes()[26] == HanziRime::Ui),
        HanziRime::Uai => assert(all_rimes()[27] == HanziRime::Uai),
        HanziRime::Un => assert(all_rimes()[28] == HanziRime::Un),
        HanziRime::Uan => assert(all_rimes()[29] == HanziRime::Uan),
        HanziRime::Uang => assert(all_rimes()[30] == HanziRime::Uang),
        HanziRime::V => assert(all_rimes()[31] == HanziRime::V),
        HanziRime::Ve => assert(all_rimes()[32] == HanziRime::Ve),
        HanziRime::Ue => assert(all_rimes()[33] == HanziRime::Ue),
        HanziRime::NoRime => assert(all_rimes()[34] == HanziRime::NoRime),
    }
}

fn onset_list() -> (r: Vec<HanziOnset>)
    ensures
        r@ == all_onsets(),
{
    vec![
        HanziOnset::B,
        HanziOnset::P,
        HanziOnset::M,
        HanziOnset::F,
        HanziOnset::D,
        HanziOnset::T,
        HanziOnset::N,
        HanziOnset::Z,
        HanziOnset::C,
        HanziOnset::S,
        HanziOnset::L,
        HanziOnset::Zh,
        HanziOnset::Ch,
        HanziOnset::Sh,
        HanziOnset::R,
        HanziOnset::J,
        HanziOnset::Q,
        HanziOnset::X,
        HanziOnset::G,
        HanziOnset::K,
        HanziOnset::H,
        HanziOnset::Y,
        HanziOnset::W,
        HanziOnset::NoOnset,
    ]
}

fn rime_list() -> (r: Vec<HanziRime>)
    ensures
        r@ == all_rimes(),
{
    vec![
        HanziRime::E,
        HanziRime::A,
        HanziRime::O,
        HanziRime::Ei,
        HanziRime::Ai,
        HanziRime::Ou,
        HanziRime::Ao,
        HanziRime::En,
        HanziRime::An,
        HanziRime::Ong,
        HanziRime::Eng,
        HanziRime::Ang,
        HanziRime::Er,
        HanziRime::I,
        HanziRime::Ie,
        HanziRime::Ia,
        HanziRime::Iu,
        HanziRime::Iao,
        HanziRime::In,
        HanziRime::Ian,
        HanziRime::Iong,
        HanziRime::Ing,
        HanziRime::Iang,
        HanziRime::U,
        HanziRime::Uo,
        HanziRime::Ua,
        HanziRime::Ui,
        HanziRime::Uai,
        HanziRime::Un,
        HanziRime::Uan,
        HanziRime::Uang,
        HanziRime::V,
        HanziRime::Ve,
        HanziRime::Ue,
        HanziRime::NoRime,
    ]
}

impl HanziOnset {
    /// The canonical lowercase spelling; `NoOnset` spells as `"none"`.
    pub fn as_str(&self) -> (r: &'static str)
        ensures
            r@ == onset_spelling(*self),
    {
        match self {
            HanziOnset::B => {
                proof {
                    reveal_strlit("b");
                }
                "b"
            },
            HanziOnset::P => {
                proof {
                    reveal_strlit("p");
                }
                "p"
            },
            HanziOnset::M => {
                proof {
                    reveal_strlit("m");
                }
                "m"
            },
            HanziOnset::F => {
                proof {
                    reveal_strlit("f");
                }
                "f"
            },
            HanziOnset::D => {
                proof {
                    reveal_strlit("d");
                }
                "d"
            },
            HanziOnset::T => {
                proof {
                    reveal_strlit("t");
                }
                "t"
            },
            HanziOnset::N => {
                proof {
                    reveal_strlit("n");
                }
                "n"
            },
            HanziOnset::Z => {
                proof {
                    reveal_strlit("z");
                }
                "z"
            },
            HanziOnset::C => {
                proof {
                    reveal_strlit("c");
                }
                "c"
            },
            HanziOnset::S => {
                proof {
                    reveal_strlit("s");
                }
                "s"
            },
            HanziOnset::L => {
                proof {
                    reveal_strlit("l");
                }
                "l"
            },
            HanziOnset::Zh => {
                proof {
                    reveal_strlit("zh");
                }
                "zh"
            },
            HanziOnset::Ch => {
                proof {
                    reveal_strlit("ch");
                }
                "ch"
            },
            HanziOnset::Sh => {
                proof {
                    reveal_strlit("sh");
                }
                "sh"
            },
            HanziOnset::R => {
                proof {
                    reveal_strlit("r");
                }
                "r"
            },
            HanziOnset::J => {
                proof {
                    reveal_strlit("j");
                }
                "j"
            },
            HanziOnset::Q => {
                proof {
                    reveal_strlit("q");
                }
                "q"
            },
            HanziOnset::X => {
                proof {
                    reveal_strlit("x");
                }
                "x"
            },
            HanziOnset::G => {
                proof {
                    reveal_strlit("g");
                }
                "g"
            },
            HanziOnset::K => {
                proof {
                    reveal_strlit("k");
                }
                "k"
            },
            HanziOnset::H => {
                proof {
                    reveal_strlit("h");
                }
                "h"
            },
            HanziOnset::Y => {
                proof {
                    reveal_strlit("y");
                }
                "y"
            },
            HanziOnset::W => {
                proof {
                    reveal_strlit("w");
                }
                "w"
            },
            HanziOnset::NoOnset => {
                proof {
                    reveal_strlit("none");
                }
                "none"
            },
        }
    }

    /// Finds the onset whose canonical spelling is exactly `t`.
    pub fn from_lowercase(t: &str) -> (r: Option<HanziOnset>)
        ensures
            r == onset_named(t@),
    {
        let list = onset_list();
        let mut i: usize = 0;
        while i < list.len()
            invariant
                list@ == all_onsets(),
                i <= list.len(),
                forall|k: int| 0 <= k < i ==> onset_spelling(#[trigger] all_onsets()[k]) != t@,
            decreases list.len() - i,
        {
            let o = list[i];
            if same_text(o.as_str(), t) {
                proof {
                    assert forall|x: HanziOnset| onset_spelling(x) == t@ implies x == o by {
                        lemma_onset_spelling_injective(x, o);
                    }
                }
                return Some(o);
            }
            i = i + 1;
        }
        proof {
            assert forall|x: HanziOnset| onset_spelling(x) != t@ by {
                lemma_all_onsets_complete(x);
            }
        }
        None
    }

    /// Case-insensitive parse of an onset spelling.
    pub fn parse(s: &str) -> (r: Result<HanziOnset, String>)
        ensures
            match onset_named(lower_of(s@)) {
                Some(o) => r == Ok::<HanziOnset, String>(o),
                None => r.is_err() && r->Err_0@ == onset_error(s@),
            },
    {
        let lowered = lowercase(s);
        match HanziOnset::from_lowercase(lowered.as_str()) {
            Some(o) => Ok(o),
            None => {
                let mut msg = String::from_str("Invalid onset: '");
                msg.append(s);
                msg.append("'");
                Err(msg)
            },
        }
    }
}

impl HanziRime {
    /// The canonical spelling; the `ü` finals render with `ü`, `NoRime` as `"none"`.
    pub fn as_str(&self) -> (r: &'static str)
        ensures
            r@ == rime_spelling(*self),
    {
        match self {
            HanziRime::E => {
                proof {
                    reveal_strlit("e");
                }
                "e"
            },
            HanziRime::A => {
                proof {
                    reveal_strlit("a");
                }
                "a"
            },
            HanziRime::O => {
                proof {
                    reveal_strlit("o");
                }
                "o"
            },
            HanziRime::Ei => {
                proof {
                    reveal_strlit("ei");
                }
                "ei"
            },
            HanziRime::Ai => {
                proof {
                    reveal_strlit("ai");
                }
                "ai"
            },
            HanziRime::Ou => {
                proof {
                    reveal_strlit("ou");
                }
                "ou"
            },
            HanziRime::Ao => {
                proof {
                    reveal_strlit("ao");
                }
                "ao"
            },
            HanziRime::En => {
                proof {
                    reveal_strlit("en");
                }
                "en"
            },
            HanziRime::An => {
                proof {
                    reveal_strlit("an");
                }
                "an"
            },
            HanziRime::Ong => {
                proof {
                    reveal_strlit("ong");
                }
                "ong"
            },
            HanziRime::Eng => {
                proof {
                    reveal_strlit("eng");
                }
                "eng"
            },
            HanziRime::Ang => {
                proof {
                    reveal_strlit("ang");
                }
                "ang"
            },
            HanziRime::Er => {
                proof {
                    reveal_strlit("er");
                }
                "er"
            },
            HanziRime::I => {
                proof {
                    reveal_strlit("i");
                }
                "i"
            },
            HanziRime::Ie => {
                proof {
                    reveal_strlit("ie");
                }
                "ie"
            },
            HanziRime::Ia => {
                proof {
                    reveal_strlit("ia");
                }
                "ia"
            },
            HanziRime::Iu => {
                proof {
                    reveal_strlit("iu");
                }
                "iu"
            },
            HanziRime::Iao => {
                proof {
                    reveal_strlit("iao");
                }
                "iao"
            },
            HanziRime::In => {
                proof {
                    reveal_strlit("in");
                }
                "in"
            },
            HanziRime::Ian => {
                proof {
                    reveal_strlit("ian");
                }
                "ian"
            },
            HanziRime::Iong => {
                proof {
                    reveal_strlit("iong");
                }
                "iong"
            },
            HanziRime::Ing => {
                proof {
                    reveal_strlit("ing");
                }
                "ing"
            },
            HanziRime::Iang => {
                proof {
                    reveal_strlit("iang");
                }
                "iang"
            },
            HanziRime::U => {
                proof {
                    reveal_strlit("u");
                }
                "u"
            },
            HanziRime::Uo => {
                proof {
                    reveal_strlit("uo");
                }
                "uo"
            },
            HanziRime::Ua => {
                proof {
                    reveal_strlit("ua");
                }
                "ua"
            },
            HanziRime::Ui => {
                proof {
                    reveal_strlit("ui");
                }
                "ui"
            },
            HanziRime::Uai => {
                proof {
                    reveal_strlit("uai");
                }
                "uai"
            },
            HanziRime::Un => {
                proof {
                    reveal_strlit("un");
                }
                "un"
            },
            HanziRime::Uan => {
                proof {
                    reveal_strlit("uan");
                }
                "uan"
            },
            HanziRime::Uang => {
                proof {
                    reveal_strlit("uang");
                }
                "uang"
            },
            HanziRime::V => {
                proof {
                    reveal_strlit("ü");
                }
                "ü"
            },
            HanziRime::Ve => {
                proof {
                    reveal_strlit("üe");
                }
                "üe"
            },
            HanziRime::Ue => {
                proof {
                    reveal_strlit("ue");
                }
                "ue"
            },
            HanziRime::NoRime => {
                proof {
                    reveal_strlit("none");
                }
                "none"
            },
        }
    }

    /// Finds the rime spelled exactly `t`, taking `v` and `ve` for `ü` and `üe`.
    pub fn from_lowercase(t: &str) -> (r: Option<HanziRime>)
        ensures
            r == rime_named(t@),
    {
        proof {
            reveal_strlit("v");
            reveal_strlit("ve");
            assert("v"@ =~= seq!['v']);
            assert("ve"@ =~= seq!['v', 'e']);
        }
        if same_text(t, "v") {
            return Some(HanziRime::V);
        }
        if same_text(t, "ve") {
            return Some(HanziRime::Ve);
        }
        let list = rime_list();
        let mut i: usize = 0;
        while i < list.len()
            invariant
                list@ == all_rimes(),
                i <= list.len(),
                t@ != seq!['v'],
                t@ != seq!['v', 'e'],
                forall|k: int| 0 <= k < i ==> rime_spelling(#[trigger] all_rimes()[k]) != t@,
            decreases list.len() - i,
        {
            let r = list[i];
            if same_text(r.as_str(), t) {
                proof {
                    assert forall|x: HanziRime| rime_spelling(x) == t@ implies x == r by {
                        lemma_rime_spelling_injective(x, r);
                    }
                }
                return Some(r);
            }
            i = i + 1;
        }
        proof {
            assert forall|x: HanziRime| rime_spelling(x) != t@ by {
                lemma_all_rimes_complete(x);
            }
        }
        None
    }

    /// Case-insensitive parse of a rime spelling.
    pub fn parse(s: &str) -> (r: Result<HanziRime, String>)
        ensures
            match rime_named(lower_of(s@)) {
                Some(x) => r == Ok::<HanziRime, String>(x),
                None => r.is_err() && r->Err_0@ == rime_error(s@),
            },
    {
        let lowered = lowercase(s);
        match HanziRime::from_lowercase(lowered.as_str()) {
            Some(x) => Ok(x),
            None => {
                let mut msg = String::from_str("Invalid rime: '");
                msg.append(s);
                msg.append("'");
                Err(msg)
            },
        }
    }
}

impl core::str::FromStr for HanziOnset {
    type Err = String;

    fn from_str(s: &str) -> Result<HanziOnset, String> {
        HanziOnset::parse(s)
    }
}

impl core::str::FromStr for HanziRime {
    type Err = String;

    fn from_str(s: &str) -> Result<HanziRime, String> {
        HanziRime::parse(s)
    }
}

/// One character of the frequency list: its rank, both script forms, its
/// pinyin with and without tone marks, its tone (1 to 4, 5 for the neutral
/// tone), and the onset and rime derived from the toneless pinyin.
#[derive(Debug, Clone)]
pub struct HanziRecord {
    pub frequency: u32,
    pub simplified: String,
    pub traditional: String,
    pub pinyin: String,
    pub pinyin_without_tone: String,
    pub tone: u32,
    pub onset: HanziOnset,
    pub rime: HanziRime,
}

} // verus!
