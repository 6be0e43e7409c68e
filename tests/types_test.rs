use std::str::FromStr;
use study_rust_kanji::{HanziOnset, HanziRime};

#[test]
fn test_hanzi_onset_as_str() {
    // Test single character onsets
    assert_eq!(HanziOnset::B.as_str(), "b");
    assert_eq!(HanziOnset::P.as_str(), "p");
    assert_eq!(HanziOnset::M.as_str(), "m");
    assert_eq!(HanziOnset::F.as_str(), "f");
    assert_eq!(HanziOnset::D.as_str(), "d");
    assert_eq!(HanziOnset::T.as_str(), "t");
    assert_eq!(HanziOnset::N.as_str(), "n");
    assert_eq!(HanziOnset::Z.as_str(), "z");
    assert_eq!(HanziOnset::C.as_str(), "c");
    assert_eq!(HanziOnset::S.as_str(), "s");
    assert_eq!(HanziOnset::L.as_str(), "l");
    assert_eq!(HanziOnset::R.as_str(), "r");
    assert_eq!(HanziOnset::J.as_str(), "j");
    assert_eq!(HanziOnset::Q.as_str(), "q");
    assert_eq!(HanziOnset::X.as_str(), "x");
    assert_eq!(HanziOnset::G.as_str(), "g");
    assert_eq!(HanziOnset::K.as_str(), "k");
    assert_eq!(HanziOnset::H.as_str(), "h");
    assert_eq!(HanziOnset::Y.as_str(), "y");
    assert_eq!(HanziOnset::W.as_str(), "w");

    // Test compound onsets (kebab-case format)
    assert_eq!(HanziOnset::Zh.as_str(), "zh");
    assert_eq!(HanziOnset::Ch.as_str(), "ch");
    assert_eq!(HanziOnset::Sh.as_str(), "sh");

    // Test None case
    assert_eq!(HanziOnset::NoOnset.as_str(), "none");
}

#[test]
fn test_onset_from_str() {
    // Test valid single-character onsets
    assert_eq!(HanziOnset::from_str("b"), Ok(HanziOnset::B));
    assert_eq!(HanziOnset::from_str("B"), Ok(HanziOnset::B));
    assert_eq!(HanziOnset::from_str("p"), Ok(HanziOnset::P));
    assert_eq!(HanziOnset::from_str("m"), Ok(HanziOnset::M));

    // Test valid multi-character onsets
    assert_eq!(HanziOnset::from_str("zh"), Ok(HanziOnset::Zh));
    assert_eq!(HanziOnset::from_str("Zh"), Ok(HanziOnset::Zh));
    assert_eq!(HanziOnset::from_str("ZH"), Ok(HanziOnset::Zh));
    assert_eq!(HanziOnset::from_str("ch"), Ok(HanziOnset::Ch));
    assert_eq!(HanziOnset::from_str("sh"), Ok(HanziOnset::Sh));

    // Test special case
    assert_eq!(HanziOnset::from_str("none"), Ok(HanziOnset::NoOnset));
    assert_eq!(HanziOnset::from_str("None"), Ok(HanziOnset::NoOnset));
    assert_eq!(HanziOnset::from_str("NONE"), Ok(HanziOnset::NoOnset));

    // Test invalid inputs
    assert!(HanziOnset::from_str("invalid").is_err());
    assert!(HanziOnset::from_str("").is_err());
    assert!(HanziOnset::from_str("zz").is_err());

    // Test error message
    let result = HanziOnset::from_str("invalid");
    assert!(result.is_err());
    assert_eq!(result.unwrap_err(), "Invalid onset: 'invalid'");
}

#[test]
fn test_hanzi_rime_as_str() {
    // Test simple vowel rimes
    assert_eq!(HanziRime::E.as_str(), "e");
    assert_eq!(HanziRime::A.as_str(), "a");
    assert_eq!(HanziRime::O.as_str(), "o");
    assert_eq!(HanziRime::I.as_str(), "i");
    assert_eq!(HanziRime::U.as_str(), "u");

    // Test compound vowel rimes
    assert_eq!(HanziRime::Ei.as_str(), "ei");
    assert_eq!(HanziRime::Ai.as_str(), "ai");
    assert_eq!(HanziRime::Ou.as_str(), "ou");
    assert_eq!(HanziRime::Ao.as_str(), "ao");

    // Test nasal ending rimes
    assert_eq!(HanziRime::En.as_str(), "en");
    assert_eq!(HanziRime::An.as_str(), "an");
    assert_eq!(HanziRime::Eng.as_str(), "eng");
    assert_eq!(HanziRime::Ang.as_str(), "ang");
    assert_eq!(HanziRime::Ong.as_str(), "ong");
    assert_eq!(HanziRime::Er.as_str(), "er");

    // Test complex compound rimes
    assert_eq!(HanziRime::Ie.as_str(), "ie");
    assert_eq!(HanziRime::Ia.as_str(), "ia");
    assert_eq!(HanziRime::Iu.as_str(), "iu");
    assert_eq!(HanziRime::Iao.as_str(), "iao");
    assert_eq!(HanziRime::In.as_str(), "in");
    assert_eq!(HanziRime::Ian.as_str(), "ian");
    assert_eq!(HanziRime::Iong.as_str(), "iong");
    assert_eq!(HanziRime::Ing.as_str(), "ing");
    assert_eq!(HanziRime::Iang.as_str(), "iang");

    // Test u-compound rimes
    assert_eq!(HanziRime::Uo.as_str(), "uo");
    assert_eq!(HanziRime::Ua.as_str(), "ua");
    assert_eq!(HanziRime::Ui.as_str(), "ui");
    assert_eq!(HanziRime::Uai.as_str(), "uai");
    assert_eq!(HanziRime::Un.as_str(), "un");
    assert_eq!(HanziRime::Uan.as_str(), "uan");
    assert_eq!(HanziRime::Uang.as_str(), "uang");

    // Test special ü rimes
    assert_eq!(HanziRime::V.as_str(), "ü");
    assert_eq!(HanziRime::Ve.as_str(), "üe");
    assert_eq!(HanziRime::Ue.as_str(), "ue");

    // Test None case
    assert_eq!(HanziRime::NoRime.as_str(), "none");
}

#[test]
fn test_rime_from_str() {
    // Test valid simple vowel rimes
    assert_eq!(HanziRime::from_str("e"), Ok(HanziRime::E));
    assert_eq!(HanziRime::from_str("a"), Ok(HanziRime::A));
    assert_eq!(HanziRime::from_str("o"), Ok(HanziRime::O));
    assert_eq!(HanziRime::from_str("i"), Ok(HanziRime::I));
    assert_eq!(HanziRime::from_str("u"), Ok(HanziRime::U));

    // Test valid compound vowel rimes
    assert_eq!(HanziRime::from_str("ei"), Ok(HanziRime::Ei));
    assert_eq!(HanziRime::from_str("ai"), Ok(HanziRime::Ai));
    assert_eq!(HanziRime::from_str("ou"), Ok(HanziRime::Ou));
    assert_eq!(HanziRime::from_str("ao"), Ok(HanziRime::Ao));

    // Test valid nasal ending rimes
    assert_eq!(HanziRime::from_str("en"), Ok(HanziRime::En));
    assert_eq!(HanziRime::from_str("an"), Ok(HanziRime::An));
    assert_eq!(HanziRime::from_str("eng"), Ok(HanziRime::Eng));
    assert_eq!(HanziRime::from_str("ang"), Ok(HanziRime::Ang));
    assert_eq!(HanziRime::from_str("ong"), Ok(HanziRime::Ong));
    assert_eq!(HanziRime::from_str("er"), Ok(HanziRime::Er));

    // Test valid complex compound rimes
    assert_eq!(HanziRime::from_str("ie"), Ok(HanziRime::Ie));
    assert_eq!(HanziRime::from_str("ia"), Ok(HanziRime::Ia));
    assert_eq!(HanziRime::from_str("iu"), Ok(HanziRime::Iu));
    assert_eq!(HanziRime::from_str("iao"), Ok(HanziRime::Iao));
    assert_eq!(HanziRime::from_str("in"), Ok(HanziRime::In));
    assert_eq!(HanziRime::from_str("ian"), Ok(HanziRime::Ian));
    assert_eq!(HanziRime::from_str("iong"), Ok(HanziRime::Iong));
    assert_eq!(HanziRime::from_str("ing"), Ok(HanziRime::Ing));
    assert_eq!(HanziRime::from_str("iang"), Ok(HanziRime::Iang));

    // Test valid u-compound rimes
    assert_eq!(HanziRime::from_str("uo"), Ok(HanziRime::Uo));
    assert_eq!(HanziRime::from_str("ua"), Ok(HanziRime::Ua));
    assert_eq!(HanziRime::from_str("ui"), Ok(HanziRime::Ui));
    assert_eq!(HanziRime::from_str("uai"), Ok(HanziRime::Uai));
    assert_eq!(HanziRime::from_str("un"), Ok(HanziRime::Un));
    assert_eq!(HanziRime::from_str("uan"), Ok(HanziRime::Uan));
    assert_eq!(HanziRime::from_str("uang"), Ok(HanziRime::Uang));

    // Test special ü rimes - both ü and v representations
    assert_eq!(HanziRime::from_str("ü"), Ok(HanziRime::V));
    assert_eq!(HanziRime::from_str("v"), Ok(HanziRime::V));
    assert_eq!(HanziRime::from_str("üe"), Ok(HanziRime::Ve));
    assert_eq!(HanziRime::from_str("ve"), Ok(HanziRime::Ve));
    assert_eq!(HanziRime::from_str("ue"), Ok(HanziRime::Ue));

    // Test case insensitivity
    assert_eq!(HanziRime::from_str("ANG"), Ok(HanziRime::Ang));
    assert_eq!(HanziRime::from_str("Iang"), Ok(HanziRime::Iang));

    // Test special case
    assert_eq!(HanziRime::from_str("none"), Ok(HanziRime::NoRime));
    assert_eq!(HanziRime::from_str("None"), Ok(HanziRime::NoRime));
    assert_eq!(HanziRime::from_str("NONE"), Ok(HanziRime::NoRime));

    // Test invalid inputs
    assert!(HanziRime::from_str("invalid").is_err());
    assert!(HanziRime::from_str("").is_err());
    assert!(HanziRime::from_str("xyz").is_err());

    // Test error message
    let result = HanziRime::from_str("invalid");
    assert!(result.is_err());
    assert_eq!(result.unwrap_err(), "Invalid rime: 'invalid'");
}
