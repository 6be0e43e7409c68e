use study_rust_kanji::{group_by_tone, HanziOnset, HanziRecord, HanziRime};

#[test]
fn lib_test_pinyin_v_to_u_replacement() {
    // Test that 'v' in pinyin input gets replaced with 'ü'
    let records = vec![HanziRecord {
        frequency: 1,
        simplified: "女".to_string(),
        traditional: "女".to_string(),
        pinyin: "nǚ".to_string(),
        pinyin_without_tone: "nü".to_string(),
        tone: 3,
        onset: HanziOnset::N,
        rime: HanziRime::V,
    }];

    // Search with 'v' should not find characters with 'ü' at the low level
    let result = group_by_tone(&records, "nv", false);
    assert!(
        result.is_none(),
        "Direct search with 'v' should not find 'ü' characters"
    );

    // But the normalized search should work
    let result_with_u = group_by_tone(&records, "nü", false);
    assert!(
        result_with_u.is_some(),
        "Search with 'ü' should find characters"
    );
}
