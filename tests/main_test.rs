use study_rust_kanji::{
    format_pinyin_output, format_tone_output, group_by_pinyin, group_by_tone, HanziOnset,
    HanziRecord, HanziRime,
};

fn create_test_records() -> Vec<HanziRecord> {
    vec![
        HanziRecord {
            frequency: 1,
            simplified: "机".to_string(),
            traditional: "機".to_string(),
            pinyin: "jī".to_string(),
            pinyin_without_tone: "ji".to_string(),
            tone: 1,
            onset: HanziOnset::J,
            rime: HanziRime::I,
        },
        HanziRecord {
            frequency: 2,
            simplified: "计".to_string(),
            traditional: "計".to_string(),
            pinyin: "jì".to_string(),
            pinyin_without_tone: "ji".to_string(),
            tone: 4,
            onset: HanziOnset::J,
            rime: HanziRime::I,
        },
        HanziRecord {
            frequency: 3,
            simplified: "马".to_string(),
            traditional: "馬".to_string(),
            pinyin: "mǎ".to_string(),
            pinyin_without_tone: "ma".to_string(),
            tone: 3,
            onset: HanziOnset::M,
            rime: HanziRime::A,
        },
    ]
}

#[test]
fn main_test_group_by_pinyin_simplified() {
    let records = create_test_records();
    let grouped = group_by_pinyin(&records, false);

    // ji should come first as it has more characters than ma
    assert_eq!(grouped[0].0, "ji");
    assert_eq!(grouped[0].1, vec!["机", "计"]);
    assert_eq!(grouped[1].0, "ma");
    assert_eq!(grouped[1].1, vec!["马"]);
}

#[test]
fn main_test_group_by_pinyin_traditional() {
    let records = create_test_records();
    let grouped = group_by_pinyin(&records, true);

    // Traditional characters should be used
    assert_eq!(grouped[0].0, "ji");
    assert_eq!(grouped[0].1, vec!["機", "計"]);
    assert_eq!(grouped[1].0, "ma");
    assert_eq!(grouped[1].1, vec!["馬"]);
}

#[test]
fn main_test_format_pinyin_output_no_fold() {
    let test_data = vec![
        ("ji".to_string(), vec!["机".to_string(), "计".to_string()]),
        ("ma".to_string(), vec!["马".to_string()]),
    ];

    let output = format_pinyin_output(&test_data, None);

    assert_eq!(output.len(), 2);
    assert!(output[0].contains("ji"));
    assert!(output[0].contains("2"));
    assert!(output[0].contains("机计"));
    assert!(output[1].contains("ma"));
    assert!(output[1].contains("1"));
    assert!(output[1].contains("马"));
}

#[test]
fn main_test_format_pinyin_output_with_fold() {
    let test_data = vec![(
        "test".to_string(),
        vec![
            "一".to_string(),
            "二".to_string(),
            "三".to_string(),
            "四".to_string(),
            "五".to_string(),
        ],
    )];

    let output = format_pinyin_output(&test_data, Some(3));

    // fold_size is 3, so first line should have 3 characters, remaining on next line
    assert!(
        output.len() >= 2,
        "Should have at least 2 lines when folding"
    );
    assert!(output[0].contains("test"));
    assert!(output[0].contains("5")); // character count
    assert!(
        output[1].trim().len() > 0,
        "Second line should contain remaining characters"
    );
}

#[test]
fn main_test_format_pinyin_output_alignment() {
    let test_data = vec![
        ("ji".to_string(), vec!["机".to_string()]),
        ("longpinyin".to_string(), vec!["长".to_string()]),
    ];

    let output = format_pinyin_output(&test_data, None);

    // Test output format
    for line in &output {
        assert!(line.contains(":"), "Each line should contain ':'");
        let parts: Vec<&str> = line.split(':').collect();
        assert_eq!(parts.len(), 2, "Each line should have exactly one ':'");
    }
}

#[test]
fn main_test_group_by_tone_found() {
    let records = create_test_records();
    let result = group_by_tone(&records, "ji", false);

    assert!(result.is_some());
    let tone_groups = result.unwrap();

    // ji has 2 characters (tone 1: 机, tone 4: 计)
    assert_eq!(tone_groups.len(), 2);

    // Should be sorted by tone order
    assert_eq!(tone_groups[0].0, 1); // tone 1
    assert_eq!(tone_groups[0].2, vec!["机"]); // 机

    assert_eq!(tone_groups[1].0, 4); // tone 4
    assert_eq!(tone_groups[1].2, vec!["计"]); // 计
}

#[test]
fn main_test_group_by_tone_traditional() {
    let records = create_test_records();
    let result = group_by_tone(&records, "ji", true);

    assert!(result.is_some());
    let tone_groups = result.unwrap();

    // Traditional characters should be used
    assert_eq!(tone_groups[0].2, vec!["機"]); // 機 (traditional)
    assert_eq!(tone_groups[1].2, vec!["計"]); // 計 (traditional)
}

#[test]
fn main_test_group_by_tone_not_found() {
    let records = create_test_records();
    let result = group_by_tone(&records, "nonexistent", false);

    assert!(result.is_none());
}

#[test]
fn main_test_group_by_tone_pinyin_with_tone_marks() {
    let records = create_test_records();
    let result = group_by_tone(&records, "ji", false);

    assert!(result.is_some());
    let tone_groups = result.unwrap();

    // pinyin should contain tone marks
    assert_eq!(tone_groups[0].1, "jī"); // tone 1
    assert_eq!(tone_groups[1].1, "jì"); // tone 4
}

#[test]
fn main_test_format_tone_output() {
    let test_data = vec![
        (1, "jī".to_string(), vec!["机".to_string()]),
        (
            4,
            "jì".to_string(),
            vec!["计".to_string(), "记".to_string()],
        ),
    ];

    let output = format_tone_output(&test_data);

    assert_eq!(output.len(), 2);
    assert_eq!(output[0], "jī: 机");
    assert_eq!(output[1], "jì: 计记");
}

#[test]
fn main_test_format_tone_output_empty() {
    let test_data = vec![];
    let output = format_tone_output(&test_data);

    assert!(output.is_empty());
}

#[test]
fn main_test_tone_sorting() {
    let mut records = create_test_records();
    // Additional test data: tone 5 (neutral tone)
    records.push(HanziRecord {
        frequency: 4,
        simplified: "吗".to_string(),
        traditional: "嗎".to_string(),
        pinyin: "ma".to_string(),
        pinyin_without_tone: "ma".to_string(),
        tone: 5, // neutral tone
        onset: HanziOnset::M,
        rime: HanziRime::A,
    });

    let result = group_by_tone(&records, "ma", false);
    assert!(result.is_some());
    let tone_groups = result.unwrap();

    // Should contain tone 3 (马) and tone 5 (吗)
    assert_eq!(tone_groups.len(), 2);
    assert_eq!(tone_groups[0].0, 3); // tone 3 comes first
    assert_eq!(tone_groups[1].0, 5); // tone 5 comes after
}

#[test]
fn main_test_pinyin_v_to_u_replacement() {
    // Test that 'v' in pinyin input gets replaced with 'ü'
    let records = vec![HanziRecord {
        frequency: 1,
        simplified: "女".to_string(),
        traditional: "女".to_string(),
        pinyin: "nǚ".to_string(),
        pinyin_without_tone: "nü".to_string(),
        tone: 3,
        onset: HanziOnset::N,
        rime: HanziRime::V,
    }];

    // Search with 'v' should not find characters with 'ü' at the low level
    let result = group_by_tone(&records, "nv", false);
    assert!(
        result.is_none(),
        "Direct search with 'v' should not find 'ü' characters"
    );

    // But the normalized search should work
    let result_with_u = group_by_tone(&records, "nü", false);
    assert!(
        result_with_u.is_some(),
        "Search with 'ü' should find characters"
    );
}
