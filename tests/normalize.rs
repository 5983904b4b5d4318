use ichiran::raw;
use ichiran::{normalize, Alternative, Counter, Gloss, Segment};

fn raw_gloss(pos: &str, gloss: &str, info: Option<&str>) -> raw::Gloss {
    raw::Gloss {
        pos: pos.to_string(),
        gloss: gloss.to_string(),
        field: Some("field".to_string()),
        info: info.map(|s| s.to_string()),
    }
}

fn raw_word_info(text: &str, counter: Option<raw::Counter>) -> raw::WordInfo {
    raw::WordInfo {
        reading: format!("{text} 【よみ】"),
        text: text.to_string(),
        kana: "かな".to_string(),
        score: 42,
        counter,
        seq: Some(1_234_567),
        gloss: vec![raw_gloss("[n]", "list", None), raw_gloss("[vs]", "look", Some("note"))],
        suffix: None,
        conj: vec![],
    }
}

fn word(romanized: &str, alternatives: raw::Alternatives) -> raw::Word {
    raw::Word(romanized.to_string(), alternatives, vec![])
}

fn single(info: raw::WordInfo) -> raw::Alternatives {
    raw::Alternatives::WordInfo(raw::Alternative::WordInfo(info))
}

#[test]
fn keeps_words_glosses_and_scores() {
    let doc = raw::FullSplitInfo(vec![
        raw::Segment::Segmentations(vec![
            raw::Segmentation(vec![word("ichiran", single(raw_word_info("一覧", None)))], 12),
            raw::Segmentation(vec![], -3),
        ]),
        raw::Segment::Other("。".to_string()),
    ]);
    let out = normalize(doc);
    assert_eq!(out.len(), 2);
    let Segment::Segmentations(segs) = &out[0] else { panic!("expected segmentations") };
    assert_eq!(segs.len(), 2);
    assert_eq!(segs[0].score, 12);
    assert_eq!(segs[1].score, -3);
    assert_eq!(segs[0].words[0].romanized, "ichiran");
    let Alternative::WordInfo(info) = &segs[0].words[0].alternatives[0] else { panic!("expected word info") };
    assert_eq!(info.text, "一覧");
    assert_eq!(info.reading, "一覧 【よみ】");
    assert_eq!(info.score, 42);
    assert_eq!(info.seq, Some(1_234_567));
    assert_eq!(
        info.gloss,
        vec![
            Gloss { pos: "[n]".to_string(), gloss: "list".to_string(), info: None },
            Gloss { pos: "[vs]".to_string(), gloss: "look".to_string(), info: Some("note".to_string()) },
        ]
    );
    assert_eq!(out[1], Segment::Other("。".to_string()));
}

#[test]
fn normalizing_twice_gives_equal_documents() {
    let doc = || {
        raw::FullSplitInfo(vec![
            raw::Segment::Other("、".to_string()),
            raw::Segment::Segmentations(vec![raw::Segmentation(vec![word("a", single(raw_word_info("あ", None)))], 1)]),
        ])
    };
    assert_eq!(normalize(doc()), normalize(doc()));
}

#[test]
fn resolves_ordinal_shapes() {
    let array = raw::Counter { value: "hitori".to_string(), ordinal: raw::Ordinal::Vec(vec![]) };
    assert_eq!(Counter::from_raw(array), Counter { value: "hitori".to_string(), ordinal: false });
    let yes = raw::Counter { value: "ichinin".to_string(), ordinal: raw::Ordinal::Bool(true) };
    assert_eq!(Counter::from_raw(yes), Counter { value: "ichinin".to_string(), ordinal: true });
    let no = raw::Counter { value: "ni".to_string(), ordinal: raw::Ordinal::Bool(false) };
    assert_eq!(Counter::from_raw(no).ordinal, false);

    let counted = raw_word_info("一人", Some(raw::Counter { value: "hitori".to_string(), ordinal: raw::Ordinal::Vec(vec![]) }));
    let info = ichiran::WordInfo::from_raw(counted);
    assert_eq!(info.counter, Some(Counter { value: "hitori".to_string(), ordinal: false }));
}

#[test]
fn single_and_wrapped_alternatives_agree() {
    let alone = Alternative::list_from_raw(single(raw_word_info("最高", None)));
    let wrapped = Alternative::list_from_raw(raw::Alternatives::Alternatives {
        alternative: vec![raw::Alternative::WordInfo(raw_word_info("最高", None))],
    });
    assert_eq!(alone.len(), 1);
    assert_eq!(alone, wrapped);
}

#[test]
fn keeps_order_of_wrapped_alternatives() {
    let list = Alternative::list_from_raw(raw::Alternatives::Alternatives {
        alternative: vec![
            raw::Alternative::WordInfo(raw_word_info("一", None)),
            raw::Alternative::CompoundWordInfo(raw::CompoundWordInfo {
                reading: "r".to_string(),
                text: "一人目".to_string(),
                kana: "ひとりめ".to_string(),
                score: 7,
                compound: vec!["一人".to_string(), "目".to_string()],
                components: vec![raw_word_info("一人", None), raw_word_info("目", None)],
            }),
        ],
    });
    assert_eq!(list.len(), 2);
    let Alternative::WordInfo(first) = &list[0] else { panic!("expected word info") };
    assert_eq!(first.text, "一");
    let Alternative::CompoundWordInfo(second) = &list[1] else { panic!("expected compound") };
    assert_eq!(second.compound, vec!["一人".to_string(), "目".to_string()]);
    assert_eq!(second.components.len(), 2);
    assert_eq!(second.components[1].text, "目");
    assert_eq!(second.score, 7);
}

#[test]
fn resolves_conjugation_shapes() {
    let prop = |t: raw::PropType| raw::ConjProp { pos: "v1".to_string(), prop_type: t, fml: true, neg: false };
    let conj = raw::Conj {
        prop: vec![prop(raw::PropType::String("Past (~ta)".to_string())), prop(raw::PropType::Vec(vec![]))],
        via: vec![raw::Via {
            prop: vec![prop(raw::PropType::Vec(vec![]))],
            reading: Some("みる".to_string()),
            gloss: vec![raw_gloss("[v1]", "to see", None)],
            readok: raw::Readok::Vec(vec![]),
        }],
        reading: None,
        gloss: vec![],
        readok: raw::Readok::Bool(true),
    };
    let out = ichiran::Conj::from_raw(conj);
    assert_eq!(out.prop[0].prop_type, Some("Past (~ta)".to_string()));
    assert_eq!(out.prop[1].prop_type, None);
    assert!(out.prop[0].fml);
    assert!(!out.prop[0].neg);
    assert!(out.readok);
    assert_eq!(out.via.len(), 1);
    assert!(!out.via[0].readok);
    assert_eq!(out.via[0].reading, Some("みる".to_string()));
    assert_eq!(out.via[0].gloss[0].gloss, "to see");
    assert_eq!(out.via[0].prop[0].prop_type, None);
}

#[test]
fn empty_document_normalizes_to_nothing() {
    assert!(normalize(raw::FullSplitInfo(vec![])).is_empty());
}
