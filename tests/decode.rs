use ichiran::raw;
use ichiran::{decode_structured, Alternative, IchiranCli, IchiranError, PathSegment, Segment};
use std::path::PathBuf;

fn ichiran() -> IchiranCli {
    IchiranCli::new(PathBuf::from("./data/ichiran-cli"))
}

const WORD_INFO: &str = r#"{"reading":"一覧 【いちらん】","text":"一覧","kana":"いちらん","score":384,"seq":1202470,
"gloss":[{"pos":"[n,vs,vt]","gloss":"look; glance"},{"pos":"[n]","gloss":"summary; list","info":"note"}]}"#;

fn document(alternatives: &str) -> String {
    format!(r#"[[[[["ichiran",{alternatives},[]]],384]],"。"]"#)
}

#[test]
fn decodes_words_glosses_and_scores() {
    let out = ichiran().segment(&document(WORD_INFO), true).unwrap();
    assert_eq!(out.len(), 2);
    let Segment::Segmentations(segs) = &out[0] else { panic!("expected segmentations") };
    assert_eq!(segs.len(), 1);
    assert_eq!(segs[0].score, 384);
    assert_eq!(segs[0].words[0].romanized, "ichiran");
    let Alternative::WordInfo(info) = &segs[0].words[0].alternatives[0] else { panic!("expected word info") };
    assert_eq!(info.text, "一覧");
    assert_eq!(info.kana, "いちらん");
    assert_eq!(info.score, 384);
    assert_eq!(info.seq, Some(1202470));
    assert_eq!(info.counter, None);
    assert_eq!(info.gloss.len(), 2);
    assert_eq!(info.gloss[0].pos, "[n,vs,vt]");
    assert_eq!(info.gloss[1].gloss, "summary; list");
    assert_eq!(info.gloss[1].info, Some("note".to_string()));
    assert!(info.conj.is_empty());
    assert_eq!(out[1], Segment::Other("。".to_string()));
}

#[test]
fn keeps_segment_order() {
    let text = format!(r#"["「",[[[["a",{WORD_INFO},[]]],1]],"、",[[[["b",{WORD_INFO},[]]],2]],"」"]"#);
    let out = ichiran().segment(&text, true).unwrap();
    assert_eq!(out.len(), 5);
    assert_eq!(out[0], Segment::Other("「".to_string()));
    assert_eq!(out[2], Segment::Other("、".to_string()));
    assert_eq!(out[4], Segment::Other("」".to_string()));
    let Segment::Segmentations(first) = &out[1] else { panic!("expected segmentations") };
    let Segment::Segmentations(second) = &out[3] else { panic!("expected segmentations") };
    assert_eq!(first[0].words[0].romanized, "a");
    assert_eq!(second[0].words[0].romanized, "b");
    assert_eq!(second[0].score, 2);
}

#[test]
fn keeps_segmentations_in_given_order() {
    let text = format!(r#"[[[[["x",{WORD_INFO},[]]],5],[[["y",{WORD_INFO},[]]],9],[[],5]]]"#);
    let out = ichiran().segment(&text, true).unwrap();
    let Segment::Segmentations(segs) = &out[0] else { panic!("expected segmentations") };
    assert_eq!(segs.iter().map(|s| s.score).collect::<Vec<_>>(), vec![5, 9, 5]);
}

#[test]
fn resolves_escaped_ordinal() {
    let counter = |ordinal: &str| {
        format!(r#"{{"reading":"一人","text":"一人","kana":"ひとり","score":10,"counter":{{"value":"hitori","ordinal":{ordinal}}}}}"#)
    };
    for (ordinal, expected) in [("[]", false), ("true", true), ("false", false)] {
        let out = ichiran().segment(&document(&counter(ordinal)), true).unwrap();
        let Segment::Segmentations(segs) = &out[0] else { panic!("expected segmentations") };
        let Alternative::WordInfo(info) = &segs[0].words[0].alternatives[0] else { panic!("expected word info") };
        let c = info.counter.as_ref().unwrap();
        assert_eq!(c.value, "hitori");
        assert_eq!(c.ordinal, expected);
    }
    let raw = decode_structured(&document(&counter("[]")), true).unwrap();
    let raw::Segment::Segmentations(segs) = &raw.0[0] else { panic!("expected segmentations") };
    let raw::Alternatives::WordInfo(raw::Alternative::WordInfo(info)) = &segs[0].0[0].1 else { panic!("expected one word info") };
    assert!(matches!(&info.counter.as_ref().unwrap().ordinal, raw::Ordinal::Vec(v) if v.is_empty()));
}

#[test]
fn refuses_non_empty_escape_array() {
    let text = document(r#"{"reading":"r","text":"t","kana":"k","score":1,"counter":{"value":"v","ordinal":[1]}}"#);
    assert!(matches!(ichiran().segment(&text, false), Err(IchiranError::Deserialization(_))));
}

#[test]
fn single_and_wrapped_alternatives_decode_alike() {
    let alone = ichiran().segment(&document(WORD_INFO), true).unwrap();
    let wrapped = ichiran().segment(&document(&format!(r#"{{"alternative":[{WORD_INFO}]}}"#)), true).unwrap();
    assert_eq!(alone, wrapped);
    let Segment::Segmentations(segs) = &wrapped[0] else { panic!("expected segmentations") };
    assert_eq!(segs[0].words[0].alternatives.len(), 1);
}

#[test]
fn reads_wrapped_alternatives_in_order() {
    let second = WORD_INFO.replace("\"score\":384", "\"score\":7");
    let text = document(&format!(r#"{{"alternative":[{WORD_INFO},{second}]}}"#));
    let out = ichiran().segment(&text, true).unwrap();
    let Segment::Segmentations(segs) = &out[0] else { panic!("expected segmentations") };
    let scores: Vec<i32> = segs[0].words[0]
        .alternatives
        .iter()
        .map(|a| match a {
            Alternative::WordInfo(w) => w.score,
            Alternative::CompoundWordInfo(c) => c.score,
        })
        .collect();
    assert_eq!(scores, vec![384, 7]);
}

#[test]
fn tells_compounds_by_their_compound_member() {
    let compound = format!(
        r#"{{"reading":"一人目","text":"一人目","kana":"ひとりめ","score":600,"compound":["一人","目"],"components":[{WORD_INFO},{WORD_INFO}]}}"#
    );
    let out = ichiran().segment(&document(&compound), true).unwrap();
    let Segment::Segmentations(segs) = &out[0] else { panic!("expected segmentations") };
    let Alternative::CompoundWordInfo(c) = &segs[0].words[0].alternatives[0] else { panic!("expected compound") };
    assert_eq!(c.compound, vec!["一人".to_string(), "目".to_string()]);
    assert_eq!(c.components.len(), 2);
    assert_eq!(c.components[0].text, "一覧");
    assert_eq!(c.score, 600);
}

#[test]
fn strict_mode_refuses_unknown_members() {
    let extra = WORD_INFO.replace("\"score\":384", "\"score\":384,\"novel\":true");
    let text = document(&extra);
    match ichiran().segment(&text, true) {
        Err(IchiranError::Deserialization(e)) => {
            assert_eq!(
                e.path,
                vec![
                    PathSegment::Index(0),
                    PathSegment::Index(0),
                    PathSegment::Index(0),
                    PathSegment::Index(0),
                    PathSegment::Index(1),
                    PathSegment::Key("novel".to_string()),
                ]
            );
        }
        _ => panic!("expected a schema error"),
    }
    let lenient = ichiran().segment(&text, false).unwrap();
    let plain = ichiran().segment(&document(WORD_INFO), false).unwrap();
    assert_eq!(lenient, plain);
}

#[test]
fn reports_path_of_mismatch() {
    let bad = WORD_INFO.replace("\"score\":384", "\"score\":\"high\"");
    let text = format!(r#"["。",[[[["a",{WORD_INFO},[]],["b",{bad},[]]],1]]]"#);
    match ichiran().segment(&text, false) {
        Err(IchiranError::Deserialization(e)) => assert_eq!(
            e.path,
            vec![
                PathSegment::Index(1),
                PathSegment::Index(0),
                PathSegment::Index(0),
                PathSegment::Index(1),
                PathSegment::Index(1),
                PathSegment::Key("score".to_string()),
            ]
        ),
        _ => panic!("expected a schema error"),
    }
}

#[test]
fn refuses_wrong_record_lengths() {
    let three = format!(r#"[[[[["a",{WORD_INFO},[]]],1,2]]]"#);
    assert!(matches!(ichiran().segment(&three, false), Err(IchiranError::Deserialization(_))));
    let two = format!(r#"[[[[["a",{WORD_INFO}]],1]]]"#);
    assert!(matches!(ichiran().segment(&two, false), Err(IchiranError::Deserialization(_))));
    assert!(matches!(ichiran().segment("{}", false), Err(IchiranError::Deserialization(_))));
}

#[test]
fn keeps_trailing_word_list() {
    let text = format!(r#"[[[[["a",{WORD_INFO},[1,"x"]]],1]]]"#);
    let raw = decode_structured(&text, true).unwrap();
    let raw::Segment::Segmentations(segs) = &raw.0[0] else { panic!("expected segmentations") };
    assert_eq!(segs[0].0[0].2, vec![ichiran::Json::Number(Some(1)), ichiran::Json::String("x".to_string())]);
}

#[test]
fn resolves_conjugation_shapes_from_text() {
    let info = r#"{"reading":"見た","text":"見た","kana":"みた","score":50,"conj":[{"prop":[{"pos":"v1","type":"Past (~ta)"},{"pos":"v1","type":[],"neg":true}],"via":[{"prop":[{"pos":"v1","type":"x","fml":true}],"readok":[]}],"reading":"見る","readok":true}]}"#;
    let out = ichiran().segment(&document(info), true).unwrap();
    let Segment::Segmentations(segs) = &out[0] else { panic!("expected segmentations") };
    let Alternative::WordInfo(w) = &segs[0].words[0].alternatives[0] else { panic!("expected word info") };
    let c = &w.conj[0];
    assert_eq!(c.prop[0].prop_type, Some("Past (~ta)".to_string()));
    assert_eq!(c.prop[1].prop_type, None);
    assert!(c.prop[1].neg && !c.prop[0].neg && !c.prop[0].fml);
    assert!(c.readok);
    assert_eq!(c.reading, Some("見る".to_string()));
    assert!(!c.via[0].readok);
    assert!(c.via[0].prop[0].fml);
    assert!(c.gloss.is_empty());
}

#[test]
fn empty_input_gives_empty_document() {
    assert!(ichiran().segment("[]", true).unwrap().is_empty());
    assert!(ichiran().segment("[]\n", false).unwrap().is_empty());
}

#[test]
fn refuses_text_that_is_not_json() {
    assert!(matches!(ichiran().segment("[[", true), Err(IchiranError::InvalidJson(_))));
    assert!(matches!(ichiran().segment("", true), Err(IchiranError::InvalidJson(_))));
}

#[test]
fn refuses_scores_outside_i32() {
    let big = WORD_INFO.replace("\"score\":384", "\"score\":3000000000");
    assert!(matches!(ichiran().segment(&document(&big), false), Err(IchiranError::Deserialization(_))));
    let fraction = WORD_INFO.replace("\"score\":384", "\"score\":1.5");
    assert!(matches!(ichiran().segment(&document(&fraction), false), Err(IchiranError::Deserialization(_))));
}

/// What `ichiran-cli -f 一覧は最高だぞ` prints, in part.
const SPLIT_OUTPUT: &str = r#"[[[[["ichiran",{"reading":"一覧 【いちらん】","text":"一覧","kana":"いちらん","score":384,"seq":1202470,"gloss":[{"pos":"[n,vs,vt]","gloss":"look; glance; sight"},{"pos":"[n]","gloss":"summary; list; table; catalog; catalogue"}]},[]],["wa",{"reading":"は","text":"は","kana":"は","score":11,"seq":2028920,"gloss":[{"pos":"[prt]","gloss":"indicates sentence topic","info":"pronounced わ in modern Japanese"}]},[]],["saikō",{"reading":"最高 【さいこう】","text":"最高","kana":"さいこう","score":544,"seq":1348030,"gloss":[{"pos":"[adj-no,adj-na,n]","gloss":"best; supreme; wonderful; finest"}]},[]],["da",{"reading":"だ","text":"だ","kana":"だ","score":0,"seq":2089020,"gloss":[{"pos":"[aux-v,cop-da,cop]","gloss":"be; is","info":"plain copula"}]},[]],["zo",{"reading":"ぞ","text":"ぞ","kana":"ぞ","score":11,"seq":2136890,"gloss":[{"pos":"[prt]","gloss":"adds force or indicates command"}]},[]]],1020]]]"#;

/// What `ichiran-cli -f 一人目` and `ichiran-cli -f -l 2 一人目` print, in part.
fn limited_output(limit: usize) -> String {
    let first = r#"[[["hitorime",{"reading":"一人目 【ひとりめ】","text":"一人目","kana":"ひとりめ","score":660,"compound":["一人","目"],"components":[{"reading":"一人 【ひとり】","text":"一人","kana":"ひとり","score":0,"counter":{"value":"Hitori","ordinal":[]},"seq":1576150},{"reading":"目 【め】","text":"目","kana":"め","score":0,"seq":1604890,"gloss":[{"pos":"[suf]","gloss":"indicates order"}]}]},[]]],660]"#;
    let second = r#"[[["ichinin",{"reading":"一人","text":"一人","kana":"いちにん","score":50,"counter":{"value":"Ichinin","ordinal":false}},[]],["me",{"reading":"目","text":"目","kana":"め","score":20}, []]],70]"#;
    let segs: Vec<&str> = [first, second].into_iter().take(limit).collect();
    format!("[[{}]]", segs.join(","))
}

#[test]
fn gets_full_split_info() {
    let ichiran = ichiran();
    let _segmented = ichiran.segment(SPLIT_OUTPUT, false).unwrap();
}

#[test]
fn uses_limit() {
    let ichiran = ichiran();
    let segmented = ichiran.segment(&limited_output(1), false).unwrap();
    let Segment::Segmentations(segmentations) = &segmented[0] else {
        panic!();
    };
    assert_eq!(segmentations.len(), 1);
    let segmented = ichiran.segment(&limited_output(2), false).unwrap();
    let Segment::Segmentations(segmentations) = &segmented[0] else {
        panic!();
    };
    assert_eq!(segmentations.len(), 2);
}

#[test]
fn reports_path_into_nested_lists() {
    let extra = WORD_INFO.replace("\"gloss\":\"summary; list\"", "\"gloss\":\"summary; list\",\"novel\":1");
    match ichiran().segment(&document(&extra), true) {
        Err(IchiranError::Deserialization(e)) => assert_eq!(
            e.path,
            vec![
                PathSegment::Index(0),
                PathSegment::Index(0),
                PathSegment::Index(0),
                PathSegment::Index(0),
                PathSegment::Index(1),
                PathSegment::Key("gloss".to_string()),
                PathSegment::Index(1),
                PathSegment::Key("novel".to_string()),
            ]
        ),
        _ => panic!("expected a schema error"),
    }
}

#[test]
fn refuses_values_nested_too_deep() {
    let deep = format!("{}{}", "[".repeat(127), "]".repeat(127));
    assert!(matches!(ichiran().segment(&deep, true), Err(IchiranError::Deserialization(_))));
    let deeper = format!("{}{}", "[".repeat(129), "]".repeat(129));
    assert!(matches!(ichiran().segment(&deeper, true), Err(IchiranError::InvalidJson(_))));
}
