use ichiran::{report_from_lines, IchiranCli, IchiranError, RomanizedWithInfoEntry};
use std::path::PathBuf;

fn ichiran() -> IchiranCli {
    IchiranCli::new(PathBuf::from("./data/ichiran-cli"))
}

/// What `ichiran-cli -i 一覧は最高だぞ` prints.
const INFO_OUTPUT: &str = "ichiran wa saikō da zo\n\
* ichiran  一覧 【いちらん】\n\
1. [n,vs,vt] look; glance; sight; having a look at; looking over; glancing through; running one's eyes over\n\
2. [n] summary; list; table; catalog; catalogue\n\
\n\
* wa  は\n\
1. [prt] 《pronounced わ in modern Japanese》 indicates sentence topic\n\
2. [prt] indicates contrast with another option (stated or unstated)\n\
3. [prt] adds emphasis\n\
\n\
* saikō  最高 【さいこう】\n\
1. [adj-no,adj-na,n] best; supreme; wonderful; finest\n\
2. [n,adj-na,adj-no] highest; maximum; most; uppermost; supreme\n\
\n\
* da  だ\n\
1. [aux-v,cop-da,cop] 《plain copula》 be; is\n\
\n";

#[test]
fn romanizes() {
    // the output of `ichiran-cli ""`, `ichiran-cli test` and `ichiran-cli 一覧は最高だぞ`
    let out = ichiran().romanize("\n");
    assert!(out.is_empty());

    let out = ichiran().romanize("test\n");
    assert_eq!(out, "test");

    let out = ichiran().romanize("ichiran wa saikō da zo\n");
    assert_eq!(out, "ichiran wa saikō da zo");
}

#[test]
fn romanizes_with_info() {
    let out = ichiran().romanize_with_info(INFO_OUTPUT).unwrap();
    assert_eq!(out.romanized, "ichiran wa saikō da zo");
    assert_eq!(
        out.entries[0],
        RomanizedWithInfoEntry {
            word: "* ichiran  一覧 【いちらん】".to_string(),
            alternatives: vec![
                "1. [n,vs,vt] look; glance; sight; having a look at; looking over; glancing through; running one's eyes over".to_string(),
                "2. [n] summary; list; table; catalog; catalogue".to_string()
            ]
        }
    );
    assert_eq!(
        out.entries[1],
        RomanizedWithInfoEntry {
            word: "* wa  は".to_string(),
            alternatives: vec![
                "1. [prt] 《pronounced わ in modern Japanese》 indicates sentence topic".to_string(),
                "2. [prt] indicates contrast with another option (stated or unstated)".to_string(),
                "3. [prt] adds emphasis".to_string()
            ]
        }
    );
    assert_eq!(
        out.entries[2],
        RomanizedWithInfoEntry {
            word: "* saikō  最高 【さいこう】".to_string(),
            alternatives: vec![
                "1. [adj-no,adj-na,n] best; supreme; wonderful; finest".to_string(),
                "2. [n,adj-na,adj-no] highest; maximum; most; uppermost; supreme".to_string()
            ]
        }
    );
    assert_eq!(
        out.entries[3],
        RomanizedWithInfoEntry {
            word: "* da  だ".to_string(),
            alternatives: vec!["1. [aux-v,cop-da,cop] 《plain copula》 be; is".to_string()]
        }
    );
    assert_eq!(out.entries.len(), 4);
}

#[test]
fn groups_report_lines() {
    let text = "iitenki desu ne.\n* iitenki  いい天気\n1. fine weather\n\n* desu  です\n1. be; is\n";
    let out = ichiran().romanize_with_info(text).unwrap();
    assert_eq!(out.romanized, "iitenki desu ne.");
    assert_eq!(out.entries.len(), 2);
    assert_eq!(out.entries[0].word, "* iitenki  いい天気");
    assert_eq!(out.entries[0].alternatives, vec!["1. fine weather".to_string()]);
    assert_eq!(out.entries[1].word, "* desu  です");
    assert_eq!(out.entries[1].alternatives, vec!["1. be; is".to_string()]);
}

#[test]
fn closes_last_entry_at_end_of_output() {
    let out = ichiran().romanize_with_info("a\n* a  あ\n1. x\n2. y").unwrap();
    assert_eq!(out.entries.len(), 1);
    assert_eq!(out.entries[0].alternatives, vec!["1. x".to_string(), "2. y".to_string()]);
}

#[test]
fn skips_repeated_blank_lines() {
    let out = ichiran().romanize_with_info("a b\n\n\n* a  あ\n\n\n* b  い\n1. z\n\n").unwrap();
    assert_eq!(out.romanized, "a b");
    assert_eq!(out.entries.len(), 2);
    assert_eq!(out.entries[0].word, "* a  あ");
    assert!(out.entries[0].alternatives.is_empty());
    assert_eq!(out.entries[1].word, "* b  い");
}

#[test]
fn empty_output_is_unexpected() {
    let out = ichiran().romanize_with_info("");
    match out {
        Err(IchiranError::UnexpectedOutput(s)) => assert_eq!(s, ""),
        _ => panic!("expected UnexpectedOutput"),
    }
}

#[test]
fn blank_report_is_empty() {
    let out = ichiran().romanize_with_info("\n").unwrap();
    assert!(out.romanized.is_empty());
    assert!(out.entries.is_empty());
    let out = report_from_lines("\n", &vec![String::new()]).unwrap();
    assert!(out.romanized.is_empty());
    assert!(out.entries.is_empty());
}

#[test]
fn trims_trailing_whitespace_of_romanization() {
    let out = ichiran().romanize_with_info("kore  \t\r\n").unwrap();
    assert_eq!(out.romanized, "kore");
    assert_eq!(ichiran().romanize("sore \r\n\n"), "sore");
    assert_eq!(ichiran().cli_path(), &PathBuf::from("./data/ichiran-cli"));
}

#[test]
fn report_from_lines_groups_given_lines() {
    let lines: Vec<String> = vec!["x ".into(), "* x".into(), "1. one".into(), "".into(), "* y".into()];
    let out = report_from_lines("ignored", &lines).unwrap();
    assert_eq!(out.romanized, "x");
    assert_eq!(out.entries.len(), 2);
    assert_eq!(out.entries[1].word, "* y");
    assert!(report_from_lines("text", &vec![]).is_err());
}
