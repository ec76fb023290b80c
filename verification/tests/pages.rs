use qf_codec::convert_html_to_qf::{
    collect_present, extract_md5_hash, is_known, log_page, pick_first, process_html_file,
    remember_hash, write_log_entry, PageReport,
};

const EMPTY_DIGEST: &str = "d41d8cd98f00b204e9800998ecf8427e";

fn page(moves: &[&str]) -> String {
    let mut text = String::from("<html><head><script>var x = 1;</script>\n");
    text.push_str("<script type=\"application/json\">{\"game\": [");
    for (i, mv) in moves.iter().enumerate() {
        if i > 0 {
            text.push_str(", ");
        }
        text.push_str("{\"quoridorstrats_notation\": \"");
        text.push_str(mv);
        text.push_str("\"}");
    }
    text.push_str("]}</script></head><body></body></html>\n");
    text
}

fn digest_of(contents: &str) -> String {
    let mut known: Vec<String> = Vec::new();
    match process_html_file(contents, "p", &mut known) {
        Ok(PageReport::Encoded { .. }) => known.pop().unwrap(),
        other => panic!("no digest: {:?}", other),
    }
}

#[test]
fn digest_is_read_from_a_log_entry() {
    let line = "QGCLJPRA <- (games/a.html) [MD5: 900150983cd24fb0d6963f7d28e17f72]";
    assert_eq!(extract_md5_hash(line), Some("900150983cd24fb0d6963f7d28e17f72".to_string()));
}

#[test]
fn digest_is_the_first_one_of_a_line() {
    let line = "[MD5: abc] [MD5: def]";
    assert_eq!(extract_md5_hash(line), Some("abc".to_string()));
}

#[test]
fn line_without_a_digest_has_none() {
    assert_eq!(extract_md5_hash(""), None);
    assert_eq!(extract_md5_hash("Error: encoding notations: QFEncodeError"), None);
    assert_eq!(extract_md5_hash("[MD5: ]"), None);
    assert_eq!(extract_md5_hash("[MD5: XYZ]"), None);
    assert_eq!(extract_md5_hash("[md5: abc]"), None);
    assert_eq!(extract_md5_hash("[MD5: abc"), None);
}

#[test]
fn log_entry_is_code_path_and_digest() {
    assert_eq!(
        write_log_entry("QGCLJPRA", "games/a.html", EMPTY_DIGEST),
        "QGCLJPRA <- (games/a.html) [MD5: d41d8cd98f00b204e9800998ecf8427e]"
    );
}

#[test]
fn digest_of_a_log_entry_is_read_back() {
    let entry = write_log_entry("QBA", "dir/\u{e9}.html", EMPTY_DIGEST);
    assert_eq!(extract_md5_hash(&entry), Some(EMPTY_DIGEST.to_string()));
}

#[test]
fn known_digests_are_found() {
    let known = vec!["abc".to_string(), "def".to_string()];
    assert!(is_known(&known, &"abc".to_string()));
    assert!(is_known(&known, &"def".to_string()));
    assert!(!is_known(&known, &"ab".to_string()));
    assert!(!is_known(&Vec::new(), &"abc".to_string()));
}

#[test]
fn digest_of_a_line_is_remembered_once() {
    let mut known: Vec<String> = Vec::new();
    remember_hash(&mut known, "QBA <- (a.html) [MD5: 0123abc]");
    remember_hash(&mut known, "no digest here");
    remember_hash(&mut known, "QBA <- (b.html) [MD5: 0123abc]");
    remember_hash(&mut known, "QBI <- (c.html) [MD5: ffff]");
    assert_eq!(known, vec!["0123abc".to_string(), "ffff".to_string()]);
}

#[test]
fn group_of_a_first_match_is_picked() {
    assert_eq!(pick_first(Some(Some("x".to_string()))), Some("x".to_string()));
    assert_eq!(pick_first(Some(None)), None);
    assert_eq!(pick_first(None), None);
}

#[test]
fn groups_that_took_part_are_collected_in_order() {
    let groups = vec![Some("e2".to_string()), None, Some("d2h".to_string()), None];
    assert_eq!(collect_present(&groups), vec!["e2".to_string(), "d2h".to_string()]);
    assert_eq!(collect_present(&Vec::new()), Vec::<String>::new());
}

#[test]
fn page_with_moves_is_encoded_and_logged() {
    let contents = page(&["e2", "d2h", "f2", "e8", "e7v", "e7"]);
    let mut known: Vec<String> = Vec::new();
    let report = process_html_file(&contents, "games/a.html", &mut known).unwrap();
    assert_eq!(known.len(), 1);
    let digest = known[0].clone();
    assert_eq!(digest.len(), 32);
    assert!(digest.chars().all(|c| "0123456789abcdef".contains(c)));
    assert_eq!(
        report,
        PageReport::Encoded {
            code: "QGCLJPRA".to_string(),
            entry: Some(format!("QGCLJPRA <- (games/a.html) [MD5: {}]", digest)),
        }
    );
}

#[test]
fn page_seen_before_is_encoded_and_not_logged() {
    let contents = page(&["e2", "d2h", "f2", "e8", "e7v", "e7"]);
    let mut known: Vec<String> = vec![digest_of(&contents)];
    let report = process_html_file(&contents, "games/b.html", &mut known).unwrap();
    assert_eq!(report, PageReport::Encoded { code: "QGCLJPRA".to_string(), entry: None });
    assert_eq!(known.len(), 1);
}

#[test]
fn pages_with_other_text_have_other_digests() {
    let first = page(&["e2"]);
    let second = page(&["e2", "e8"]);
    assert_ne!(digest_of(&first), digest_of(&second));
    assert_eq!(digest_of(&first), digest_of(&first));
}

#[test]
fn digest_is_md5_in_hexadecimal() {
    let mut known: Vec<String> = Vec::new();
    let report = log_page(&vec!["e2".to_string()], EMPTY_DIGEST.to_string(), "x", &mut known);
    assert_eq!(
        report,
        PageReport::Encoded {
            code: "QBA".to_string(),
            entry: Some("QBA <- (x) [MD5: d41d8cd98f00b204e9800998ecf8427e]".to_string()),
        }
    );
    let contents = "<script>\"quoridorstrats_notation\":\"e2\"</script>";
    assert_eq!(digest_of(contents), "80772fa907c74e1085fbe428a71a9033");
}

#[test]
fn page_without_a_script_block_is_reported() {
    let mut known: Vec<String> = Vec::new();
    let report = process_html_file("<html><body>no game</body></html>", "a.html", &mut known);
    assert_eq!(report, Ok(PageReport::NoScript));
    assert!(known.is_empty());
    let report = process_html_file("<script>var x = 1;</script>", "a.html", &mut known);
    assert_eq!(report, Ok(PageReport::NoScript));
    let report = process_html_file("\"quoridorstrats_notation\": \"e2\"", "a.html", &mut known);
    assert_eq!(report, Ok(PageReport::NoScript));
    assert!(known.is_empty());
}

#[test]
fn page_whose_moves_have_no_code_is_refused() {
    let contents = page(&["e2", "f7"]);
    let mut known: Vec<String> = Vec::new();
    let report = process_html_file(&contents, "a.html", &mut known);
    assert_eq!(report, Ok(PageReport::Refused));
    assert!(known.is_empty());
}

#[test]
fn script_block_with_the_key_and_no_move_is_refused() {
    let contents = "<script>{\"quoridorstrats_notation\": 5}</script>";
    let mut known: Vec<String> = Vec::new();
    assert_eq!(process_html_file(contents, "a.html", &mut known), Ok(PageReport::Refused));
}

#[test]
fn moves_of_one_value_are_taken_as_they_stand() {
    let contents = page(&["e2,e8", "e3"]);
    let mut known: Vec<String> = Vec::new();
    let report = process_html_file(&contents, "a.html", &mut known).unwrap();
    match report {
        PageReport::Encoded { code, .. } => assert_eq!(code, "QDBA"),
        other => panic!("not encoded: {:?}", other),
    }
}

#[test]
fn moves_are_taken_from_the_first_block_that_holds_any() {
    let mut contents = page(&["e2"]);
    contents.push_str(&page(&["e2", "e8", "e3"]));
    let mut known: Vec<String> = Vec::new();
    let report = process_html_file(&contents, "a.html", &mut known).unwrap();
    match report {
        PageReport::Encoded { code, .. } => assert_eq!(code, "QBA"),
        other => panic!("not encoded: {:?}", other),
    }
}

#[test]
fn page_report_for_given_moves() {
    let mut known = vec!["aa".to_string()];
    let moves = vec!["e2".to_string(), "e8".to_string()];
    let report = log_page(&moves, "bb".to_string(), "p.html", &mut known);
    assert_eq!(
        report,
        PageReport::Encoded {
            code: "QCBA".to_string(),
            entry: Some("QCBA <- (p.html) [MD5: bb]".to_string()),
        }
    );
    assert_eq!(known, vec!["aa".to_string(), "bb".to_string()]);
    let report = log_page(&moves, "aa".to_string(), "q.html", &mut known);
    assert_eq!(report, PageReport::Encoded { code: "QCBA".to_string(), entry: None });
    assert_eq!(known, vec!["aa".to_string(), "bb".to_string()]);
    let report = log_page(&Vec::new(), "cc".to_string(), "r.html", &mut known);
    assert_eq!(report, PageReport::Refused);
    assert_eq!(known, vec!["aa".to_string(), "bb".to_string()]);
}
