//! From saved game pages to QF codes.
//!
//! A page holds the moves of a game in a script block, each as the value of
//! a `"quoridorstrats_notation"` key. The moves of a page are joined to one
//! notation and encoded, and a page that was not seen before gets an entry
//! in a log, under the MD5 digest of its text.
//!
//! Patterns are matched by the `regex` crate and digests are computed by the
//! `crypto` crate. What they return is not proved here: the contracts speak
//! of it under the names [`regex_is_valid`], [`regex_first_capture`],
//! [`regex_every_capture`] and [`md5_hex_digest`].

use crate::notation::{join_commas, join_tokens, texts};
use crate::qf_encode::{encode, encode_spec};
use vstd::prelude::*;

verus! {

/// The error of the `regex` crate for a pattern that it does not compile.
#[verifier::external_type_specification]
#[verifier::external_body]
pub struct ExRegexError(regex::Error);

/// Whether `regex::Regex::new` compiles the pattern.
pub uninterp spec fn regex_is_valid(pattern: Seq<char>) -> bool;

/// What `regex::Regex::captures` finds: `None` where the pattern matches
/// nowhere in the text, and else the part of the text that group `group`
/// took in the first match, or `None` where the group took no part in it.
pub uninterp spec fn regex_first_capture(pattern: Seq<char>, haystack: Seq<char>, group: int)
    -> Option<Option<Seq<char>>>;

/// What `regex::Regex::captures_iter` finds: for each match in the text, in
/// order, the part that group `group` took in it, or `None` where the group
/// took no part in it.
pub uninterp spec fn regex_every_capture(pattern: Seq<char>, haystack: Seq<char>, group: int)
    -> Seq<Option<Seq<char>>>;

/// The MD5 digest of a text in UTF-8, in hexadecimal, as
/// `crypto::md5::Md5` computes it.
pub uninterp spec fn md5_hex_digest(text: Seq<char>) -> Seq<char>;

/// The text of a group, where it took part in a match.
pub open spec fn group_text(group: Option<String>) -> Option<Seq<char>> {
    match group {
        Some(text) => Some(text@),
        None => None,
    }
}

/// The texts of the groups of a list of matches.
pub open spec fn group_texts(groups: Seq<Option<String>>) -> Seq<Option<Seq<char>>> {
    Seq::new(groups.len(), |i: int| group_text(groups[i]))
}

/// The first match of a pattern in contracts.
pub open spec fn first_text(found: Option<Option<String>>) -> Option<Option<Seq<char>>> {
    match found {
        Some(group) => Some(group_text(group)),
        None => None,
    }
}

/// Calls `regex::Regex::new` on the pattern and `Regex::captures` on the
/// text, and hands out group `group` of what was found, through
/// `Captures::get` and `Match::as_str`. The contract claims no more than
/// that the outcome is the one that bears these functions' names: an error
/// exactly where the pattern does not compile.
#[verifier::external_body]
fn first_capture(pattern: &str, haystack: &str, group: usize) -> (found: Result<
    Option<Option<String>>,
    regex::Error,
>)
    ensures
        found is Ok <==> regex_is_valid(pattern@),
        found is Ok ==> first_text(found->Ok_0) == regex_first_capture(
            pattern@,
            haystack@,
            group as int,
        ),
{
    let compiled = regex::Regex::new(pattern)?;
    let first = compiled.captures(haystack);
    Ok(first.map(|caps| caps.get(group).map(|part| part.as_str().to_string())))
}

/// Calls `regex::Regex::new` on the pattern and `Regex::captures_iter` on
/// the text, and hands out group `group` of each match, through
/// `Captures::get` and `Match::as_str`. The contract claims no more than
/// that the outcome is the one that bears these functions' names: an error
/// exactly where the pattern does not compile.
#[verifier::external_body]
fn every_capture(pattern: &str, haystack: &str, group: usize) -> (found: Result<
    Vec<Option<String>>,
    regex::Error,
>)
    ensures
        found is Ok <==> regex_is_valid(pattern@),
        found is Ok ==> group_texts(found->Ok_0@) == regex_every_capture(
            pattern@,
            haystack@,
            group as int,
        ),
{
    let compiled = regex::Regex::new(pattern)?;
    let all = compiled.captures_iter(haystack);
    Ok(all.map(|caps| caps.get(group).map(|part| part.as_str().to_string())).collect())
}

/// Feeds the text to a fresh `crypto::md5::Md5` with `Digest::input_str`
/// and takes the digest with `Digest::result_str`. The contract claims no
/// more than that the outcome is the digest of the text.
#[verifier::external_body]
fn md5_hex(text: &str) -> (digest: String)
    ensures
        digest@ == md5_hex_digest(text@),
{
    let mut hasher = crypto::md5::Md5::new();
    crypto::digest::Digest::input_str(&mut hasher, text);
    crypto::digest::Digest::result_str(&mut hasher)
}

/// A pattern of the library did not compile.
#[derive(Clone, Copy, Debug, PartialEq, Eq, Structural)]
pub enum PatternError {
    Rejected,
}

/// The pattern of the digest in a log entry. Its first group is the digest.
pub open spec fn md5_pattern() -> Seq<char> {
    "\\[MD5: ([a-f0-9]+)\\]"@
}

/// The pattern of a script block with moves in it. Its first group is what
/// stands inside the block.
pub open spec fn script_pattern() -> Seq<char> {
    "<script[^>]*>(?P<script>[\\s\\S]*?\"quoridorstrats_notation\":[\\s\\S]*?)</script>"@
}

/// The pattern of one move in a script block. Its first group is the move.
pub open spec fn notation_pattern() -> Seq<char> {
    "\"quoridorstrats_notation\":\\s*\"([^\"]+)\""@
}

/// The digest that a log entry records: the first group of the first match
/// of the digest pattern, where there is one.
pub open spec fn logged_hash(line: Seq<char>) -> Option<Seq<char>> {
    if regex_is_valid(md5_pattern()) {
        first_group(regex_first_capture(md5_pattern(), line, 1))
    } else {
        None
    }
}

/// The group of a first match, where there is a match and the group took
/// part in it.
pub open spec fn first_group(found: Option<Option<Seq<char>>>) -> Option<Seq<char>> {
    match found {
        Some(Some(text)) => Some(text),
        _ => None,
    }
}

/// The groups that took part in their matches, in order.
pub open spec fn present(groups: Seq<Option<Seq<char>>>) -> Seq<Seq<char>>
    decreases groups.len(),
{
    if groups.len() == 0 {
        Seq::empty()
    } else {
        match groups.last() {
            Some(text) => present(groups.drop_last()).push(text),
            None => present(groups.drop_last()),
        }
    }
}

/// The script block of a page: what stands inside the first block with
/// moves in it, or `None` where the page has no such block.
pub open spec fn page_script(contents: Seq<char>) -> Option<Seq<char>> {
    match regex_first_capture(script_pattern(), contents, 1) {
        Some(Some(text)) => Some(text),
        Some(None) => Some(Seq::empty()),
        None => None,
    }
}

/// The moves of a script block, in order.
pub open spec fn script_notations(script: Seq<char>) -> Seq<Seq<char>> {
    present(regex_every_capture(notation_pattern(), script, 1))
}

/// The entry of a page in the log: code, path and digest.
pub open spec fn log_entry(code: Seq<char>, path: Seq<char>, digest: Seq<char>) -> Seq<char> {
    code + " <- ("@ + path + ") [MD5: "@ + digest + "]"@
}

/// What becomes of a page in contracts.
pub enum Report {
    NoScript,
    Encoded { code: Seq<char>, entry: Option<Seq<char>> },
    Refused,
}

/// What becomes of a page: it has no script block with moves; or its moves
/// have a code, and an entry for the log where its digest was not known
/// before; or its moves have no code.
#[derive(Debug, PartialEq, Eq)]
pub enum PageReport {
    NoScript,
    Encoded { code: String, entry: Option<String> },
    Refused,
}

impl View for PageReport {
    type V = Report;

    open spec fn view(&self) -> Report {
        match self {
            PageReport::NoScript => Report::NoScript,
            PageReport::Encoded { code, entry } => Report::Encoded {
                code: code@,
                entry: group_text(*entry),
            },
            PageReport::Refused => Report::Refused,
        }
    }
}

/// What becomes of a page with the given moves and digest, where the
/// digests in `known` were seen before.
pub open spec fn page_report(
    notations: Seq<Seq<char>>,
    digest: Seq<char>,
    path: Seq<char>,
    known: Seq<Seq<char>>,
) -> Report {
    match encode_spec(join_commas(notations)) {
        Some(code) => Report::Encoded {
            code,
            entry: if known.contains(digest) {
                None
            } else {
                Some(log_entry(code, path, digest))
            },
        },
        None => Report::Refused,
    }
}

/// The digests known after a page: its own is new where the page has a code
/// and the digest was not known before.
pub open spec fn known_after(
    notations: Seq<Seq<char>>,
    digest: Seq<char>,
    known: Seq<Seq<char>>,
) -> Seq<Seq<char>> {
    if encode_spec(join_commas(notations)) is Some && !known.contains(digest) {
        known.push(digest)
    } else {
        known
    }
}

/// What becomes of a page with the given text.
pub open spec fn scanned_report(contents: Seq<char>, path: Seq<char>, known: Seq<Seq<char>>)
    -> Report {
    match page_script(contents) {
        Some(script) => page_report(
            script_notations(script),
            md5_hex_digest(contents),
            path,
            known,
        ),
        None => Report::NoScript,
    }
}

/// The digests known after a page with the given text.
pub open spec fn scanned_known(contents: Seq<char>, known: Seq<Seq<char>>) -> Seq<Seq<char>> {
    match page_script(contents) {
        Some(script) => known_after(script_notations(script), md5_hex_digest(contents), known),
        None => known,
    }
}

/// Whether the patterns that a scan of the page compiles are valid: the
/// script pattern, and the pattern of a move where there is a script block.
pub open spec fn scan_compiles(contents: Seq<char>) -> bool {
    regex_is_valid(script_pattern()) && (page_script(contents) is Some ==> regex_is_valid(
        notation_pattern(),
    ))
}

/// The group of a first match, where there is a match and the group took
/// part in it.
pub fn pick_first(found: Option<Option<String>>) -> (text: Option<String>)
    ensures
        group_text(text) == first_group(first_text(found)),
{
    match found {
        Some(Some(text)) => Some(text),
        _ => None,
    }
}

/// The groups that took part in their matches, in order.
pub fn collect_present(groups: &Vec<Option<String>>) -> (list: Vec<String>)
    ensures
        texts(list@) == present(group_texts(groups@)),
{
    let mut list: Vec<String> = Vec::new();
    let mut i: usize = 0;
    assert(group_texts(groups@).take(0) =~= Seq::<Option<Seq<char>>>::empty());
    assert(texts(list@) =~= Seq::<Seq<char>>::empty());
    while i < groups.len()
        invariant
            i <= groups.len(),
            texts(list@) == present(group_texts(groups@).take(i as int)),
        decreases groups.len() - i,
    {
        let ghost before = texts(list@);
        proof {
            let longer = group_texts(groups@).take(i + 1);
            assert(longer.drop_last() =~= group_texts(groups@).take(i as int));
            assert(longer.last() == group_text(groups@[i as int]));
        }
        match &groups[i] {
            Some(text) => {
                list.push(text.clone());
                assert(texts(list@) =~= before.push(text@));
            },
            None => {},
        }
        i = i + 1;
    }
    assert(group_texts(groups@).take(i as int) =~= group_texts(groups@));
    list
}

/// Whether the list holds the text.
pub fn is_known(known: &Vec<String>, text: &String) -> (found: bool)
    ensures
        found == texts(known@).contains(text@),
{
    let mut i: usize = 0;
    while i < known.len()
        invariant
            i <= known.len(),
            forall|k: int| 0 <= k < i ==> texts(known@)[k] != text@,
        decreases known.len() - i,
    {
        if known[i] == *text {
            assert(texts(known@)[i as int] == text@);
            return true;
        }
        i = i + 1;
    }
    false
}

/// Adds the digest that a log entry records to the known ones, where the
/// entry records one and it is not among them yet.
pub fn remember_hash(existing_hashes: &mut Vec<String>, line: &str)
    ensures
        texts(final(existing_hashes)@) == match logged_hash(line@) {
            Some(hash) => if texts(old(existing_hashes)@).contains(hash) {
                texts(old(existing_hashes)@)
            } else {
                texts(old(existing_hashes)@).push(hash)
            },
            None => texts(old(existing_hashes)@),
        },
{
    match extract_md5_hash(line) {
        Some(hash) => {
            if !is_known(existing_hashes, &hash) {
                existing_hashes.push(hash);
                assert(texts(existing_hashes@) =~= texts(old(existing_hashes)@).push(hash@));
            }
        },
        None => {},
    }
}

/// The digest that a log entry records, where it records one.
pub fn extract_md5_hash(line: &str) -> (hash: Option<String>)
    ensures
        group_text(hash) == logged_hash(line@),
{
    match first_capture("\\[MD5: ([a-f0-9]+)\\]", line, 1) {
        Ok(found) => pick_first(found),
        Err(_) => None,
    }
}

/// The entry of a page in the log: `code <- (path) [MD5: digest]`.
pub fn write_log_entry(code: &str, path: &str, digest: &str) -> (entry: String)
    ensures
        entry@ == log_entry(code@, path@, digest@),
{
    let mut entry = String::new();
    entry.append(code);
    entry.append(" <- (");
    entry.append(path);
    entry.append(") [MD5: ");
    entry.append(digest);
    entry.append("]");
    assert(entry@ =~= log_entry(code@, path@, digest@));
    entry
}

/// Decides what becomes of a page with the given moves and digest: the
/// moves are joined and encoded; a page with a code whose digest is not
/// known yet gets a log entry, and its digest is known from then on.
pub fn log_page(
    notations: &Vec<String>,
    digest: String,
    file_path: &str,
    existing_hashes: &mut Vec<String>,
) -> (report: PageReport)
    ensures
        report@ == page_report(
            texts(notations@),
            digest@,
            file_path@,
            texts(old(existing_hashes)@),
        ),
        texts(final(existing_hashes)@) == known_after(
            texts(notations@),
            digest@,
            texts(old(existing_hashes)@),
        ),
{
    let joined = join_tokens(notations);
    match encode(joined.as_str()) {
        Ok(code) => {
            if is_known(existing_hashes, &digest) {
                PageReport::Encoded { code, entry: None }
            } else {
                let entry = write_log_entry(code.as_str(), file_path, digest.as_str());
                existing_hashes.push(digest);
                assert(texts(existing_hashes@) =~= texts(old(existing_hashes)@).push(digest@));
                PageReport::Encoded { code, entry: Some(entry) }
            }
        },
        Err(_) => PageReport::Refused,
    }
}

/// Scans the text of a page and decides what becomes of it: the digest of
/// the text is taken, the moves are looked up in the first script block
/// that holds any, and the rest is as in [`log_page`]. An error where a
/// pattern does not compile; then the known digests stay as they are.
pub fn process_html_file(
    contents: &str,
    file_path: &str,
    existing_hashes: &mut Vec<String>,
) -> (report: Result<PageReport, PatternError>)
    ensures
        match report {
            Ok(report) => {
                &&& scan_compiles(contents@)
                &&& report@ == scanned_report(
                    contents@,
                    file_path@,
                    texts(old(existing_hashes)@),
                )
                &&& texts(final(existing_hashes)@) == scanned_known(
                    contents@,
                    texts(old(existing_hashes)@),
                )
            },
            Err(_) => {
                &&& !scan_compiles(contents@)
                &&& final(existing_hashes)@ == old(existing_hashes)@
            },
        },
{
    let digest = md5_hex(contents);
    let found = match first_capture(
        "<script[^>]*>(?P<script>[\\s\\S]*?\"quoridorstrats_notation\":[\\s\\S]*?)</script>",
        contents,
        1,
    ) {
        Ok(found) => found,
        Err(_) => {
            return Err(PatternError::Rejected);
        },
    };
    let script = match found {
        Some(Some(script)) => script,
        Some(None) => String::new(),
        None => {
            return Ok(PageReport::NoScript);
        },
    };
    let groups = match every_capture(
        "\"quoridorstrats_notation\":\\s*\"([^\"]+)\"",
        script.as_str(),
        1,
    ) {
        Ok(groups) => groups,
        Err(_) => {
            return Err(PatternError::Rejected);
        },
    };
    let notations = collect_present(&groups);
    Ok(log_page(&notations, digest, file_path, existing_hashes))
}

} // verus!
