use vstd::prelude::*;

use crate::errors::SearchError;

verus! {

/// One line read from a file: its text, or a marker for a line that could
/// not be decoded as text. An undecodable line still counts towards the
/// line numbering but produces no match and no report.
pub enum LineRead {
    Text(String),
    Undecodable,
}

/// A reported match: the file it was found in, the zero-based number of the
/// matching line, and the full text of that line.
#[derive(Debug)]
pub struct MatchRecord {
    pub file_path: String,
    pub line_number: usize,
    pub line_text: String,
}

/// Whether `needle` occurs in `hay` starting at position `i`.
pub open spec fn match_at(hay: Seq<char>, needle: Seq<char>, i: int) -> bool {
    &&& 0 <= i
    &&& i + needle.len() <= hay.len()
    &&& hay.subrange(i, i + needle.len() as int) == needle
}

/// Whether `needle` occurs in `hay` as a contiguous substring.
pub open spec fn contains_term(hay: Seq<char>, needle: Seq<char>) -> bool {
    exists|i: int| match_at(hay, needle, i)
}

/// Compares `term` against the characters of `line` starting at `start`.
fn term_matches_at(line: &str, term: &str, start: usize) -> (r: bool)
    requires
        line@.len() <= usize::MAX,
        start + term@.len() <= line@.len(),
    ensures
        r == match_at(line@, term@, start as int),
{
    let term_len = term.unicode_len();
    let mut j: usize = 0;
    while j < term_len
        invariant
            j <= term_len,
            term_len == term@.len(),
            line@.len() <= usize::MAX,
            start + term_len <= line@.len(),
            forall|k: int| 0 <= k < j ==> line@[start + k] == term@[k],
        decreases term_len - j,
    {
        if line.get_char(start + j) != term.get_char(j) {
            assert(line@.subrange(start as int, start + term@.len() as int)[j as int]
                != term@[j as int]);
            return false;
        }
        j += 1;
    }
    assert(line@.subrange(start as int, start + term@.len() as int) =~= term@);
    true
}

/// Exact, case-sensitive substring test: whether `line` contains `term`.
pub fn line_contains_term(line: &str, term: &str) -> (r: bool)
    ensures
        r == contains_term(line@, term@),
{
    let line_len = line.unicode_len();
    let term_len = term.unicode_len();
    if term_len > line_len {
        assert(forall|i: int| !match_at(line@, term@, i));
        return false;
    }
    if term_len == 0 {
        assert(line@.subrange(0, 0) =~= term@);
        assert(match_at(line@, term@, 0));
        return true;
    }
    let last_start = line_len - term_len;
    let mut i: usize = 0;
    while i <= last_start
        invariant
            line_len == line@.len(),
            term_len == term@.len(),
            1 <= term_len <= line_len,
            last_start == line_len - term_len,
            i <= last_start + 1,
            forall|k: int| 0 <= k < i ==> !match_at(line@, term@, k),
        decreases last_start + 1 - i,
    {
        if term_matches_at(line, term, i) {
            return true;
        }
        i += 1;
    }
    assert(forall|k: int| !match_at(line@, term@, k));
    false
}

/// The matches a scan of `lines` for `term` yields, in line order: one pair
/// (zero-based line number, line text) for every decodable line that
/// contains the term.
pub open spec fn matches_of(lines: Seq<LineRead>, term: Seq<char>) -> Seq<(int, Seq<char>)>
    decreases lines.len(),
{
    if lines.len() == 0 {
        Seq::empty()
    } else {
        let rest = matches_of(lines.drop_last(), term);
        match lines.last() {
            LineRead::Text(t) => if contains_term(t@, term) {
                rest.push((lines.len() - 1, t@))
            } else {
                rest
            },
            LineRead::Undecodable => rest,
        }
    }
}

/// Whether one read line is decodable and contains the term.
pub open spec fn line_matches(lr: LineRead, term: Seq<char>) -> bool {
    lr is Text && contains_term(lr->Text_0@, term)
}

/// Law: every reported match is genuine. Each element of the match sequence
/// names a line that exists, is decodable, carries exactly that line's text,
/// and that text contains the term.
pub proof fn lemma_matches_sound(lines: Seq<LineRead>, term: Seq<char>)
    ensures
        forall|i: int|
            0 <= i < matches_of(lines, term).len() ==> {
                let m = #[trigger] matches_of(lines, term)[i];
                &&& 0 <= m.0 < lines.len()
                &&& lines[m.0] is Text
                &&& lines[m.0]->Text_0@ == m.1
                &&& contains_term(m.1, term)
            },
    decreases lines.len(),
{
    if lines.len() > 0 {
        lemma_matches_sound(lines.drop_last(), term);
        assert(forall|i: int| 0 <= i < lines.len() - 1 ==> lines.drop_last()[i] == lines[i]);
    }
}

/// Law: no match is missed. Every decodable line whose text contains the
/// term appears in the match sequence under its own line number.
pub proof fn lemma_matches_complete(lines: Seq<LineRead>, term: Seq<char>)
    ensures
        forall|k: int|
            0 <= k < lines.len() && line_matches(#[trigger] lines[k], term) ==> exists|i: int|
                0 <= i < matches_of(lines, term).len() && #[trigger] matches_of(lines, term)[i] == (
                k,
                lines[k]->Text_0@,
                ),
    decreases lines.len(),
{
    if lines.len() > 0 {
        lemma_matches_complete(lines.drop_last(), term);
        let rest = matches_of(lines.drop_last(), term);
        assert(forall|i: int| 0 <= i < rest.len() ==> matches_of(lines, term)[i] == rest[i]);
        assert forall|k: int|
            0 <= k < lines.len() && line_matches(#[trigger] lines[k], term) implies exists|i: int|
            0 <= i < matches_of(lines, term).len() && #[trigger] matches_of(lines, term)[i] == (
            k,
            lines[k]->Text_0@,
            ) by {
            if k < lines.len() - 1 {
                assert(lines.drop_last()[k] == lines[k]);
                let i = choose|i: int|
                    0 <= i < rest.len() && #[trigger] rest[i] == (k, lines[k]->Text_0@);
                assert(matches_of(lines, term)[i] == (k, lines[k]->Text_0@));
            } else {
                let i = matches_of(lines, term).len() - 1;
                assert(matches_of(lines, term)[i] == (k, lines[k]->Text_0@));
            }
        }
    }
}

/// Law: matches come in strictly increasing line order.
pub proof fn lemma_matches_ordered(lines: Seq<LineRead>, term: Seq<char>)
    ensures
        forall|a: int, b: int|
            0 <= a < b < matches_of(lines, term).len() ==> #[trigger] matches_of(lines, term)[a].0
                < #[trigger] matches_of(lines, term)[b].0,
    decreases lines.len(),
{
    if lines.len() > 0 {
        lemma_matches_ordered(lines.drop_last(), term);
        lemma_matches_sound(lines.drop_last(), term);
        assert(forall|i: int|
            0 <= i < matches_of(lines.drop_last(), term).len() ==> matches_of(lines, term)[i]
                == matches_of(lines.drop_last(), term)[i]);
    }
}

/// Scans the lines of one file, in order, and returns a record for every
/// decodable line that contains `term`, numbered from zero.
pub fn scan_lines(file_path: &String, lines: &Vec<LineRead>, term: &String) -> (out: Vec<
    MatchRecord,
>)
    ensures
        out@.len() == matches_of(lines@, term@).len(),
        forall|i: int|
            0 <= i < out@.len() ==> {
                &&& (#[trigger] out@[i]).file_path@ == file_path@
                &&& out@[i].line_number as int == matches_of(lines@, term@)[i].0
                &&& out@[i].line_text@ == matches_of(lines@, term@)[i].1
            },
{
    let mut out: Vec<MatchRecord> = Vec::new();
    let n = lines.len();
    let mut idx: usize = 0;
    while idx < n
        invariant
            n == lines@.len(),
            idx <= n,
            out@.len() == matches_of(lines@.take(idx as int), term@).len(),
            forall|i: int|
                0 <= i < out@.len() ==> {
                    &&& (#[trigger] out@[i]).file_path@ == file_path@
                    &&& out@[i].line_number as int == matches_of(
                        lines@.take(idx as int),
                        term@,
                    )[i].0
                    &&& out@[i].line_text@ == matches_of(lines@.take(idx as int), term@)[i].1
                },
        decreases n - idx,
    {
        proof {
            assert(lines@.take(idx + 1).drop_last() =~= lines@.take(idx as int));
            assert(lines@.take(idx + 1).last() == lines@[idx as int]);
        }
        match &lines[idx] {
            LineRead::Text(t) => {
                if line_contains_term(t.as_str(), term.as_str()) {
                    out.push(
                        MatchRecord {
                            file_path: file_path.clone(),
                            line_number: idx,
                            line_text: t.clone(),
                        },
                    );
                }
            },
            LineRead::Undecodable => {},
        }
        idx += 1;
    }
    proof {
        assert(lines@.take(n as int) =~= lines@);
    }
    out
}

/// Scans one discovered file, given the outcome of opening it: `None` when
/// the file could not be opened, which yields the per-file `FileUnreadable`
/// failure, or `Some` with its lines, which yields the file's matches.
pub fn scan_file(file_path: &String, content: Option<Vec<LineRead>>, term: &String) -> (r: Result<
    Vec<MatchRecord>,
    SearchError,
>)
    ensures
        content is None ==> r == Err::<Vec<MatchRecord>, SearchError>(SearchError::FileUnreadable),
        content matches Some(lines) ==> (r matches Ok(out) && out@.len() == matches_of(
            lines@,
            term@,
        ).len() && forall|i: int|
            0 <= i < out@.len() ==> {
                &&& (#[trigger] out@[i]).file_path@ == file_path@
                &&& out@[i].line_number as int == matches_of(lines@, term@)[i].0
                &&& out@[i].line_text@ == matches_of(lines@, term@)[i].1
            }),
{
    match content {
        Option::None => Err(SearchError::FileUnreadable),
        Option::Some(lines) => Ok(scan_lines(file_path, &lines, term)),
    }
}

} // verus!
