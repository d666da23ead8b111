//! The text of an HTTP exchange: the request that asks for a document, and
//! the response taken apart. Sending and receiving are left to the caller.

use crate::text::{
    chars_match, chars_of, copy_range, find, find_from, is_whitespace, lowercase, search_from,
    string_from_chars, to_lowercase, whitespace,
};
use vstd::hash_map::StringHashMap;
use vstd::prelude::*;
use vstd::string::StringExecFns;

verus! {

/// A response that was understood.
pub struct Response {
    /// The header fields; names and values are trimmed and lowercased.
    pub headers: StringHashMap<String>,
    pub body: String,
}

/// Why a response was not accepted.
#[derive(Clone, Debug, PartialEq, Eq)]
pub enum FetchError {
    /// The response is not made as a response must be.
    Malformed,
    /// The server answered with a status other than 200.
    Status { status: String, explanation: String },
}

/// A response, or the reason why there is none, as plain values.
pub enum ResponseModel {
    Accepted { headers: Map<Seq<char>, Seq<char>>, body: Seq<char> },
    Malformed,
    Status { status: Seq<char>, explanation: Seq<char> },
}

/// The line break of HTTP.
pub open spec fn line_break() -> Seq<char> {
    seq!['\r', '\n']
}

/// The empty line that ends the header.
pub open spec fn blank_line() -> Seq<char> {
    seq!['\r', '\n', '\r', '\n']
}

/// The request for `path` on `host`.
pub open spec fn request_text(host: Seq<char>, path: Seq<char>) -> Seq<char> {
    "GET "@ + path + " HTTP/1.1\r\nHost: "@ + host
        + "\r\nUser-Agent: HeliosPanoptes\r\nConnection: close\r\n\r\n"@
}

/// The lines of `s` from index `from` on: the pieces between line breaks.
pub open spec fn lines_from(s: Seq<char>, from: int) -> Seq<Seq<char>>
    decreases s.len() - from + 1,
{
    if !(0 <= from <= s.len()) {
        Seq::empty()
    } else {
        match find_from(s, line_break(), from) {
            Some(i) => if from <= i && i + 2 <= s.len() {
                seq![s.subrange(from, i)] + lines_from(s, i + 2)
            } else {
                Seq::empty()
            },
            None => seq![s.subrange(from, s.len() as int)],
        }
    }
}

/// Number of whitespace characters at the start of `s`.
pub open spec fn leading_whitespace(s: Seq<char>) -> nat
    decreases s.len(),
{
    if s.len() > 0 && is_whitespace(s[0]) {
        1 + leading_whitespace(s.skip(1))
    } else {
        0
    }
}

/// Number of whitespace characters at the end of `s`.
pub open spec fn trailing_whitespace(s: Seq<char>) -> nat
    decreases s.len(),
{
    if s.len() > 0 && is_whitespace(s.last()) {
        1 + trailing_whitespace(s.drop_last())
    } else {
        0
    }
}

/// `s` without the whitespace at its start and at its end.
pub open spec fn trimmed(s: Seq<char>) -> Seq<char> {
    let start = leading_whitespace(s);
    if start >= s.len() {
        Seq::empty()
    } else {
        s.subrange(start as int, s.len() - trailing_whitespace(s))
    }
}

/// The header fields in the first `count` lines of a header, whose first
/// line holds the status and no field. Each line is cut at its first `:`
/// into name and value, both trimmed and lowercased; a later field of a
/// name replaces an earlier one. `None` where a line holds no `:`.
pub open spec fn fields(lines: Seq<Seq<char>>, count: nat) -> Option<Map<Seq<char>, Seq<char>>>
    decreases count,
{
    if count <= 1 || count > lines.len() {
        Some(Map::empty())
    } else {
        let line = lines[count - 1];
        match (fields(lines, (count - 1) as nat), find(line, seq![':'])) {
            (Some(before), Some(i)) => Some(
                before.insert(
                    lowercase(trimmed(line.take(i))),
                    lowercase(trimmed(line.skip(i + 1))),
                ),
            ),
            _ => None,
        }
    }
}

/// What a response says.
///
/// The header ends at the first empty line; the body is what follows, up
/// to the next empty line if there is one. The first line of the header
/// holds the version, the status and an explanation, separated by single
/// spaces; the other lines are header fields, which are read only where
/// the status is 200.
pub open spec fn response_of(text: Seq<char>) -> ResponseModel {
    match find(text, blank_line()) {
        None => ResponseModel::Malformed,
        Some(end) => {
            let head = text.take(end);
            let after = text.skip(end + 4);
            let body = match find(after, blank_line()) {
                Some(j) => after.take(j),
                None => after,
            };
            let lines = lines_from(head, 0);
            let first = lines[0];
            match find(first, seq![' ']) {
                None => ResponseModel::Malformed,
                Some(a) => match find_from(first, seq![' '], a + 1) {
                    None => ResponseModel::Malformed,
                    Some(b) => {
                        let status = first.subrange(a + 1, b);
                        let explanation = first.skip(b + 1);
                        if status != "200"@ {
                            ResponseModel::Status { status, explanation }
                        } else {
                            match fields(lines, lines.len()) {
                                Some(headers) => ResponseModel::Accepted { headers, body },
                                None => ResponseModel::Malformed,
                            }
                        }
                    },
                },
            }
        },
    }
}

/// What a parsed response stands for.
pub open spec fn outcome(result: Result<Response, FetchError>) -> ResponseModel {
    match result {
        Ok(r) => ResponseModel::Accepted {
            headers: r.headers@.map_values(|v: String| v@),
            body: r.body@,
        },
        Err(FetchError::Malformed) => ResponseModel::Malformed,
        Err(FetchError::Status { status, explanation }) => ResponseModel::Status {
            status: status@,
            explanation: explanation@,
        },
    }
}

/// The views of a sequence of character vectors.
pub open spec fn rows(v: Seq<Vec<char>>) -> Seq<Seq<char>> {
    v.map_values(|row: Vec<char>| row@)
}

/// The text of the request for `path` on `host`.
pub fn request_for(host: &str, path: &str) -> (request: String)
    ensures
        request@ == request_text(host@, path@),
{
    String::from_str("GET ").concat(path).concat(" HTTP/1.1\r\nHost: ").concat(host).concat(
        "\r\nUser-Agent: HeliosPanoptes\r\nConnection: close\r\n\r\n",
    )
}

/// Splits `s` into its lines; see [`lines_from`].
pub fn split_lines(s: &Vec<char>) -> (lines: Vec<Vec<char>>)
    ensures
        rows(lines@) == lines_from(s@, 0),
        lines.len() > 0,
{
    let pattern: Vec<char> = vec!['\r', '\n'];
    assert(pattern@ =~= line_break());
    let mut lines: Vec<Vec<char>> = Vec::new();
    let mut from: usize = 0;
    assert(rows(lines@) =~= Seq::<Seq<char>>::empty());
    loop
        invariant
            from <= s.len(),
            pattern@ == line_break(),
            lines_from(s@, 0) == rows(lines@) + lines_from(s@, from as int),
        decreases s.len() - from,
    {
        let ghost before = rows(lines@);
        match search_from(s, &pattern, from) {
            Some(i) => {
                let line = copy_range(s, from, i);
                lines.push(line);
                assert(rows(lines@) =~= before.push(s@.subrange(from as int, i as int)));
                from = i + 2;
            },
            None => {
                let line = copy_range(s, from, s.len());
                lines.push(line);
                assert(rows(lines@) =~= before.push(s@.subrange(from as int, s.len() as int)));
                return lines;
            },
        }
    }
}

/// Removes the whitespace at the start and at the end; see [`trimmed`].
pub fn trim(s: &Vec<char>) -> (out: Vec<char>)
    ensures
        out@ == trimmed(s@),
{
    let mut start: usize = 0;
    assert(s@.skip(0) == s@);
    while start < s.len() && whitespace(s[start])
        invariant
            start <= s.len(),
            leading_whitespace(s@) == start + leading_whitespace(s@.skip(start as int)),
        decreases s.len() - start,
    {
        assert(s@.skip(start as int).skip(1) == s@.skip(start + 1));
        start = start + 1;
    }
    if start >= s.len() {
        return Vec::new();
    }
    let mut end: usize = s.len();
    assert(s@.take(end as int) == s@);
    while whitespace(s[end - 1])
        invariant
            start < end <= s.len(),
            !is_whitespace(s@[start as int]),
            trailing_whitespace(s@) == s.len() - end + trailing_whitespace(s@.take(end as int)),
        decreases end,
    {
        assert(s@.take(end as int).drop_last() == s@.take(end - 1));
        end = end - 1;
    }
    copy_range(s, start, end)
}

/// Once a line without `:` has been met, no header fields are read.
pub proof fn lemma_fields_stay_unread(lines: Seq<Seq<char>>, bad: nat, count: nat)
    requires
        fields(lines, bad) is None,
        bad <= count <= lines.len(),
    ensures
        fields(lines, count) is None,
    decreases count,
{
    if count > bad {
        lemma_fields_stay_unread(lines, bad, (count - 1) as nat);
    }
}

/// Takes a response apart; see [`response_of`].
pub fn parse_response(text: &str) -> (result: Result<Response, FetchError>)
    ensures
        outcome(result) == response_of(text@),
{
    let chars = chars_of(text);
    let blank: Vec<char> = vec!['\r', '\n', '\r', '\n'];
    let space: Vec<char> = vec![' '];
    let colon: Vec<char> = vec![':'];
    assert(blank@ =~= blank_line());
    assert(space@ =~= seq![' ']);
    let end = match search_from(&chars, &blank, 0) {
        Some(end) => end,
        None => {
            return Err(FetchError::Malformed);
        },
    };
    let head = copy_range(&chars, 0, end);
    let after = copy_range(&chars, end + 4, chars.len());
    assert(head@ == text@.take(end as int));
    let body = match search_from(&after, &blank, 0) {
        Some(j) => copy_range(&after, 0, j),
        None => after,
    };
    let lines = split_lines(&head);
    let ghost all = rows(lines@);
    let first = &lines[0];
    assert(first@ == all[0]);
    let a = match search_from(first, &space, 0) {
        Some(a) => a,
        None => {
            return Err(FetchError::Malformed);
        },
    };
    let b = match search_from(first, &space, a + 1) {
        Some(b) => b,
        None => {
            return Err(FetchError::Malformed);
        },
    };
    let status = copy_range(first, a + 1, b);
    let explanation = copy_range(first, b + 1, first.len());
    assert(explanation@ == first@.skip(b + 1));
    if !chars_match(&status, "200") {
        return Err(
            FetchError::Status {
                status: string_from_chars(&status),
                explanation: string_from_chars(&explanation),
            },
        );
    }
    let mut headers: StringHashMap<String> = StringHashMap::new();
    assert(headers@.map_values(|v: String| v@) =~= Map::<Seq<char>, Seq<char>>::empty());
    let mut k: usize = 1;
    while k < lines.len()
        invariant
            1 <= k <= lines.len(),
            all == rows(lines@),
            colon@ == seq![':'],
            fields(all, k as nat) == Some(headers@.map_values(|v: String| v@)),
            fields(all, all.len()) is None ==> response_of(text@) == ResponseModel::Malformed,
        decreases lines.len() - k,
    {
        let line = &lines[k];
        assert(line@ == all[k as int]);
        let ghost before = headers@.map_values(|v: String| v@);
        match search_from(line, &colon, 0) {
            Some(i) => {
                let name = to_lowercase(
                    string_from_chars(&trim(&copy_range(line, 0, i))).as_str(),
                );
                let value = to_lowercase(
                    string_from_chars(&trim(&copy_range(line, i + 1, line.len()))).as_str(),
                );
                headers.insert(name, value);
                assert(headers@.map_values(|v: String| v@) =~= before.insert(name@, value@));
            },
            None => {
                proof {
                    lemma_fields_stay_unread(all, (k + 1) as nat, all.len());
                }
                return Err(FetchError::Malformed);
            },
        }
        k = k + 1;
    }
    Ok(Response { headers, body: string_from_chars(&body) })
}

} // verus!
