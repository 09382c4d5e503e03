//! The first line of an HTTP request, `METHOD SP PATH SP VERSION`.
//!
//! A line is split on single spaces from the right: what follows the last
//! space is the protocol version, what stands between the last two spaces is
//! the path, and everything before that is the method. Nothing is validated
//! beyond the presence of the two separating spaces.

use crate::text::{decimal, push_decimal};
use vstd::prelude::*;
use vstd::string::*;

verus! {

/// Why a request line could not be split into its three fields.
#[derive(Debug, Clone, Copy, PartialEq, Eq, Structural)]
pub enum RequestError {
    /// The line holds fewer than three space-delimited tokens.
    MalformedRequestLine,
}

/// The three fields of a request line as plain character sequences.
pub ghost struct RequestLine {
    pub method: Seq<char>,
    pub path: Seq<char>,
    pub http_version: Seq<char>,
}

impl RequestLine {
    /// The line that these fields were split from.
    pub open spec fn render(self) -> Seq<char> {
        self.method + seq![' '] + self.path + seq![' '] + self.http_version
    }

    /// The log line of a request that took `elapsed_ms` milliseconds: the
    /// three fields, a dash, and the time.
    pub open spec fn log_text(self, elapsed_ms: nat) -> Seq<char> {
        self.render() + " - "@ + decimal(elapsed_ms) + "ms"@
    }
}

/// No character of `s` is a space.
pub open spec fn no_space(s: Seq<char>) -> bool {
    forall|i: int| 0 <= i < s.len() ==> s[i] != ' '
}

/// Number of space characters in `s`.
pub open spec fn space_count(s: Seq<char>) -> nat
    decreases s.len(),
{
    if s.len() == 0 {
        0
    } else {
        space_count(s.drop_last()) + if s.last() == ' ' {
            1nat
        } else {
            0nat
        }
    }
}

/// Index of the last space in `s`, or `-1` when `s` holds none.
pub open spec fn last_space(s: Seq<char>) -> int
    decreases s.len(),
{
    if s.len() == 0 {
        -1
    } else if s.last() == ' ' {
        s.len() - 1
    } else {
        last_space(s.drop_last())
    }
}

/// What a request line parses to: `None` when it has no two spaces to split
/// at, otherwise the text before the second-to-last space, the text between
/// the last two spaces, and the text after the last space.
pub open spec fn parse_request_line(line: Seq<char>) -> Option<RequestLine> {
    let j = last_space(line);
    if j < 0 {
        None
    } else {
        let i = last_space(line.take(j));
        if i < 0 {
            None
        } else {
            Some(
                RequestLine {
                    method: line.take(i),
                    path: line.subrange(i + 1, j),
                    http_version: line.skip(j + 1),
                },
            )
        }
    }
}

/// `last_space` names a space with none after it, and is `-1` exactly when
/// there is no space at all.
pub proof fn lemma_last_space(s: Seq<char>)
    ensures
        -1 <= last_space(s) < s.len(),
        last_space(s) >= 0 ==> s[last_space(s)] == ' ',
        forall|k: int| last_space(s) < k < s.len() ==> s[k] != ' ',
        last_space(s) == -1 <==> space_count(s) == 0,
    decreases s.len(),
{
    if s.len() > 0 {
        let front = s.drop_last();
        lemma_last_space(front);
        assert forall|k: int| last_space(s) < k < s.len() implies s[k] != ' ' by {
            if k < front.len() {
                assert(s[k] == front[k]);
            }
        }
    }
}

/// A sequence whose last space sits at `j` has one space more than the part
/// before `j`.
proof fn lemma_space_count_at_last_space(s: Seq<char>)
    requires
        last_space(s) >= 0,
    ensures
        space_count(s) == space_count(s.take(last_space(s))) + 1,
    decreases s.len(),
{
    if s.last() == ' ' {
        assert(s.take(s.len() - 1) == s.drop_last());
    } else {
        lemma_last_space(s.drop_last());
        lemma_space_count_at_last_space(s.drop_last());
        assert(s.drop_last().take(last_space(s)) == s.take(last_space(s)));
    }
}

/// The position of the last space, found from any space that nothing but
/// non-spaces follows.
proof fn lemma_last_space_is(s: Seq<char>, j: int)
    requires
        0 <= j < s.len(),
        s[j] == ' ',
        forall|k: int| j < k < s.len() ==> s[k] != ' ',
    ensures
        last_space(s) == j,
    decreases s.len(),
{
    if j < s.len() - 1 {
        lemma_last_space_is(s.drop_last(), j);
    }
}

/// A line of the form `M P V`, with no space inside `P` or `V`, parses to
/// exactly those three fields. `M` may be any text, the empty one included.
pub proof fn lemma_parse_recovers_fields(method: Seq<char>, path: Seq<char>, http_version: Seq<char>)
    requires
        no_space(path),
        no_space(http_version),
    ensures
        parse_request_line(
            RequestLine { method, path, http_version }.render(),
        ) == Some(RequestLine { method, path, http_version }),
{
    let line = RequestLine { method, path, http_version }.render();
    let i = method.len() as int;
    let j = i + 1 + path.len();
    lemma_last_space_is(line, j);
    let head = line.take(j);
    lemma_last_space_is(head, i);
    assert(head.take(i) == method);
    assert(line.take(i) == method);
    assert(line.subrange(i + 1, j) == path);
    assert(line.skip(j + 1) == http_version);
}

/// Whatever a line parses to spells the line again, and neither its path nor
/// its version holds a space.
pub proof fn lemma_parse_result_spells_line(line: Seq<char>)
    requires
        parse_request_line(line) is Some,
    ensures
        parse_request_line(line)->0.render() == line,
        no_space(parse_request_line(line)->0.path),
        no_space(parse_request_line(line)->0.http_version),
{
    let j = last_space(line);
    lemma_last_space(line);
    lemma_last_space(line.take(j));
    let i = last_space(line.take(j));
    let r = parse_request_line(line)->0;
    assert(r.render() == line);
    assert forall|k: int| 0 <= k < r.path.len() implies r.path[k] != ' ' by {
        assert(r.path[k] == line.take(j)[i + 1 + k]);
    }
}

/// A line fails to parse exactly when it holds fewer than two spaces.
pub proof fn lemma_parse_fails_iff_under_two_spaces(line: Seq<char>)
    ensures
        parse_request_line(line) is None <==> space_count(line) < 2,
{
    lemma_last_space(line);
    let j = last_space(line);
    if j >= 0 {
        lemma_space_count_at_last_space(line);
        lemma_last_space(line.take(j));
    }
}

/// The request line of one HTTP request, borrowed from the line it was read
/// from.
#[derive(Debug)]
pub struct Request<'a> {
    pub method: &'a str,
    pub path: &'a str,
    pub http_version: &'a str,
}

impl<'a> View for Request<'a> {
    type V = RequestLine;

    open spec fn view(&self) -> RequestLine {
        RequestLine { method: self.method@, path: self.path@, http_version: self.http_version@ }
    }
}

impl<'a> Request<'a> {
    /// Splits a request line into method, path and protocol version.
    ///
    /// Fails with `MalformedRequestLine` exactly when the line holds fewer
    /// than two spaces.
    pub fn new(status_line: &'a str) -> (r: Result<Request<'a>, RequestError>)
        ensures
            match r {
                Ok(req) => parse_request_line(status_line@) == Some(req@),
                Err(e) => e == RequestError::MalformedRequestLine && parse_request_line(
                    status_line@,
                ) is None,
            },
            r is Err <==> space_count(status_line@) < 2,
    {
        broadcast use vstd::string::group_string_axioms;

        let ghost line = status_line@;
        let total = status_line.unicode_len();
        // `last` is the position of the last space seen so far and `prev` that
        // of the one before it; `total` stands for "none".
        let mut last: usize = total;
        let mut prev: usize = total;
        let mut i: usize = 0;
        for c in it: status_line.chars()
            invariant
                it.seq() == line,
                total == line.len(),
                i == it.index(),
                last <= total,
                prev <= total,
                last_space(line.take(i as int)) == (if last == total {
                    -1
                } else {
                    last as int
                }),
                last < total ==> last_space(line.take(last as int)) == (if prev == total {
                    -1
                } else {
                    prev as int
                }),
        {
            assert(line.take(i + 1).drop_last() == line.take(i as int));
            if c == ' ' {
                prev = last;
                last = i;
            }
            i = i + 1;
        }
        proof {
            assert(line.take(i as int) == line);
            lemma_parse_fails_iff_under_two_spaces(line);
        }
        if last == total || prev == total {
            return Err(RequestError::MalformedRequestLine);
        }
        proof {
            lemma_last_space(line);
            lemma_last_space(line.take(last as int));
        }
        let method = status_line.substring_char(0, prev);
        let path = status_line.substring_char(prev + 1, last);
        let http_version = status_line.substring_char(last + 1, total);
        assert(line.subrange(0, prev as int) == line.take(prev as int));
        assert(line.subrange(last + 1, total as int) == line.skip(last + 1));
        Ok(Request { method, path, http_version })
    }

    /// The line to log once the request was answered, `elapsed_ms`
    /// milliseconds after its first byte was awaited.
    pub fn log_line(&self, elapsed_ms: u128) -> (line: String)
        ensures
            line@ == self@.log_text(elapsed_ms as nat),
    {
        proof {
            reveal_strlit(" ");
        }
        let mut line = String::from_str(self.method);
        line.append(" ");
        line.append(self.path);
        line.append(" ");
        line.append(self.http_version);
        line.append(" - ");
        push_decimal(&mut line, elapsed_ms);
        line.append("ms");
        assert(" "@ == seq![' ']);
        line
    }
}

} // verus!
