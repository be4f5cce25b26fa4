//! HTTP requests, parsed from the text that came over the wire.

use vstd::prelude::*;
use crate::http::headers::{
    distinct_keys, lemma_with_field_distinct, pairs, set_field, with_field, Fields,
};
use crate::text::{
    chars_of, find, join_lines, joined, lines, lowercased, position, split_lines, split_words,
    string_of, trim, trimmed, views, words,
};

verus! {

/// Why a text is no request.
#[derive(Clone, Copy, Debug, PartialEq, Eq, Structural)]
pub enum ParseError {
    /// The text holds no line at all.
    EmptyRequest,
    /// The first line is not made of three words.
    InvalidRequestLine,
}

impl ParseError {
    /// The fault in words.
    pub fn message(&self) -> (text: &'static str)
        ensures
            text@ == match self {
                ParseError::EmptyRequest => "Empty request"@,
                ParseError::InvalidRequestLine => "Invalid request line"@,
            },
    {
        match self {
            ParseError::EmptyRequest => "Empty request",
            ParseError::InvalidRequestLine => "Invalid request line",
        }
    }
}

/// A request. The names of its header fields are in lower case, and no
/// name comes twice.
#[derive(Debug, Clone)]
pub struct HttpRequest {
    pub method: String,
    pub path: String,
    pub version: String,
    pub headers: Vec<(String, String)>,
    pub body: String,
}

/// What a request says, as texts.
pub struct RequestModel {
    pub method: Seq<char>,
    pub path: Seq<char>,
    pub version: Seq<char>,
    pub headers: Fields,
    pub body: Seq<char>,
}

impl View for HttpRequest {
    type V = RequestModel;

    open spec fn view(&self) -> RequestModel {
        RequestModel {
            method: self.method@,
            path: self.path@,
            version: self.version@,
            headers: pairs(self.headers@),
            body: self.body@,
        }
    }
}

/// The number of the first empty line among the lines from `from` on; the
/// number of lines where none is empty.
pub open spec fn header_stop(rows: Seq<Seq<char>>, from: int) -> int
    decreases rows.len() - from,
{
    if from >= rows.len() {
        rows.len() as int
    } else if rows[from].len() == 0 {
        from
    } else {
        header_stop(rows, from + 1)
    }
}

/// The fields with what one header line adds: the text before the first
/// colon, trimmed and in lower case, names the field, and the text behind
/// it, trimmed, is its value. A line without a colon adds nothing.
pub open spec fn with_line(fields: Fields, line: Seq<char>) -> Fields {
    let colon = position(line, ':') as int;
    if colon < line.len() {
        with_field(fields, lowercased(trimmed(line.take(colon))), trimmed(line.skip(colon + 1)))
    } else {
        fields
    }
}

/// The fields that the header lines give, taken in order; a later line
/// with the same name replaces the value of an earlier one.
pub open spec fn fields_of(rows: Seq<Seq<char>>) -> Fields
    decreases rows.len(),
{
    if rows.len() == 0 {
        Seq::empty()
    } else {
        with_line(fields_of(rows.drop_last()), rows.last())
    }
}

/// The number of the line with which the body starts: the one behind the
/// first empty line, or line 1 where no line is empty.
pub open spec fn body_start(rows: Seq<Seq<char>>) -> int {
    if header_stop(rows, 1) < rows.len() {
        header_stop(rows, 1) + 1
    } else {
        1
    }
}

/// What a text parses to. The first line holds the method, the path and
/// the version; the lines up to the first empty one are header lines; the
/// lines from the start of the body on, joined by line feeds, are the body.
pub open spec fn parsed(raw: Seq<char>) -> Result<RequestModel, ParseError> {
    let rows = lines(raw);
    if rows.len() == 0 {
        Err(ParseError::EmptyRequest)
    } else if words(rows[0]).len() != 3 {
        Err(ParseError::InvalidRequestLine)
    } else {
        Ok(
            RequestModel {
                method: words(rows[0])[0],
                path: words(rows[0])[1],
                version: words(rows[0])[2],
                headers: fields_of(rows.subrange(1, header_stop(rows, 1))),
                body: if body_start(rows) < rows.len() {
                    joined(rows.skip(body_start(rows)))
                } else {
                    Seq::empty()
                },
            },
        )
    }
}

/// The header fields never hold a name twice.
pub proof fn lemma_fields_distinct(rows: Seq<Seq<char>>)
    ensures
        distinct_keys(fields_of(rows)),
    decreases rows.len(),
{
    if rows.len() > 0 {
        lemma_fields_distinct(rows.drop_last());
        let before = fields_of(rows.drop_last());
        let line = rows.last();
        let colon = position(line, ':') as int;
        if colon < line.len() {
            lemma_with_field_distinct(
                before,
                lowercased(trimmed(line.take(colon))),
                trimmed(line.skip(colon + 1)),
            );
        }
    }
}

/// The first empty line from `from` on is at `stop` when no line between
/// the two is empty.
pub proof fn lemma_header_stop(rows: Seq<Seq<char>>, from: int, stop: int)
    requires
        0 <= from <= stop <= rows.len(),
        forall|j: int| from <= j < stop ==> rows[j].len() != 0,
        stop == rows.len() || rows[stop].len() == 0,
    ensures
        header_stop(rows, from) == stop,
    decreases stop - from,
{
    if from < stop {
        lemma_header_stop(rows, from + 1, stop);
    }
}

impl HttpRequest {
    /// Parses the text of a request.
    pub fn parse(raw_request: &str) -> (request: Result<HttpRequest, ParseError>)
        ensures
            match parsed(raw_request@) {
                Ok(model) => request matches Ok(r) && r@ == model && distinct_keys(r@.headers),
                Err(e) => request matches Err(f) && f == e,
            },
    {
        let chars = chars_of(raw_request);
        let rows = split_lines(chars.as_slice());
        if rows.len() == 0 {
            return Err(ParseError::EmptyRequest);
        }
        let parts = split_words(rows[0].as_slice());
        if parts.len() != 3 {
            return Err(ParseError::InvalidRequestLine);
        }
        let method = string_of(parts[0].as_slice());
        let path = string_of(parts[1].as_slice());
        let version = string_of(parts[2].as_slice());
        let ghost all = views(rows@);
        let mut stop: usize = 1;
        while stop < rows.len() && rows[stop].len() != 0
            invariant
                1 <= stop <= rows@.len(),
                all == views(rows@),
                forall|j: int| 1 <= j < stop ==> all[j].len() != 0,
            decreases rows@.len() - stop,
        {
            stop += 1;
        }
        proof {
            lemma_header_stop(all, 1, stop as int);
        }
        let mut headers: Vec<(String, String)> = Vec::new();
        let mut i: usize = 1;
        proof {
            assert(all.subrange(1, 1) =~= Seq::<Seq<char>>::empty());
            assert(pairs(headers@) =~= fields_of(all.subrange(1, 1)));
        }
        while i < stop
            invariant
                1 <= i <= stop <= rows@.len(),
                all == views(rows@),
                pairs(headers@) == fields_of(all.subrange(1, i as int)),
            decreases stop - i,
        {
            let line = rows[i].as_slice();
            proof {
                assert(all.subrange(1, i + 1).drop_last() =~= all.subrange(1, i as int));
                assert(all.subrange(1, i + 1).last() == line@);
            }
            match find(line, ':') {
                Some(colon) => {
                    let len = line.len();
                    let name = trim(vstd::slice::slice_subrange(line, 0, colon));
                    let value = trim(vstd::slice::slice_subrange(line, colon + 1, len));
                    let key = string_of(name.as_slice()).as_str().to_lowercase();
                    proof {
                        assert(line@.subrange(0, colon as int) =~= line@.take(colon as int));
                        assert(line@.subrange(colon + 1, line@.len() as int) =~= line@.skip(
                            colon + 1,
                        ));
                    }
                    set_field(&mut headers, key, string_of(value.as_slice()));
                },
                None => {},
            }
            i += 1;
        }
        let body_start: usize = if stop < rows.len() { stop + 1 } else { 1 };
        let body = if body_start < rows.len() {
            string_of(join_lines(&rows, body_start).as_slice())
        } else {
            String::new()
        };
        proof {
            lemma_fields_distinct(all.subrange(1, stop as int));
        }
        Ok(HttpRequest { method, path, version, headers, body })
    }

    /// The path without its query: what stands before the first question
    /// mark.
    pub fn get_path(&self) -> (path: String)
        ensures
            path@ == self.path@.take(position(self.path@, '?') as int),
    {
        let chars = chars_of(self.path.as_str());
        match find(chars.as_slice(), '?') {
            Some(mark) => {
                let head = vstd::slice::slice_subrange(chars.as_slice(), 0, mark);
                proof {
                    assert(head@ =~= chars@.take(mark as int));
                }
                string_of(head)
            },
            None => {
                proof {
                    assert(chars@.take(chars@.len() as int) =~= chars@);
                }
                self.path.clone()
            },
        }
    }
}

} // verus!
