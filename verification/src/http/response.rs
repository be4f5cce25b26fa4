//! HTTP responses, and the bytes that go over the wire for them.

use vstd::prelude::*;
use vstd::string::{StringExecFns, StringSliceAdditionalSpecFns};
use vstd::utf8::encode_utf8;
use crate::http::headers::{pairs, set_field, with_field, Fields};
use crate::text::{decimal, decimal_string};

verus! {

/// A response. No header field comes twice; setting a field again
/// replaces its value.
#[derive(Debug, Clone)]
pub struct HttpResponse {
    pub status_code: u16,
    pub status_text: String,
    pub headers: Vec<(String, String)>,
    pub body: Vec<u8>,
}

/// What a response says: its status, its header fields as texts, and its
/// body.
pub struct ResponseModel {
    pub status_code: u16,
    pub status_text: Seq<char>,
    pub headers: Fields,
    pub body: Seq<u8>,
}

impl View for HttpResponse {
    type V = ResponseModel;

    open spec fn view(&self) -> ResponseModel {
        ResponseModel {
            status_code: self.status_code,
            status_text: self.status_text@,
            headers: pairs(self.headers@),
            body: self.body@,
        }
    }
}

impl ResponseModel {
    /// The response with status and no header and no body.
    pub open spec fn plain(status_code: u16, status_text: Seq<char>) -> ResponseModel {
        ResponseModel { status_code, status_text, headers: Seq::empty(), body: Seq::empty() }
    }

    /// The response with the field `key` set to `value`.
    pub open spec fn with_header(self, key: Seq<char>, value: Seq<char>) -> ResponseModel {
        ResponseModel { headers: with_field(self.headers, key, value), ..self }
    }

    /// The response with `body` as its body and the length of the body, in
    /// decimal, as its Content-Length.
    pub open spec fn with_body(self, body: Seq<u8>) -> ResponseModel {
        ResponseModel {
            headers: with_field(self.headers, "Content-Length"@, decimal(body.len())),
            body,
            ..self
        }
    }

    /// The response to a request that cannot be served: plain text that
    /// repeats the status.
    pub open spec fn refusal(
        status_code: u16,
        status_text: Seq<char>,
        body: Seq<char>,
    ) -> ResponseModel {
        ResponseModel::plain(status_code, status_text).with_body(encode_utf8(body)).with_header(
            "Content-Type"@,
            "text/plain"@,
        )
    }

    /// One line for each header field: name, colon, space, value, line
    /// end.
    pub open spec fn header_lines(fields: Fields) -> Seq<char>
        decreases fields.len(),
    {
        if fields.len() == 0 {
            Seq::empty()
        } else {
            ResponseModel::header_lines(fields.drop_last()) + fields.last().0 + ": "@
                + fields.last().1 + "\r\n"@
        }
    }

    /// The text before the body: the status line, the header lines, the
    /// line that closes the connection, and an empty line.
    pub open spec fn head(self) -> Seq<char> {
        "HTTP/1.1 "@ + decimal(self.status_code as nat) + " "@ + self.status_text + "\r\n"@
            + ResponseModel::header_lines(self.headers) + "Connection: close\r\n"@ + "\r\n"@
    }

    /// The bytes of the response: the head in UTF-8, then the body.
    pub open spec fn wire(self) -> Seq<u8> {
        encode_utf8(self.head()) + self.body
    }
}

impl HttpResponse {
    /// A response with the given status, no header and no body.
    pub fn new(status_code: u16, status_text: &str) -> (response: HttpResponse)
        ensures
            response@ == ResponseModel::plain(status_code, status_text@),
    {
        let response = HttpResponse {
            status_code,
            status_text: status_text.to_owned(),
            headers: Vec::new(),
            body: Vec::new(),
        };
        proof {
            assert(pairs(response.headers@) =~= Seq::empty());
        }
        response
    }

    /// 200 OK, without header or body.
    pub fn ok() -> (response: HttpResponse)
        ensures
            response@ == ResponseModel::plain(200, "OK"@),
    {
        HttpResponse::new(200, "OK")
    }

    /// 404 Not Found, with a plain-text body that says so.
    pub fn not_found() -> (response: HttpResponse)
        ensures
            response@ == ResponseModel::refusal(404, "Not Found"@, "404 Not Found"@),
    {
        let mut response = HttpResponse::new(404, "Not Found");
        response.set_body_text("404 Not Found");
        response.set_header("Content-Type", "text/plain");
        response
    }

    /// 500 Internal Server Error, with a plain-text body that says so.
    pub fn internal_server_error() -> (response: HttpResponse)
        ensures
            response@ == ResponseModel::refusal(
                500,
                "Internal Server Error"@,
                "500 Internal Server Error"@,
            ),
    {
        let mut response = HttpResponse::new(500, "Internal Server Error");
        response.set_body_text("500 Internal Server Error");
        response.set_header("Content-Type", "text/plain");
        response
    }

    /// Sets one header field, replacing an earlier value of the same name.
    pub fn set_header(&mut self, key: &str, value: &str)
        ensures
            final(self)@ == old(self)@.with_header(key@, value@),
    {
        set_field(&mut self.headers, key.to_owned(), value.to_owned());
    }

    /// Sets the body to the bytes of `text` and the Content-Length to their
    /// number.
    pub fn set_body_text(&mut self, text: &str)
        ensures
            final(self)@ == old(self)@.with_body(text.spec_bytes()),
    {
        self.body = vstd::slice::slice_to_vec(text.as_bytes());
        let length = decimal_string(self.body.len());
        set_field(&mut self.headers, "Content-Length".to_owned(), length);
    }

    /// Sets the body to `bytes` and the Content-Length to their number.
    pub fn set_body_bytes(&mut self, bytes: Vec<u8>)
        ensures
            final(self)@ == old(self)@.with_body(bytes@),
    {
        self.body = bytes;
        let length = decimal_string(self.body.len());
        set_field(&mut self.headers, "Content-Length".to_owned(), length);
    }

    /// The response as it goes over the wire.
    pub fn to_bytes(&self) -> (bytes: Vec<u8>)
        ensures
            bytes@ == self@.wire(),
    {
        let mut head = "HTTP/1.1 ".to_owned();
        head.append(decimal_string(self.status_code as usize).as_str());
        head.append(" ");
        head.append(self.status_text.as_str());
        head.append("\r\n");
        let ghost start = head@;
        let ghost fields = pairs(self.headers@);
        let mut i: usize = 0;
        proof {
            assert(fields.take(0) =~= Seq::empty());
            assert(head@ =~= start + ResponseModel::header_lines(fields.take(0)));
        }
        while i < self.headers.len()
            invariant
                i <= self.headers@.len(),
                fields == pairs(self.headers@),
                head@ == start + ResponseModel::header_lines(fields.take(i as int)),
            decreases self.headers@.len() - i,
        {
            let ghost done = ResponseModel::header_lines(fields.take(i as int));
            proof {
                assert(fields.take(i + 1).drop_last() =~= fields.take(i as int));
                assert(fields.take(i + 1).last() == fields[i as int]);
            }
            head.append(self.headers[i].0.as_str());
            head.append(": ");
            head.append(self.headers[i].1.as_str());
            head.append("\r\n");
            proof {
                assert(head@ =~= start + (done + fields[i as int].0 + ": "@ + fields[i as int].1
                    + "\r\n"@));
            }
            i += 1;
        }
        proof {
            assert(fields.take(fields.len() as int) =~= fields);
        }
        head.append("Connection: close\r\n");
        head.append("\r\n");
        proof {
            assert(head@ =~= self@.head());
        }
        let mut bytes = vstd::slice::slice_to_vec(head.as_str().as_bytes());
        let ghost text = bytes@;
        bytes.extend_from_slice(self.body.as_slice());
        proof {
            assert(bytes@ =~= text + self.body@);
        }
        bytes
    }
}

} // verus!
