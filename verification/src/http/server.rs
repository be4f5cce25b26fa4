//! The decisions of a static-file server. Reading the disk is left to the
//! caller: the server names the file it wants and answers with what was
//! found.

use vstd::prelude::*;
use crate::http::request::{HttpRequest, RequestModel};
use crate::http::response::{HttpResponse, ResponseModel};
use crate::text::{chars_of, position, same_text, string_of};

verus! {

/// A file as it was found on disk.
pub struct FoundFile {
    pub contents: Vec<u8>,
    /// What stands behind the last dot of the file's name, if anything.
    pub extension: Option<String>,
}

/// A server for the files under one directory.
pub struct FileServer {
    root_dir: String,
}

/// The media type that goes with a file extension.
pub open spec fn content_type(extension: Option<Seq<char>>) -> Seq<char> {
    match extension {
        Some(e) => if e == "html"@ || e == "htm"@ {
            "text/html; charset=utf-8"@
        } else if e == "css"@ {
            "text/css"@
        } else if e == "js"@ {
            "application/javascript"@
        } else if e == "json"@ {
            "application/json"@
        } else if e == "png"@ {
            "image/png"@
        } else if e == "jpg"@ || e == "jpeg"@ {
            "image/jpeg"@
        } else if e == "gif"@ {
            "image/gif"@
        } else if e == "svg"@ {
            "image/svg+xml"@
        } else if e == "txt"@ {
            "text/plain; charset=utf-8"@
        } else {
            "application/octet-stream"@
        },
        None => "application/octet-stream"@,
    }
}

/// The file under the root that a request path names: the path without
/// its leading slash, and the index page for the root itself.
pub open spec fn target_of(request_path: Seq<char>) -> Seq<char> {
    let clean = if request_path.len() > 0 && request_path[0] == '/' {
        request_path.skip(1)
    } else {
        request_path
    };
    if clean.len() == 0 {
        "index.html"@
    } else {
        clean
    }
}

/// The path of a request without its query.
pub open spec fn path_of(request: RequestModel) -> Seq<char> {
    request.path.take(position(request.path, '?') as int)
}

/// The answer to a request, given what was found on disk for the file it
/// names. Only GET is served; a file that was not found is a 404.
pub open spec fn answer(
    request: RequestModel,
    found: Option<(Seq<u8>, Option<Seq<char>>)>,
) -> ResponseModel {
    if request.method != "GET"@ {
        ResponseModel::refusal(405, "Method Not Allowed"@, "405 Method Not Allowed"@)
    } else {
        match found {
            Some((contents, extension)) => ResponseModel::plain(200, "OK"@).with_body(
                contents,
            ).with_header("Content-Type"@, content_type(extension)),
            None => ResponseModel::refusal(404, "Not Found"@, "404 Not Found"@),
        }
    }
}

impl View for FoundFile {
    type V = (Seq<u8>, Option<Seq<char>>);

    /// The contents and the extension as plain values.
    open spec fn view(&self) -> (Seq<u8>, Option<Seq<char>>) {
        (
            self.contents@,
            match self.extension {
                Some(e) => Some(e@),
                None => None,
            },
        )
    }
}

impl FileServer {
    /// A server for the files under `root_dir`.
    pub fn new(root_dir: &str) -> (server: FileServer)
        ensures
            server.root() == root_dir@,
    {
        FileServer { root_dir: root_dir.to_owned() }
    }

    /// The directory that the server serves.
    pub closed spec fn root(&self) -> Seq<char> {
        self.root_dir@
    }

    /// The directory that the server serves.
    pub fn root_dir(&self) -> (root: &str)
        ensures
            root@ == self.root(),
    {
        self.root_dir.as_str()
    }

    /// The file under the root that a request path names.
    pub fn resolve_path(&self, request_path: &str) -> (target: String)
        ensures
            target@ == target_of(request_path@),
    {
        let chars = chars_of(request_path);
        let len = chars.len();
        let start: usize = if len > 0 && chars[0] == '/' { 1 } else { 0 };
        if start == len {
            "index.html".to_owned()
        } else {
            let clean = vstd::slice::slice_subrange(chars.as_slice(), start, len);
            proof {
                assert(clean@ =~= chars@.skip(start as int));
                assert(chars@.skip(0) =~= chars@);
            }
            string_of(clean)
        }
    }

    /// The file that has to be read before the request can be answered:
    /// none for a request that is refused whatever the disk holds.
    pub fn wanted_file(&self, request: &HttpRequest) -> (target: Option<String>)
        ensures
            request@.method != "GET"@ ==> target is None,
            request@.method == "GET"@ ==> (target matches Some(t) && t@ == target_of(
                path_of(request@),
            )),
    {
        if !same_text(request.method.as_str(), "GET") {
            return None;
        }
        let requested_path = request.get_path();
        Some(self.resolve_path(requested_path.as_str()))
    }

    /// Answers a request, given what was found on disk for the file it
    /// names.
    pub fn handle_request(&self, request: &HttpRequest, found: Option<FoundFile>) -> (response:
        HttpResponse)
        ensures
            response@ == answer(
                request@,
                match found {
                    Some(file) => Some(file@),
                    None => None,
                },
            ),
    {
        if !same_text(request.method.as_str(), "GET") {
            let mut response = HttpResponse::new(405, "Method Not Allowed");
            response.set_body_text("405 Method Not Allowed");
            response.set_header("Content-Type", "text/plain");
            return response;
        }
        match found {
            Some(file) => {
                let media = match &file.extension {
                    Some(e) => FileServer::get_content_type(Some(e.as_str())),
                    None => FileServer::get_content_type(None),
                };
                let mut response = HttpResponse::ok();
                response.set_body_bytes(file.contents);
                response.set_header("Content-Type", media.as_str());
                response
            },
            None => HttpResponse::not_found(),
        }
    }

    /// The media type that goes with a file extension.
    pub fn get_content_type(extension: Option<&str>) -> (media: String)
        ensures
            media@ == content_type(
                match extension {
                    Some(e) => Some(e@),
                    None => None,
                },
            ),
    {
        match extension {
            Some(e) => {
                if same_text(e, "html") || same_text(e, "htm") {
                    "text/html; charset=utf-8".to_owned()
                } else if same_text(e, "css") {
                    "text/css".to_owned()
                } else if same_text(e, "js") {
                    "application/javascript".to_owned()
                } else if same_text(e, "json") {
                    "application/json".to_owned()
                } else if same_text(e, "png") {
                    "image/png".to_owned()
                } else if same_text(e, "jpg") || same_text(e, "jpeg") {
                    "image/jpeg".to_owned()
                } else if same_text(e, "gif") {
                    "image/gif".to_owned()
                } else if same_text(e, "svg") {
                    "image/svg+xml".to_owned()
                } else if same_text(e, "txt") {
                    "text/plain; charset=utf-8".to_owned()
                } else {
                    "application/octet-stream".to_owned()
                }
            },
            None => "application/octet-stream".to_owned(),
        }
    }
}

} // verus!
