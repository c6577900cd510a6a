//! Responses: what a handler sets, the reason texts of status codes, the
//! content types of file extensions, and the bytes written on the wire.
use vstd::prelude::*;
use vstd::string::StringExecFns;
use crate::table::StrMap;
use crate::text::{debug_quoted, debug_text};
use vstd::utf8::encode_utf8;
use crate::url_encoding::hex_digit;

verus! {

/// A response under construction.
#[derive(Debug)]
pub struct Response {
    status: usize,
    data: String,
    headers: StrMap,
    cookies: StrMap,
}

/// Why a view could not be loaded.
#[derive(Clone, Copy, Debug, PartialEq, Eq, Structural)]
pub enum ViewFailure {
    AccessDenied,
    Missing,
}

/// The header that names the content type.
pub open spec fn content_type_header() -> Seq<char> {
    "Content-Type"@
}

/// The content type of plain text, also the default one.
pub open spec fn default_content_type() -> Seq<char> {
    "text/plain"@
}

/// The reason text of a status code that has one of its own.
pub open spec fn status_reason(code: nat) -> Option<Seq<char>> {
    if code == 200 {
        Some("OK"@)
    } else if code == 201 {
        Some("Created"@)
    } else if code == 202 {
        Some("Accepted"@)
    } else if code == 204 {
        Some("No Content"@)
    } else if code == 400 {
        Some("Bad Request"@)
    } else if code == 401 {
        Some("Unauthorized"@)
    } else if code == 403 {
        Some("Forbidden"@)
    } else if code == 404 {
        Some("Not Found"@)
    } else if code == 405 {
        Some("Method Not Allowed"@)
    } else if code == 500 {
        Some("Internal Server Error"@)
    } else if code == 502 {
        Some("Bad Gateway"@)
    } else if code == 503 {
        Some("Service Unavailable"@)
    } else {
        None
    }
}

/// The decimal digits of `n`.
pub open spec fn decimal(n: nat) -> Seq<char>
    decreases n,
{
    if n < 10 {
        seq![hex_digit(n as int)]
    } else {
        decimal(n / 10).push(hex_digit((n % 10) as int))
    }
}

/// The reason text of a status code: its own, else that of its hundred when
/// the code lies from 200 to 599 and the hundred has one, else `OK`.
pub open spec fn status_description(code: nat) -> Seq<char> {
    match status_reason(code) {
        Some(t) => t,
        None => if 199 < code < 600 {
            match status_reason((code / 100) * 100) {
                Some(t) => t,
                None => "OK"@,
            }
        } else {
            "OK"@
        },
    }
}

/// The number of bytes of the UTF-8 encoding of `s`, as `str::len` counts
/// them.
pub open spec fn byte_len(s: Seq<char>) -> nat {
    (encode_utf8(s).len() as usize) as nat
}

/// The bytes of a response as they are written: status line, length and
/// type headers, a blank line, and the body.
pub open spec fn wire_text(
    status: nat,
    description: Seq<char>,
    length: nat,
    content_type: Seq<char>,
    body: Seq<char>,
) -> Seq<char> {
    "HTTP/1.1 "@ + decimal(status) + " "@ + description + "\r\n"@ + "Content-Length: "@ + decimal(
        length,
    ) + "\r\n"@ + "Content-Type: "@ + content_type + "\r\n"@ + "\r\n"@ + body
}

/// The decimal digits of `n`.
pub fn decimal_chars(n: usize) -> (r: Vec<char>)
    ensures
        r@ == decimal(n as nat),
    decreases n,
{
    let digits = vec!['0', '1', '2', '3', '4', '5', '6', '7', '8', '9'];
    assert(forall|i: int| 0 <= i < 10 ==> digits@[i] == hex_digit(i));
    if n < 10 {
        vec![digits[n]]
    } else {
        let mut r = decimal_chars(n / 10);
        r.push(digits[n % 10]);
        r
    }
}

/// The decimal text of `n`.
pub fn decimal_string(n: usize) -> (r: String)
    ensures
        r@ == decimal(n as nat),
{
    crate::text::string_of(&decimal_chars(n))
}

/// The reason text of a status code that has one of its own.
pub fn status_text(code: usize) -> (r: Option<String>)
    ensures
        match status_reason(code as nat) {
            Some(t) => r matches Some(s) && s@ == t,
            None => r is None,
        },
{
    let text = match code {
        200 => "OK",
        201 => "Created",
        202 => "Accepted",
        204 => "No Content",
        400 => "Bad Request",
        401 => "Unauthorized",
        403 => "Forbidden",
        404 => "Not Found",
        405 => "Method Not Allowed",
        500 => "Internal Server Error",
        502 => "Bad Gateway",
        503 => "Service Unavailable",
        _ => {
            return None;
        },
    };
    Some(String::from_str(text))
}

/// The reason text of a status code: its own, else that of its hundred for
/// a code from 200 to 599, else `OK`.
pub fn get_status_code_description(status_code: usize) -> (r: String)
    ensures
        r@ == status_description(status_code as nat),
{
    match status_text(status_code) {
        Some(result) => result,
        None => {
            if status_code > 199 && status_code < 600 {
                let hundred = (status_code / 100) * 100;
                match status_text(hundred) {
                    Some(description) => description,
                    None => String::from_str("OK"),
                }
            } else {
                String::from_str("OK")
            }
        },
    }
}

impl Response {
    /// An empty response with status 200.
    pub fn new() -> (r: Response)
        ensures
            r.status_of() == 200,
            r.data_of().len() == 0,
            r.headers_of() == Map::<Seq<char>, Seq<char>>::empty(),
            r.cookies_of() == Map::<Seq<char>, Seq<char>>::empty(),
    {
        Response {
            status: 200,
            data: String::new(),
            headers: StrMap::new(),
            cookies: StrMap::new(),
        }
    }

    /// The status code.
    pub closed spec fn status_of(&self) -> nat {
        self.status as nat
    }

    /// The body.
    pub closed spec fn data_of(&self) -> Seq<char> {
        self.data@
    }

    /// The headers.
    pub closed spec fn headers_of(&self) -> Map<Seq<char>, Seq<char>> {
        self.headers@
    }

    /// The cookies.
    pub closed spec fn cookies_of(&self) -> Map<Seq<char>, Seq<char>> {
        self.cookies@
    }

    /// The content type: the header's value, else plain text.
    pub open spec fn content_type_spec(&self) -> Seq<char> {
        if self.headers_of().contains_key(content_type_header()) {
            self.headers_of()[content_type_header()]
        } else {
            default_content_type()
        }
    }

    /// The status code.
    pub fn get_status(&self) -> (r: usize)
        ensures
            r == self.status_of(),
    {
        self.status
    }

    /// Sets the cookie `key` to `value`.
    pub fn set_cookie(&mut self, key: String, value: String)
        ensures
            final(self).cookies_of() == old(self).cookies_of().insert(key@, value@),
            final(self).headers_of() == old(self).headers_of(),
            final(self).status_of() == old(self).status_of(),
            final(self).data_of() == old(self).data_of(),
    {
        self.cookies.set(key, value);
    }

    /// Sets the header `key` to `value`.
    pub fn set_header(&mut self, key: String, value: String)
        ensures
            final(self).headers_of() == old(self).headers_of().insert(key@, value@),
            final(self).cookies_of() == old(self).cookies_of(),
            final(self).status_of() == old(self).status_of(),
            final(self).data_of() == old(self).data_of(),
    {
        self.headers.set(key, value);
    }

    /// Sets the status code.
    pub fn status(&mut self, status: usize) -> (r: &Self)
        ensures
            final(self).status_of() == status,
            final(self).headers_of() == old(self).headers_of(),
            final(self).cookies_of() == old(self).cookies_of(),
            final(self).data_of() == old(self).data_of(),
            *r == *final(self),
    {
        self.status = status;
        self
    }

    /// Sets the body to `data`, as plain text.
    pub fn text(&mut self, data: String) -> (r: &Self)
        ensures
            final(self).data_of() == data@,
            final(self).headers_of() == old(self).headers_of().insert(
                content_type_header(),
                default_content_type(),
            ),
            final(self).cookies_of() == old(self).cookies_of(),
            final(self).status_of() == old(self).status_of(),
            *r == *final(self),
    {
        self.headers.set(String::from_str("Content-Type"), String::from_str("text/plain"));
        self.data = data;
        self
    }

    /// Sets the body to a serialized JSON text, with the JSON content type;
    /// when serializing failed, sets the body to a message that names the
    /// type and the failure, and the status to 500.
    pub fn json_text(&mut self, serialized: Result<String, String>, subject: &str) -> (r: &Self)
        ensures
            match serialized {
                Ok(t) => final(self).data_of() == t@ && final(self).headers_of() == old(
                    self,
                ).headers_of().insert(content_type_header(), "application/json"@)
                    && final(self).status_of() == old(self).status_of(),
                Err(m) => final(self).data_of() == "Serialization of "@ + debug_text(subject@)
                    + " Failed: "@ + debug_text(m@) && final(self).headers_of() == old(
                    self,
                ).headers_of() && final(self).status_of() == 500,
            },
            final(self).cookies_of() == old(self).cookies_of(),
            *r == *final(self),
    {
        match serialized {
            Ok(data) => {
                self.headers.set(String::from_str("Content-Type"), String::from_str("application/json"));
                self.data = data;
            },
            Err(err) => {
                let mut message = String::from_str("Serialization of ");
                message.append(debug_quoted(subject).as_str());
                message.append(" Failed: ");
                message.append(debug_quoted(err.as_str()).as_str());
                self.data = message;
                self.status(500);
            },
        }
        self
    }

    /// Sets the body to a loaded view, as HTML; when it could not be loaded,
    /// to `Access Denied` with status 500 or `Not Found` with status 404.
    pub fn view_outcome(&mut self, outcome: Result<String, ViewFailure>) -> (r: &Self)
        ensures
            match outcome {
                Ok(content) => final(self).data_of() == content@ && final(self).headers_of()
                    == old(self).headers_of().insert(content_type_header(), "text/html"@)
                    && final(self).status_of() == old(self).status_of(),
                Err(ViewFailure::AccessDenied) => final(self).data_of() == "Access Denied"@
                    && final(self).status_of() == 500 && final(self).headers_of() == old(
                    self,
                ).headers_of(),
                Err(ViewFailure::Missing) => final(self).data_of() == "Not Found"@
                    && final(self).status_of() == 404 && final(self).headers_of() == old(
                    self,
                ).headers_of(),
            },
            final(self).cookies_of() == old(self).cookies_of(),
            *r == *final(self),
    {
        match outcome {
            Ok(content) => {
                self.headers.set(String::from_str("Content-Type"), String::from_str("text/html"));
                self.data = content;
            },
            Err(ViewFailure::AccessDenied) => {
                self.data = String::from_str("Access Denied");
                self.status(500);
            },
            Err(ViewFailure::Missing) => {
                self.data = String::from_str("Not Found");
                self.status(404);
            },
        }
        self
    }

    /// The body.
    pub fn get_data(&self) -> (r: &String)
        ensures
            r@ == self.data_of(),
    {
        &self.data
    }

    /// The content type: the header's value, else plain text.
    pub fn get_content_type(&self) -> (r: String)
        ensures
            r@ == self.content_type_spec(),
    {
        match self.headers.get(&String::from_str("Content-Type")) {
            Some(t) => t.clone(),
            None => String::from_str("text/plain"),
        }
    }

    /// The text written on the wire for this response.
    pub fn serialize(&self) -> (r: String)
        ensures
            r@ == wire_text(
                self.status_of(),
                status_description(self.status_of()),
                byte_len(self.data_of()),
                self.content_type_spec(),
                self.data_of(),
            ),
    {
        let content_length = self.data.as_str().len();
        let mut out = String::from_str("HTTP/1.1 ");
        out.append(decimal_string(self.status).as_str());
        out.append(" ");
        out.append(get_status_code_description(self.status).as_str());
        out.append("\r\n");
        out.append("Content-Length: ");
        out.append(decimal_string(content_length).as_str());
        out.append("\r\n");
        out.append("Content-Type: ");
        out.append(self.get_content_type().as_str());
        out.append("\r\n");
        out.append("\r\n");
        out.append(self.data.as_str());
        out
    }
}

} // verus!
