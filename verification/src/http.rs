//! HTTP request methods, as RFC 7231 section 4 defines them.

use vstd::prelude::*;

verus! {

/// HTTP method.
#[derive(Copy, Clone, Debug, PartialEq, Eq, Structural)]
pub enum Method {
    /// GET: transfer a representation of the target.
    Get,
    /// HEAD: GET without the body.
    Head,
    /// POST: process the enclosed representation.
    Post,
    /// PUT: replace the target with the enclosed representation.
    Put,
    /// DELETE: remove the target.
    Delete,
    /// CONNECT: establish a tunnel.
    Connect,
    /// OPTIONS: describe the communication options of the target.
    Options,
    /// TRACE: a message loop-back test.
    Trace,
    /// PATCH: partial modification, RFC 5789.
    Patch,
}

/// Error returned by [`Method::from_str`] for an unknown method.
#[derive(Copy, Clone, Debug, PartialEq, Eq, Structural)]
pub struct UnknownMethod;

/// The lower-case counterpart of an ASCII upper-case letter; any other
/// character stands as it is.
pub open spec fn spec_lower_char(c: char) -> char {
    if c == 'A' {
        'a'
    } else if c == 'B' {
        'b'
    } else if c == 'C' {
        'c'
    } else if c == 'D' {
        'd'
    } else if c == 'E' {
        'e'
    } else if c == 'F' {
        'f'
    } else if c == 'G' {
        'g'
    } else if c == 'H' {
        'h'
    } else if c == 'I' {
        'i'
    } else if c == 'J' {
        'j'
    } else if c == 'K' {
        'k'
    } else if c == 'L' {
        'l'
    } else if c == 'M' {
        'm'
    } else if c == 'N' {
        'n'
    } else if c == 'O' {
        'o'
    } else if c == 'P' {
        'p'
    } else if c == 'Q' {
        'q'
    } else if c == 'R' {
        'r'
    } else if c == 'S' {
        's'
    } else if c == 'T' {
        't'
    } else if c == 'U' {
        'u'
    } else if c == 'V' {
        'v'
    } else if c == 'W' {
        'w'
    } else if c == 'X' {
        'x'
    } else if c == 'Y' {
        'y'
    } else if c == 'Z' {
        'z'
    } else {
        c
    }
}

/// The lower-case counterpart of an ASCII upper-case letter; any other
/// character stands as it is.
pub fn lower_char(c: char) -> (r: char)
    ensures
        r == spec_lower_char(c),
{
    match c {
        'A' => 'a',
        'B' => 'b',
        'C' => 'c',
        'D' => 'd',
        'E' => 'e',
        'F' => 'f',
        'G' => 'g',
        'H' => 'h',
        'I' => 'i',
        'J' => 'j',
        'K' => 'k',
        'L' => 'l',
        'M' => 'm',
        'N' => 'n',
        'O' => 'o',
        'P' => 'p',
        'Q' => 'q',
        'R' => 'r',
        'S' => 's',
        'T' => 't',
        'U' => 'u',
        'V' => 'v',
        'W' => 'w',
        'X' => 'x',
        'Y' => 'y',
        'Z' => 'z',
        _ => c,
    }
}

/// Whether `right` matches `lower` up to ASCII case: lowering each of its
/// characters yields `lower` exactly.
pub open spec fn spec_eq_lower_case(lower: Seq<char>, right: Seq<char>) -> bool {
    lower.len() == right.len() && forall|i: int|
        0 <= i < right.len() ==> lower[i] == spec_lower_char(#[trigger] right[i])
}

/// Compare `lower` (a string of lower-case characters) to `right`, ignoring
/// the ASCII case of `right`.
pub fn cmp_lower_case(lower: &str, right: &str) -> (r: bool)
    ensures
        r == spec_eq_lower_case(lower@, right@),
{
    let lower_len = lower.unicode_len();
    let right_len = right.unicode_len();
    if lower_len != right_len {
        return false;
    }
    let mut i: usize = 0;
    while i < right_len
        invariant
            lower@.len() == right@.len() == right_len,
            i <= right_len,
            forall|j: int| 0 <= j < i ==> lower@[j] == spec_lower_char(#[trigger] right@[j]),
        decreases right_len - i,
    {
        if lower.get_char(i) != lower_char(right.get_char(i)) {
            return false;
        }
        i = i + 1;
    }
    true
}

impl Method {
    /// Returns `true` if `self` is a HEAD method.
    pub fn is_head(self) -> (r: bool)
        ensures
            r == (self == Method::Head),
    {
        matches!(self, Method::Head)
    }

    /// Returns `true` if the method is safe: it asks for a read only,
    /// RFC 7231 section 4.2.1.
    pub fn is_safe(self) -> (r: bool)
        ensures
            r == (self == Method::Get || self == Method::Head || self == Method::Options || self
                == Method::Trace),
    {
        matches!(self, Method::Get | Method::Head | Method::Options | Method::Trace)
    }

    /// Returns `true` if the method is idempotent: repeating the request has
    /// the effect of making it once, RFC 7231 section 4.2.2.
    pub fn is_idempotent(self) -> (r: bool)
        ensures
            r == (self == Method::Put || self == Method::Delete || self == Method::Get || self
                == Method::Head || self == Method::Options || self == Method::Trace),
    {
        matches!(self, Method::Put | Method::Delete) || self.is_safe()
    }

    /// The method's name, as it stands in a request line.
    pub open spec fn spec_name(self) -> Seq<char> {
        match self {
            Method::Options => "OPTIONS"@,
            Method::Get => "GET"@,
            Method::Post => "POST"@,
            Method::Put => "PUT"@,
            Method::Delete => "DELETE"@,
            Method::Head => "HEAD"@,
            Method::Trace => "TRACE"@,
            Method::Connect => "CONNECT"@,
            Method::Patch => "PATCH"@,
        }
    }

    /// Returns the method's name, as it stands in a request line.
    pub fn as_str(self) -> (r: &'static str)
        ensures
            r@ == self.spec_name(),
    {
        match self {
            Method::Options => "OPTIONS",
            Method::Get => "GET",
            Method::Post => "POST",
            Method::Put => "PUT",
            Method::Delete => "DELETE",
            Method::Head => "HEAD",
            Method::Trace => "TRACE",
            Method::Connect => "CONNECT",
            Method::Patch => "PATCH",
        }
    }

    /// The method whose name `s` is, up to ASCII case.
    pub open spec fn spec_from_str(s: Seq<char>) -> Result<Method, UnknownMethod> {
        if spec_eq_lower_case("get"@, s) {
            Ok(Method::Get)
        } else if spec_eq_lower_case("put"@, s) {
            Ok(Method::Put)
        } else if spec_eq_lower_case("head"@, s) {
            Ok(Method::Head)
        } else if spec_eq_lower_case("post"@, s) {
            Ok(Method::Post)
        } else if spec_eq_lower_case("trace"@, s) {
            Ok(Method::Trace)
        } else if spec_eq_lower_case("patch"@, s) {
            Ok(Method::Patch)
        } else if spec_eq_lower_case("delete"@, s) {
            Ok(Method::Delete)
        } else if spec_eq_lower_case("connect"@, s) {
            Ok(Method::Connect)
        } else if spec_eq_lower_case("options"@, s) {
            Ok(Method::Options)
        } else {
            Err(UnknownMethod)
        }
    }

    /// Parse a method name, ignoring ASCII case. Returns the method whose
    /// name `method` is, and fails exactly when it is no method's name.
    pub fn from_str(method: &str) -> (r: Result<Method, UnknownMethod>)
        ensures
            r == Method::spec_from_str(method@),
    {
        proof {
            reveal_strlit("get");
            reveal_strlit("put");
            reveal_strlit("head");
            reveal_strlit("post");
            reveal_strlit("trace");
            reveal_strlit("patch");
            reveal_strlit("delete");
            reveal_strlit("connect");
            reveal_strlit("options");
        }
        let len = method.unicode_len();
        if len == 3 {
            if cmp_lower_case("get", method) {
                Ok(Method::Get)
            } else if cmp_lower_case("put", method) {
                Ok(Method::Put)
            } else {
                Err(UnknownMethod)
            }
        } else if len == 4 {
            if cmp_lower_case("head", method) {
                Ok(Method::Head)
            } else if cmp_lower_case("post", method) {
                Ok(Method::Post)
            } else {
                Err(UnknownMethod)
            }
        } else if len == 5 {
            if cmp_lower_case("trace", method) {
                Ok(Method::Trace)
            } else if cmp_lower_case("patch", method) {
                Ok(Method::Patch)
            } else {
                Err(UnknownMethod)
            }
        } else if len == 6 {
            if cmp_lower_case("delete", method) {
                Ok(Method::Delete)
            } else {
                Err(UnknownMethod)
            }
        } else if len == 7 {
            if cmp_lower_case("connect", method) {
                Ok(Method::Connect)
            } else if cmp_lower_case("options", method) {
                Ok(Method::Options)
            } else {
                Err(UnknownMethod)
            }
        } else {
            Err(UnknownMethod)
        }
    }
}

} // verus!
