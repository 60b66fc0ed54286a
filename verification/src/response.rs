//! An HTTP response as the library's logic reads it.

use vstd::prelude::*;
use crate::text::{ascii_lower_all, eq_ignore_ascii_case};

verus! {

/// A fetched HTTP response. Header names and values are plain strings;
/// header-name lookup ignores ASCII case, as HTTP header names do.
#[derive(Debug)]
pub struct HttpResponse {
    /// The HTTP status code.
    pub status: u16,
    /// The final URL after redirects.
    pub url: String,
    /// Header `(name, value)` pairs in the order received.
    pub headers: Vec<(String, String)>,
    /// The decoded response body.
    pub body: String,
}

/// Header `i` of `headers` has name `name`, ignoring ASCII case.
pub open spec fn header_named(headers: Seq<(String, String)>, i: int, name: Seq<char>) -> bool {
    0 <= i < headers.len() && ascii_lower_all(headers[i].0@) == ascii_lower_all(name)
}

/// The value of the first header called `name` (ignoring ASCII case).
pub open spec fn header_value(headers: Seq<(String, String)>, name: Seq<char>) -> Option<Seq<char>> {
    if exists|i: int| header_named(headers, i, name) {
        let i = choose|i: int|
            header_named(headers, i, name) && forall|j: int| 0 <= j < i ==> !header_named(headers, j, name);
        Some(headers[i].1@)
    } else {
        None
    }
}

impl HttpResponse {
    /// The value of the first header called `name`, ignoring ASCII case in
    /// the name.
    pub fn header(&self, name: &str) -> (r: Option<&str>)
        ensures
            match r {
                Some(v) => header_value(self.headers@, name@) == Some(v@),
                None => header_value(self.headers@, name@) is None,
            },
    {
        let mut i: usize = 0;
        while i < self.headers.len()
            invariant
                i <= self.headers@.len(),
                forall|j: int| 0 <= j < i ==> !header_named(self.headers@, j, name@),
            decreases self.headers@.len() - i,
        {
            if eq_ignore_ascii_case(self.headers[i].0.as_str(), name) {
                proof {
                    let k = choose|k: int|
                        header_named(self.headers@, k, name@) && forall|j: int|
                            0 <= j < k ==> !header_named(self.headers@, j, name@);
                    assert(header_named(self.headers@, i as int, name@));
                    if k < i {
                    } else if k > i {
                    }
                    assert(k == i);
                }
                return Some(self.headers[i].1.as_str());
            }
            i += 1;
        }
        None
    }
}

} // verus!
