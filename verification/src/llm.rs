//! The compact metadata header that opens the LLM-oriented output of a read.

use vstd::prelude::*;
use vstd::string::*;
use vstd::utf8::*;
use crate::fingerprint::{decimal, decimal_string};
use crate::json::JsonValue;

verus! {

/// Everything a read produces: the extracted content and its metadata.
#[derive(Debug)]
pub struct ReadOutput {
    pub title: String,
    pub content: String,
    pub author: String,
    pub excerpt: String,
    pub url: String,
    pub format: String,
    pub length: usize,
    pub method: String,
    pub elapsed_ms: u64,
    pub json_ld: Vec<JsonValue>,
    pub og_image: String,
    pub published_at: String,
    pub modified_at: String,
    pub section: String,
    pub site_name: String,
    pub tags: Vec<String>,
    pub language: String,
    pub error: Option<String>,
    /// Why extraction fell back to the whole document, when it did.
    pub extraction_note: Option<String>,
}

/// One header line: `prefix`, the value and a newline; nothing for an empty
/// value.
pub open spec fn header_line(prefix: Seq<char>, value: Seq<char>) -> Seq<char> {
    if value.len() == 0 {
        Seq::empty()
    } else {
        prefix + value + "\n"@
    }
}

/// The metadata header of a read: one `> ` line per populated field, in the
/// order URL, title, description, author, published date, site, language
/// and length; empty fields and a zero length are left out.
pub open spec fn metadata_header(r: ReadOutput) -> Seq<char> {
    header_line("> URL: "@, r.url@) + header_line("> Title: "@, r.title@) + header_line(
        "> Description: "@,
        r.excerpt@,
    ) + header_line("> Author: "@, r.author@) + header_line("> Published: "@, r.published_at@)
        + header_line("> Site: "@, r.site_name@) + header_line("> Language: "@, r.language@) + (
    if r.length > 0 {
        "> Length: "@ + decimal(r.length as nat) + "\n"@
    } else {
        Seq::empty()
    })
}

fn push_line(out: &mut String, prefix: &str, value: &String)
    ensures
        final(out)@ == old(out)@ + header_line(prefix@, value@),
{
    let v = value.as_str();
    proof {
        vstd::utf8::encode_utf8_decode_utf8(v@);
        if v@.len() == 0 {
            assert(v@ =~= Seq::<char>::empty());
        }
        if v.spec_bytes().len() == 0 {
            assert(v.spec_bytes() =~= Seq::<u8>::empty());
            assert(decode_utf8(Seq::<u8>::empty()) =~= Seq::<char>::empty());
        }
    }
    if v.as_bytes().len() > 0 {
        out.append(prefix);
        out.append(v);
        out.append("\n");
    }
}

/// Appends the metadata header of `result` to `out`.
pub fn build_metadata_header(out: &mut String, result: &ReadOutput)
    ensures
        final(out)@ == old(out)@ + metadata_header(*result),
{
    let ghost start = out@;
    push_line(out, "> URL: ", &result.url);
    push_line(out, "> Title: ", &result.title);
    push_line(out, "> Description: ", &result.excerpt);
    push_line(out, "> Author: ", &result.author);
    push_line(out, "> Published: ", &result.published_at);
    push_line(out, "> Site: ", &result.site_name);
    push_line(out, "> Language: ", &result.language);
    if result.length > 0 {
        let n = decimal_string(result.length as u64);
        out.append("> Length: ");
        out.append(n.as_str());
        out.append("\n");
    }
    assert(out@ =~= start + metadata_header(*result));
}

/// Largest serialised structured-data section (bytes) appended to LLM
/// output; a bigger one is left out.
pub const STRUCTURED_DATA_MAX_BYTES: usize = 16 * 1024;

/// Whether a structured-data section of `serialized_len` bytes is appended.
pub fn structured_section_fits(serialized_len: usize) -> (r: bool)
    ensures
        r == (serialized_len <= STRUCTURED_DATA_MAX_BYTES),
{
    serialized_len <= STRUCTURED_DATA_MAX_BYTES
}

} // verus!
