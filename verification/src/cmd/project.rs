//! `scriv project`'s decisions: what a failed step had to say, as one text.

use vstd::prelude::*;

use crate::text::{chars_of, join, join_strings, skip_ws_back, string_of, trim_end};

verus! {

/// What `String::from_utf8_lossy` makes of some bytes.
pub uninterp spec fn utf8_lossy(bytes: Seq<u8>) -> Seq<char>;

/// `String::from_utf8_lossy`: the bytes read as UTF-8, each invalid sequence
/// replaced by U+FFFD. Of bytes that are all ASCII it is stated exactly, as
/// std documents it: one character per byte. How other bytes decode is left
/// to the name.
#[verifier::external_body]
fn lossy(bytes: &[u8]) -> (r: String)
    ensures
        r@ == utf8_lossy(bytes@),
        (forall|i: int| 0 <= i < bytes@.len() ==> #[trigger] bytes@[i] < 0x80) ==> r@ == bytes@.map_values(
            |b: u8| b as char,
        ),
{
    String::from_utf8_lossy(bytes).into_owned()
}

/// The streams a command wrote, each read as text with its trailing
/// whitespace dropped; those that said nothing are left out.
pub open spec fn said_parts(stdout: Seq<u8>, stderr: Seq<u8>) -> Seq<Seq<char>> {
    (if trim_end(utf8_lossy(stdout)).len() > 0 {
        seq![trim_end(utf8_lossy(stdout))]
    } else {
        Seq::empty()
    }) + (if trim_end(utf8_lossy(stderr)).len() > 0 {
        seq![trim_end(utf8_lossy(stderr))]
    } else {
        Seq::empty()
    })
}

/// `s` with trailing whitespace dropped.
fn trimmed_end(s: &str) -> (r: String)
    ensures
        r@ == trim_end(s@),
{
    let v = chars_of(s);
    assert(v@.subrange(0, v@.len() as int) =~= v@);
    let b = skip_ws_back(&v, 0, v.len());
    string_of(&v, 0, b)
}

/// What a command had to say: its standard output, then its standard error,
/// a line break between, each without trailing whitespace.
pub fn merge(stdout: &[u8], stderr: &[u8]) -> (r: String)
    ensures
        r@ == join(said_parts(stdout@, stderr@), "\n"@),
{
    let out = lossy(stdout);
    let err = lossy(stderr);
    let a = trimmed_end(out.as_str());
    let b = trimmed_end(err.as_str());
    let mut parts: Vec<String> = Vec::new();
    if a.unicode_len() > 0 {
        parts.push(a);
    }
    if b.unicode_len() > 0 {
        parts.push(b);
    }
    assert(parts@.map_values(|p: String| p@) =~= said_parts(stdout@, stderr@));
    join_strings(&parts, "\n")
}

} // verus!
