//! From the address of a document to the host under which its `seed_id` is
//! kept.

use crate::scan::{first_index, lemma_first_index_is, lemma_first_index_none};
use crate::util::StrError;
use std::borrow::Cow;
use vstd::prelude::*;
use vstd::string::{StrSliceExecFns, StringExecFns};

verus! {

/// What the address of a cafe or a blog has to match: a host, a slash and
/// one more segment, none of them empty.
pub const CAFEBLOG_PATTERN: &'static str = "^([^/]+/[^/]+)";

/// `s` without `prefix` at its start, or `s` itself where it does not begin
/// with it.
pub open spec fn without_prefix(s: Seq<char>, prefix: Seq<char>) -> Seq<char> {
    if prefix.is_prefix_of(s) {
        s.skip(prefix.len() as int)
    } else {
        s
    }
}

/// The address without `https://` or, failing that, without `http://`.
pub open spec fn without_scheme(url: Seq<char>) -> Seq<char> {
    if "https://"@.is_prefix_of(url) {
        url.skip("https://"@.len() as int)
    } else {
        without_prefix(url, "http://"@)
    }
}

/// The address without its scheme and without a leading `www.`.
pub open spec fn bare_address(url: Seq<char>) -> Seq<char> {
    without_prefix(without_scheme(url), "www."@)
}

/// The hosts under which many sites live, one per first path segment.
pub open spec fn is_cafe_or_blog(address: Seq<char>) -> bool {
    ||| "cafe.naver.com"@.is_prefix_of(address)
    ||| "m.cafe.daum.net"@.is_prefix_of(address)
    ||| "cafe.daum.net"@.is_prefix_of(address)
    ||| "blog.naver.com"@.is_prefix_of(address)
}

/// The address up to its first `/` or `#`, all of it where it has neither.
pub open spec fn host_part(address: Seq<char>) -> Seq<char> {
    match first_index(address, 0, |c: char| c == '/' || c == '#') {
        Some(end) => address.take(end),
        None => address,
    }
}

/// The host and the first path segment of an address: all up to the second
/// `/`, or all of it where there is no second one. `None` where the address
/// has no `/`, begins with one, or has nothing or another `/` right behind
/// the first.
pub open spec fn two_segments(address: Seq<char>) -> Option<Seq<char>> {
    match first_index(address, 0, |c: char| c == '/') {
        None => None,
        Some(slash) => {
            let end = match first_index(address, slash + 1, |c: char| c == '/') {
                Some(next) => next,
                None => address.len() as int,
            };
            if slash == 0 || end == slash + 1 {
                None
            } else {
                Some(address.take(end))
            }
        },
    }
}

/// The host that stands for an address, or `None` where the address is that
/// of a cafe or a blog and lacks the segment that tells the site.
pub open spec fn seed_host_of(url: Seq<char>) -> Option<Seq<char>> {
    let address = bare_address(url);
    if is_cafe_or_blog(address) {
        two_segments(address)
    } else {
        Some(host_part(address))
    }
}

/// The message of the error for an address of a cafe or a blog that lacks
/// its site.
pub open spec fn no_match_message(url: Seq<char>) -> Seq<char> {
    "CAFE_PTRN_NOT_MATCH: "@ + bare_address(url)
}

/// Compiles `pattern` with `regex::Regex::new`, searches `text` with
/// `Regex::captures` and hands out what the first group matched. Stated for
/// the one pattern `^([^/]+/[^/]+)`, which compiles: anchored at the start,
/// it matches one or more characters other than `/`, a `/`, and again one or
/// more characters other than `/`, each run as long as it can be.
#[verifier::external_body]
fn first_capture(pattern: &str, text: &str) -> (r: Option<String>)
    requires
        pattern@ == CAFEBLOG_PATTERN@,
    ensures
        match r {
            Some(found) => two_segments(text@) == Some(found@),
            None => two_segments(text@) is None,
        },
{
    let re = regex::Regex::new(pattern).unwrap();
    re.captures(text).map(|cap| cap.get(1).unwrap().as_str().to_string())
}

/// The characters of a string.
pub fn chars_of(s: &str) -> (chars: Vec<char>)
    ensures
        chars@ == s@,
{
    let mut chars: Vec<char> = Vec::new();
    for c in it: s.chars()
        invariant
            it.seq() == s@,
            chars@ == it.seq().take(it.index() as int),
    {
        assert(it.seq().take(it.index() + 1) =~= it.seq().take(it.index() as int).push(c));
        chars.push(c);
    }
    assert(chars@ =~= s@);
    chars
}

/// Whether `prefix` stands in `chars` at index `at`.
fn has_prefix_at(chars: &Vec<char>, at: usize, prefix: &Vec<char>) -> (r: bool)
    requires
        at <= chars.len(),
    ensures
        r == prefix@.is_prefix_of(chars@.skip(at as int)),
{
    if prefix.len() > chars.len() - at {
        return false;
    }
    let ghost rest = chars@.skip(at as int);
    let mut i: usize = 0;
    while i < prefix.len()
        invariant
            i <= prefix.len(),
            at + prefix.len() <= chars.len(),
            rest == chars@.skip(at as int),
            forall|j: int| 0 <= j < i ==> prefix@[j] == rest[j],
        decreases prefix.len() - i,
    {
        if prefix[i] != chars[at + i] {
            assert(rest[i as int] == chars@[at + i]);
            assert(rest.subrange(0, prefix@.len() as int)[i as int] == rest[i as int]);
            return false;
        }
        assert(rest[i as int] == chars@[at + i]);
        i += 1;
    }
    assert(rest.subrange(0, prefix@.len() as int) =~= prefix@);
    true
}

/// Where the address begins once `prefix` is left out: behind it where it
/// stands at `at`, else at `at`.
fn skip_prefix(chars: &Vec<char>, at: usize, prefix: &str) -> (next: usize)
    requires
        at <= chars.len(),
    ensures
        at <= next <= chars.len(),
        chars@.skip(next as int) == without_prefix(chars@.skip(at as int), prefix@),
{
    let prefix_chars = chars_of(prefix);
    if has_prefix_at(chars, at, &prefix_chars) {
        assert(chars@.skip(at as int).skip(prefix@.len() as int) =~= chars@.skip(
            at + prefix@.len(),
        ));
        at + prefix_chars.len()
    } else {
        at
    }
}

/// Whether the address that begins at `at` begins with `prefix`.
fn begins_with(chars: &Vec<char>, at: usize, prefix: &str) -> (r: bool)
    requires
        at <= chars.len(),
    ensures
        r == prefix@.is_prefix_of(chars@.skip(at as int)),
{
    let prefix_chars = chars_of(prefix);
    has_prefix_at(chars, at, &prefix_chars)
}

/// The address up to its first `/` or `#`.
pub fn cut_host(url: &str) -> (host: &str)
    ensures
        host@ == host_part(url@),
{
    let chars = chars_of(url);
    let mut i: usize = 0;
    while i < chars.len()
        invariant
            i <= chars.len(),
            chars@ == url@,
            forall|j: int| 0 <= j < i ==> !(chars@[j] == '/' || chars@[j] == '#'),
        decreases chars.len() - i,
    {
        let c = chars[i];
        if c == '/' || c == '#' {
            proof {
                lemma_first_index_is(url@, 0, |c: char| c == '/' || c == '#', i as int);
            }
            return url.substring_char(0, i);
        }
        i += 1;
    }
    proof {
        lemma_first_index_none(url@, 0, |c: char| c == '/' || c == '#');
    }
    url
}

/// The host under which the `seed_id` of an address is kept.
///
/// The scheme and a leading `www.` are left out. Of a cafe or a blog the
/// host and the first path segment are kept, and an address that has no such
/// segment is refused. Of any other address the host alone is kept. The
/// result depends on the address and on nothing else.
pub fn seed_host_str(url: &str) -> (r: Result<Cow<'_, str>, StrError>)
    ensures
        match r {
            Ok(host) => seed_host_of(url@) == Some(host@),
            Err(error) => seed_host_of(url@) is None && error.err_msg@ == no_match_message(url@),
        },
{
    let chars = chars_of(url);
    let len = chars.len();
    assert(chars@.skip(0) =~= url@);
    let https = chars_of("https://");
    let after_scheme = if has_prefix_at(&chars, 0, &https) {
        https.len()
    } else {
        skip_prefix(&chars, 0, "http://")
    };
    assert(url@.skip(after_scheme as int) == without_scheme(url@));
    let start = skip_prefix(&chars, after_scheme, "www.");
    let address = url.substring_char(start, len);
    assert(address@ =~= bare_address(url@));

    if begins_with(&chars, start, "cafe.naver.com") || begins_with(
        &chars,
        start,
        "m.cafe.daum.net",
    ) || begins_with(&chars, start, "cafe.daum.net") || begins_with(
        &chars,
        start,
        "blog.naver.com",
    ) {
        match first_capture(CAFEBLOG_PATTERN, address) {
            Some(value) => Ok(Cow::Owned(value)),
            None => {
                let mut message = String::from_str("CAFE_PTRN_NOT_MATCH: ");
                message.append(address);
                Err(StrError::new(message))
            },
        }
    } else {
        Ok(Cow::Borrowed(cut_host(address)))
    }
}

} // verus!
