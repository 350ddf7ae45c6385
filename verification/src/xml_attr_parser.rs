//! A lenient scanner for the attribute region of a start tag.
//!
//! The region is what stands between the element name and the closing `>`.
//! The scanner yields `name`/`value` pairs one by one and simply stops at the
//! first thing it cannot read: it never fails.

use crate::scan::{first_index, lemma_first_index, lemma_first_index_is, lemma_first_index_none};
use vstd::prelude::*;

verus! {

/// `=`
pub const EQUALS: u8 = 61;

/// `"`
pub const DOUBLE_QUOTE: u8 = 34;

/// `'`
pub const SINGLE_QUOTE: u8 = 39;

/// Tab, line feed, form feed, carriage return and space.
pub open spec fn is_space(c: u8) -> bool {
    c == 9 || c == 10 || c == 12 || c == 13 || c == 32
}

/// A name ends before the first `=` or white space.
pub open spec fn ends_name(c: u8) -> bool {
    c == EQUALS || is_space(c)
}

/// A value is delimited by `"` or by `'`.
pub open spec fn is_quote(c: u8) -> bool {
    c == DOUBLE_QUOTE || c == SINGLE_QUOTE
}

/// Where one attribute lies in the region: `name_start..name_end` is its
/// name, `value_start..value_end` its value without the quotes.
pub struct AttrSpan {
    pub name_start: int,
    pub name_end: int,
    pub value_start: int,
    pub value_end: int,
}

/// The attribute that the scanner reads when it stands at `cursor`.
///
/// The name starts at the first byte that is not white space and runs up to
/// the next `=` or white space. Only white space may stand between the name
/// and `=`, and only white space between `=` and the opening quote. The value
/// starts behind that quote and ends before the next occurrence of the same
/// quote.
pub open spec fn next_attr(s: Seq<u8>, cursor: int) -> Option<AttrSpan> {
    match first_index(s, cursor, |c: u8| !is_space(c)) {
        None => None,
        Some(name_start) => match first_index(s, name_start + 1, |c: u8| ends_name(c)) {
            None => None,
            Some(name_end) => match first_index(s, name_end, |c: u8| !is_space(c)) {
                None => None,
                Some(eq) => if s[eq] != EQUALS {
                    None
                } else {
                    match first_index(s, eq + 1, |c: u8| !is_space(c)) {
                        None => None,
                        Some(open) => if !is_quote(s[open]) {
                            None
                        } else {
                            match first_index(s, open + 1, |c: u8| c == s[open]) {
                                None => None,
                                Some(close) => Some(
                                    AttrSpan {
                                        name_start,
                                        name_end,
                                        value_start: open + 1,
                                        value_end: close,
                                    },
                                ),
                            }
                        },
                    }
                },
            },
        },
    }
}

/// The value of the first attribute at or after `cursor` whose name is `key`.
pub open spec fn first_value_of(s: Seq<u8>, cursor: int, key: Seq<u8>) -> Option<Seq<u8>>
    decreases s.len() - cursor,
{
    match next_attr(s, cursor) {
        None => None,
        Some(span) => if s.subrange(span.name_start, span.name_end) == key {
            Some(s.subrange(span.value_start, span.value_end))
        } else if cursor <= span.value_end < s.len() {
            first_value_of(s, span.value_end + 1, key)
        } else {
            None
        },
    }
}

/// An attribute lies inside the region and behind the cursor, in the order
/// name, value, and the scanner goes on behind its closing quote.
pub proof fn lemma_next_attr_bounds(s: Seq<u8>, cursor: int)
    requires
        0 <= cursor,
    ensures
        match next_attr(s, cursor) {
            Some(span) => cursor <= span.name_start < span.name_end < span.value_start
                <= span.value_end < s.len(),
            None => true,
        },
{
    lemma_first_index(s, cursor, |c: u8| !is_space(c));
    if let Some(name_start) = first_index(s, cursor, |c: u8| !is_space(c)) {
        lemma_first_index(s, name_start + 1, |c: u8| ends_name(c));
        if let Some(name_end) = first_index(s, name_start + 1, |c: u8| ends_name(c)) {
            lemma_first_index(s, name_end, |c: u8| !is_space(c));
            if let Some(eq) = first_index(s, name_end, |c: u8| !is_space(c)) {
                lemma_first_index(s, eq + 1, |c: u8| !is_space(c));
                if let Some(open) = first_index(s, eq + 1, |c: u8| !is_space(c)) {
                    lemma_first_index(s, open + 1, |c: u8| c == s[open]);
                }
            }
        }
    }
}

/// One attribute: its name and its value, both as they stand in the input.
#[derive(Debug, PartialEq, Eq)]
pub struct AttrParseResult<'a> {
    pub name: &'a [u8],
    pub value: &'a [u8],
}

/// The scanner: the region and how far it has been read.
pub struct AttrParser<'a> {
    attr_str: &'a [u8],
    cursor: usize,
}

fn space(c: u8) -> (b: bool)
    ensures
        b == is_space(c),
{
    c == 9 || c == 10 || c == 12 || c == 13 || c == 32
}

/// The first index at or after `cursor` whose byte `f` accepts, with that
/// byte.
pub fn find_with_start<F: Fn(u8) -> bool>(arr: &[u8], cursor: usize, f: F) -> (r: Option<
    (usize, u8),
>)
    requires
        forall|c: u8| #[trigger] f.requires((c,)),
    ensures
        match r {
            Some((i, c)) => {
                &&& cursor <= i < arr@.len()
                &&& c == arr@[i as int]
                &&& f.ensures((c,), true)
                &&& forall|j: int| cursor <= j < i ==> f.ensures((#[trigger] arr@[j],), false)
            },
            None => forall|j: int|
                cursor <= j < arr@.len() ==> f.ensures((#[trigger] arr@[j],), false),
        },
{
    let mut i: usize = cursor;
    while i < arr.len()
        invariant
            cursor <= i,
            forall|c: u8| #[trigger] f.requires((c,)),
            forall|j: int| cursor <= j < i ==> f.ensures((#[trigger] arr@[j],), false),
        decreases arr.len() - i,
    {
        let c = arr[i];
        if f(c) {
            return Some((i, c));
        }
        i += 1;
    }
    None
}

impl<'a> AttrParser<'a> {
    /// The region being scanned.
    pub closed spec fn input(&self) -> Seq<u8> {
        self.attr_str@
    }

    /// The index at which the next attribute is looked for.
    pub closed spec fn position(&self) -> int {
        self.cursor as int
    }

    pub fn new(attr_str: &'a [u8]) -> (p: Self)
        ensures
            p.input() == attr_str@,
            p.position() == 0,
    {
        Self { attr_str, cursor: 0 }
    }

    /// Reads the next attribute, or returns `None` and stays where it is when
    /// the rest of the region holds none.
    pub fn next(&mut self) -> (r: Option<AttrParseResult<'a>>)
        ensures
            final(self).input() == old(self).input(),
            match next_attr(old(self).input(), old(self).position()) {
                Some(span) => {
                    &&& r matches Some(attr)
                    &&& attr.name@ == old(self).input().subrange(span.name_start, span.name_end)
                    &&& attr.value@ == old(self).input().subrange(
                        span.value_start,
                        span.value_end,
                    )
                    &&& final(self).position() == span.value_end + 1
                },
                None => r is None && final(self).position() == old(self).position(),
            },
    {
        let arr = self.attr_str;
        let ghost s = arr@;
        assert(s.len() == arr.len());
        let ghost from = self.cursor as int;

        let skips_space = |c: u8| -> (b: bool)
            ensures
                b == !is_space(c),
            {
                !space(c)
            };
        let found = find_with_start(arr, self.cursor, skips_space);
        let name_start_pos = match found {
            Some((i, _)) => i,
            None => {
                proof {
                    lemma_first_index_none(s, from, |c: u8| !is_space(c));
                }
                return None;
            },
        };
        proof {
            lemma_first_index_is(s, from, |c: u8| !is_space(c), name_start_pos as int);
        }

        let at_name_end = |c: u8| -> (b: bool)
            ensures
                b == ends_name(c),
            {
                c == EQUALS || space(c)
            };
        let found = find_with_start(arr, name_start_pos + 1, at_name_end);
        let name_end_pos = match found {
            Some((i, _)) => i,
            None => {
                proof {
                    lemma_first_index_none(s, name_start_pos + 1, |c: u8| ends_name(c));
                }
                return None;
            },
        };
        proof {
            lemma_first_index_is(
                s,
                name_start_pos + 1,
                |c: u8| ends_name(c),
                name_end_pos as int,
            );
        }

        // Only white space may stand between the name and `=`.
        let skips_space_again = |c: u8| -> (b: bool)
            ensures
                b == !is_space(c),
            {
                !space(c)
            };
        let found = find_with_start(arr, name_end_pos, skips_space_again);
        let equal_mark_pos = match found {
            Some((i, c)) => {
                proof {
                    lemma_first_index_is(s, name_end_pos as int, |c: u8| !is_space(c), i as int);
                }
                if c != EQUALS {
                    return None;
                }
                i
            },
            None => {
                proof {
                    lemma_first_index_none(s, name_end_pos as int, |c: u8| !is_space(c));
                }
                return None;
            },
        };

        // Only white space may stand between `=` and the opening quote.
        let skips_space_once_more = |c: u8| -> (b: bool)
            ensures
                b == !is_space(c),
            {
                !space(c)
            };
        let found = find_with_start(arr, equal_mark_pos + 1, skips_space_once_more);
        let (quot_pos, quot) = match found {
            Some((i, c)) => {
                proof {
                    lemma_first_index_is(s, equal_mark_pos + 1, |c: u8| !is_space(c), i as int);
                }
                if c != DOUBLE_QUOTE && c != SINGLE_QUOTE {
                    return None;
                }
                (i, c)
            },
            None => {
                proof {
                    lemma_first_index_none(s, equal_mark_pos + 1, |c: u8| !is_space(c));
                }
                return None;
            },
        };
        let quot_start_pos = quot_pos + 1;

        let at_closing_quote = |c: u8| -> (b: bool)
            ensures
                b == (c == quot),
            {
                c == quot
            };
        let found = find_with_start(arr, quot_start_pos, at_closing_quote);
        let quot_end_pos = match found {
            Some((i, _)) => i,
            None => {
                proof {
                    lemma_first_index_none(s, quot_start_pos as int, |c: u8| c == s[quot_pos as int]);
                }
                return None;
            },
        };
        proof {
            lemma_first_index_is(
                s,
                quot_start_pos as int,
                |c: u8| c == s[quot_pos as int],
                quot_end_pos as int,
            );
        }

        let name = vstd::slice::slice_subrange(arr, name_start_pos, name_end_pos);
        let value = vstd::slice::slice_subrange(arr, quot_start_pos, quot_end_pos);
        self.cursor = quot_end_pos + 1;
        Some(AttrParseResult { name, value })
    }
}

/// The value of the first attribute of `region` whose name is `key`.
pub fn find_attr<'a>(region: &'a [u8], key: &[u8]) -> (r: Option<&'a [u8]>)
    ensures
        match first_value_of(region@, 0, key@) {
            Some(value) => r matches Some(found) && found@ == value,
            None => r is None,
        },
{
    let mut parser = AttrParser::new(region);
    loop
        invariant
            parser.input() == region@,
            0 <= parser.position(),
            first_value_of(region@, 0, key@) == first_value_of(
                region@,
                parser.position(),
                key@,
            ),
        decreases region@.len() - parser.position(),
    {
        proof {
            lemma_next_attr_bounds(region@, parser.position());
        }
        match parser.next() {
            None => {
                return None;
            },
            Some(attr) => {
                if crate::bytes::bytes_eq(attr.name, key) {
                    return Some(attr.value);
                }
            },
        }
    }
}

} // verus!
