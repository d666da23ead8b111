//! Attribute parsing: the `key=value` pairs of an opening tag.
//!
//! The pairs are found by a regular expression. The `regex` crate does the
//! matching; what this module proves is what becomes of the matches.

use crate::node::ElementNode;
use crate::text::{lowercase, to_lowercase};
use vstd::prelude::*;

verus! {

/// `regex::Error`: why a pattern did not compile.
#[verifier::external_type_specification]
#[verifier::external_body]
pub struct ExRegexError(regex::Error);

/// The pattern of one attribute: a word, `=`, and a word or a quoted string.
/// Group 2 is the key and group 3 the value, quotes included.
pub const ATTRIBUTE_PATTERN: &'static str = "((\\w+)=((\\w+)|(\".*?\")))+";

/// The capture groups of one match: for each group of the pattern, the text
/// that it matched, if it took part in the match.
pub type Groups = Seq<Option<Seq<char>>>;

/// What `regex` finds of `pattern` in `haystack`: `None` where the pattern
/// does not compile, else the capture groups of each successive
/// non-overlapping match.
pub uninterp spec fn regex_captures(pattern: Seq<char>, haystack: Seq<char>) -> Option<
    Seq<Seq<Option<Seq<char>>>>,
>;

/// `Regex::new` on `pattern`, then `Regex::captures_iter` on `haystack`:
/// every match with all its capture groups as owned strings, or the error
/// with which the pattern failed to compile. The pattern is compiled with
/// the crate's defaults, so the result depends on the two strings alone.
#[verifier::external_body]
pub(crate) fn find_captures(pattern: &str, haystack: &str) -> (found: Result<
    Vec<Vec<Option<String>>>,
    regex::Error,
>)
    ensures
        match found {
            Ok(matches) => regex_captures(pattern@, haystack@) == Some(matches.deep_view()),
            Err(_) => regex_captures(pattern@, haystack@) is None,
        },
{
    let re = regex::Regex::new(pattern)?;
    Ok(
        re.captures_iter(haystack).map(
            |c| c.iter().map(|g| g.map(|m| m.as_str().to_string())).collect(),
        ).collect(),
    )
}

/// The attribute that one match stands for: the lowercased key and the
/// value, where both groups took part in the match.
pub open spec fn attribute_of(groups: Groups) -> Option<(Seq<char>, Seq<char>)> {
    if groups.len() > 3 && groups[2] is Some && groups[3] is Some {
        Some((lowercase(groups[2]->0), groups[3]->0))
    } else {
        None
    }
}

/// `base` after the attributes of all matches have been set, in order: a
/// later value for a key replaces an earlier one.
pub open spec fn with_attributes(base: Map<Seq<char>, Seq<char>>, matches: Seq<Groups>) -> Map<
    Seq<char>,
    Seq<char>,
>
    decreases matches.len(),
{
    if matches.len() == 0 {
        base
    } else {
        let before = with_attributes(base, matches.drop_last());
        match attribute_of(matches.last()) {
            Some((k, v)) => before.insert(k, v),
            None => before,
        }
    }
}

/// The attributes that the text after a tag's name declares.
pub open spec fn attributes_in(source: Seq<char>) -> Map<Seq<char>, Seq<char>> {
    match regex_captures(ATTRIBUTE_PATTERN@, source) {
        Some(matches) => with_attributes(Map::empty(), matches),
        None => Map::empty(),
    }
}

/// Sets on `element` the attribute of every match in `matches`, in order.
pub fn add_captured_attributes(element: &mut ElementNode, matches: &Vec<Vec<Option<String>>>)
    ensures
        final(element).tag@ == old(element).tag@,
        final(element).attrs() == with_attributes(old(element).attrs(), matches.deep_view()),
{
    let mut i: usize = 0;
    assert(matches.deep_view().take(0) =~= Seq::<Groups>::empty());
    while i < matches.len()
        invariant
            i <= matches.len(),
            element.tag@ == old(element).tag@,
            element.attrs() == with_attributes(
                old(element).attrs(),
                matches.deep_view().take(i as int),
            ),
        decreases matches.len() - i,
    {
        let groups = &matches[i];
        let ghost all = matches.deep_view();
        proof {
            assert(all.take(i + 1).drop_last() =~= all.take(i as int));
        }
        if groups.len() > 3 {
            proof {
                assert(groups.deep_view()[2] == groups[2].deep_view());
                assert(groups.deep_view()[3] == groups[3].deep_view());
            }
            match (&groups[2], &groups[3]) {
                (Some(key), Some(value)) => {
                    element.add_attr(to_lowercase(key.as_str()), value.clone());
                },
                _ => {},
            }
        }
        i = i + 1;
    }
    assert(matches.deep_view().take(i as int) =~= matches.deep_view());
}

/// Sets on `element` the attributes that `source`, the text after a tag's
/// name, declares. Text that declares none leaves the element as it is.
pub fn parse_attributes(element: &mut ElementNode, source: &str)
    ensures
        final(element).tag@ == old(element).tag@,
        final(element).attrs() == (match regex_captures(ATTRIBUTE_PATTERN@, source@) {
            Some(matches) => with_attributes(old(element).attrs(), matches),
            None => old(element).attrs(),
        }),
{
    match find_captures(ATTRIBUTE_PATTERN, source) {
        Ok(matches) => add_captured_attributes(element, &matches),
        Err(_) => {},
    }
}

} // verus!
