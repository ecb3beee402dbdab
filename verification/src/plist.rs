//! Single values out of a property list, found by their key.

use vstd::prelude::*;

use crate::numbers;
use crate::text;

verus! {

/// What follows the element that names `key`.
pub open spec fn after_key(xml: Seq<char>, key: Seq<char>) -> Option<Seq<char>> {
    text::after_first(xml, "<key>"@ + key + "</key>"@)
}

/// The trimmed text between the first `open` behind the key and the `close` that follows it.
pub open spec fn element(
    xml: Seq<char>,
    key: Seq<char>,
    open_tag: Seq<char>,
    close_tag: Seq<char>,
) -> Option<Seq<char>> {
    match after_key(xml, key) {
        None => None,
        Some(rest) => match text::after_first(rest, open_tag) {
            None => None,
            Some(body) => match text::before_first(body, close_tag) {
                None => None,
                Some(s) => Some(text::trim(s)),
            },
        },
    }
}

pub open spec fn string_value(xml: Seq<char>, key: Seq<char>) -> Option<Seq<char>> {
    element(xml, key, "<string>"@, "</string>"@)
}

pub open spec fn integer_value(xml: Seq<char>, key: Seq<char>) -> Option<nat> {
    match element(xml, key, "<integer>"@, "</integer>"@) {
        None => None,
        Some(s) => numbers::parse_unsigned(s, u64::MAX as nat),
    }
}

pub open spec fn bool_value(xml: Seq<char>, key: Seq<char>) -> Option<bool> {
    match after_key(xml, key) {
        None => None,
        Some(rest) => if text::starts_with(text::trim_start(rest), "<true/>"@) {
            Some(true)
        } else if text::starts_with(text::trim_start(rest), "<false/>"@) {
            Some(false)
        } else {
            None
        },
    }
}

fn find_key(xml: &str, key: &str) -> (r: Option<Vec<char>>)
    ensures
        match r {
            Some(v) => after_key(xml@, key@) == Some(v@),
            None => after_key(xml@, key@) is None,
        },
{
    let mut needle = String::new();
    needle.append("<key>");
    needle.append(key);
    needle.append("</key>");
    assert(needle@ =~= "<key>"@ + key@ + "</key>"@);
    let x = text::chars_of(xml);
    let n = text::chars_of(needle.as_str());
    text::chars_after_first(&x, &n)
}

fn find_element(xml: &str, key: &str, open_tag: &str, close_tag: &str) -> (r: Option<Vec<char>>)
    ensures
        match r {
            Some(v) => element(xml@, key@, open_tag@, close_tag@) == Some(v@),
            None => element(xml@, key@, open_tag@, close_tag@) is None,
        },
{
    let rest = match find_key(xml, key) {
        Some(v) => v,
        None => return None,
    };
    let o = text::chars_of(open_tag);
    let body = match text::chars_after_first(&rest, &o) {
        Some(v) => v,
        None => return None,
    };
    let c = text::chars_of(close_tag);
    match text::chars_before_first(&body, &c) {
        Some(v) => Some(text::trim_chars(&v)),
        None => None,
    }
}

/// The string under `key`.
pub fn plist_str(xml: &str, key: &str) -> (r: Option<String>)
    ensures
        match r {
            Some(s) => string_value(xml@, key@) == Some(s@),
            None => string_value(xml@, key@) is None,
        },
{
    match find_element(xml, key, "<string>", "</string>") {
        Some(v) => Some(text::string_of(&v)),
        None => None,
    }
}

/// The integer under `key`, if it is one of 64 bits.
pub fn plist_u64(xml: &str, key: &str) -> (r: Option<u64>)
    ensures
        match r {
            Some(n) => integer_value(xml@, key@) == Some(n as nat),
            None => integer_value(xml@, key@) is None,
        },
{
    match find_element(xml, key, "<integer>", "</integer>") {
        Some(v) => numbers::parse_chars(&v, u64::MAX),
        None => None,
    }
}

/// The truth value under `key`.
pub fn plist_bool(xml: &str, key: &str) -> (r: Option<bool>)
    ensures
        r == bool_value(xml@, key@),
{
    let rest = match find_key(xml, key) {
        Some(v) => text::trim_start_chars(&v),
        None => return None,
    };
    let yes = text::chars_of("<true/>");
    let no = text::chars_of("<false/>");
    if text::chars_start_with(&rest, &yes) {
        Some(true)
    } else if text::chars_start_with(&rest, &no) {
        Some(false)
    } else {
        None
    }
}

} // verus!
