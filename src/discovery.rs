use vstd::prelude::*;
use crate::market::{opt_view, or_else};
use crate::text::{chars_of, find_from, find_in, lemma_find_from_bounds, occurs_at_exec, string_from};

verus! {

/// The build identifier used when none can be discovered.
pub const DEFAULT_BUILD_ID: &'static str = "keyXdCWmEdmqkd-AH927v";

/// What `serde_json` reads as the string member `key` of the JSON object
/// written in `text`: `None` when the text is not JSON, is not an object, or
/// has no string member of that name.
pub uninterp spec fn json_string_member(text: Seq<char>, key: Seq<char>) -> Option<Seq<char>>;

/// Relies on `serde_json::from_str` to parse `text` as a `Value`, and on
/// `Value::get` to find member `key` of an object.
#[verifier::external_body]
fn string_member_of_json(text: &str, key: &str) -> (r: Option<String>)
    ensures
        opt_view(r) == json_string_member(text@, key@),
{
    let value: serde_json::Value = match serde_json::from_str(text) {
        Ok(v) => v,
        Err(_) => return None,
    };
    match value.get(key) {
        Some(serde_json::Value::String(s)) => Some(s.clone()),
        _ => None,
    }
}

/// The identifier held by the page's `__NEXT_DATA__` block: the text from the
/// first `{` after the marker up to the next `</script>`, read as JSON, and
/// its `buildId` string member.
pub open spec fn next_data_build_id(h: Seq<char>) -> Option<Seq<char>> {
    match find_from(h, "__NEXT_DATA__"@, 0) {
        None => None,
        Some(s) => match find_from(h, seq!['{'], s) {
            None => None,
            Some(d) => match find_from(h, "</script>"@, d) {
                None => None,
                Some(e) => json_string_member(h.subrange(d, e), "buildId"@),
            },
        },
    }
}

/// Number of bytes that `c` takes in UTF-8.
pub open spec fn utf8_width(c: char) -> nat {
    if (c as u32) < 0x80 {
        1
    } else if (c as u32) < 0x800 {
        2
    } else if (c as u32) < 0x10000 {
        3
    } else {
        4
    }
}

/// Number of bytes that `s` takes in UTF-8.
pub open spec fn utf8_len(s: Seq<char>) -> nat
    decreases s.len(),
{
    if s.len() == 0 {
        0
    } else {
        utf8_len(s.drop_last()) + utf8_width(s.last())
    }
}

pub open spec fn starts_with(s: Seq<char>, p: Seq<char>) -> bool {
    p.len() <= s.len() && s.take(p.len() as int) == p
}

/// A path segment that can be a build identifier: not an asset directory
/// (`chunks`, `css`, `media`) and longer than ten bytes.
pub open spec fn is_build_id_candidate(c: Seq<char>) -> bool {
    !starts_with(c, "chunks"@) && !starts_with(c, "css"@) && !starts_with(c, "media"@)
        && utf8_len(c) > 10
}

/// The first acceptable segment `<id>` of a path `/_next/static/<id>/`,
/// searching from `from`; after a rejected segment the search goes on from
/// the slash that closed it.
pub open spec fn static_path_build_id(h: Seq<char>, from: int) -> Option<Seq<char>>
    decreases h.len() + 1 - from,
{
    match find_from(h, "/_next/static/"@, from) {
        None => None,
        Some(p) => {
            let st = p + "/_next/static/"@.len();
            match find_from(h, seq!['/'], st) {
                None => None,
                Some(sl) => {
                    let cand = h.subrange(st, sl);
                    if is_build_id_candidate(cand) {
                        Some(cand)
                    } else {
                        proof {
                            reveal_strlit("/_next/static/");
                            lemma_find_from_bounds(h, "/_next/static/"@, from);
                            lemma_find_from_bounds(h, seq!['/'], st);
                        }
                        static_path_build_id(h, sl)
                    }
                }
            }
        }
    }
}

/// The build identifier found in a homepage: from `__NEXT_DATA__` first,
/// else from the static asset paths.
pub open spec fn build_id_in(h: Seq<char>) -> Option<Seq<char>> {
    or_else(next_data_build_id(h), static_path_build_id(h, 0))
}

fn next_data_in(h: &Vec<char>) -> (r: Option<String>)
    ensures
        opt_view(r) == next_data_build_id(h@),
{
    let marker = chars_of("__NEXT_DATA__");
    let brace = vec!['{'];
    let close = chars_of("</script>");
    assert(brace@ =~= seq!['{']);
    let s = match find_in(h, &marker, 0) {
        Some(s) => s,
        None => return None,
    };
    let d = match find_in(h, &brace, s) {
        Some(d) => d,
        None => return None,
    };
    let e = match find_in(h, &close, d) {
        Some(e) => e,
        None => return None,
    };
    proof {
        lemma_find_from_bounds(h@, close@, d as int);
    }
    let text = string_from(h, d, e);
    string_member_of_json(text.as_str(), "buildId")
}

fn utf8_width_of(c: char) -> (r: u128)
    ensures
        r == utf8_width(c),
        r <= 4,
{
    let u = c as u32;
    if u < 0x80 {
        1
    } else if u < 0x800 {
        2
    } else if u < 0x10000 {
        3
    } else {
        4
    }
}

fn utf8_len_in(v: &Vec<char>, lo: usize, hi: usize) -> (r: u128)
    requires
        lo <= hi <= v@.len(),
    ensures
        r == utf8_len(v@.subrange(lo as int, hi as int)),
{
    let mut total: u128 = 0;
    let mut k: usize = lo;
    while k < hi
        invariant
            lo <= k <= hi <= v@.len(),
            total == utf8_len(v@.subrange(lo as int, k as int)),
            total <= 4 * (k - lo),
        decreases hi - k,
    {
        assert(v@.subrange(lo as int, k + 1).drop_last() =~= v@.subrange(lo as int, k as int));
        assert(v@.subrange(lo as int, k + 1).last() == v@[k as int]);
        total = total + utf8_width_of(v[k]);
        k = k + 1;
    }
    total
}

fn starts_with_in(v: &Vec<char>, lo: usize, hi: usize, p: &Vec<char>) -> (r: bool)
    requires
        lo <= hi <= v@.len(),
    ensures
        r == starts_with(v@.subrange(lo as int, hi as int), p@),
{
    if p.len() > hi - lo {
        return false;
    }
    assert(v@.subrange(lo as int, hi as int).take(p@.len() as int)
        =~= v@.subrange(lo as int, lo + p@.len()));
    occurs_at_exec(v, p, lo)
}

fn is_candidate_in(v: &Vec<char>, lo: usize, hi: usize) -> (r: bool)
    requires
        lo <= hi <= v@.len(),
    ensures
        r == is_build_id_candidate(v@.subrange(lo as int, hi as int)),
{
    let chunks = chars_of("chunks");
    let css = chars_of("css");
    let media = chars_of("media");
    !starts_with_in(v, lo, hi, &chunks) && !starts_with_in(v, lo, hi, &css)
        && !starts_with_in(v, lo, hi, &media) && utf8_len_in(v, lo, hi) > 10
}

fn static_path_in(h: &Vec<char>) -> (r: Option<String>)
    ensures
        opt_view(r) == static_path_build_id(h@, 0),
{
    let prefix = chars_of("/_next/static/");
    let slash = vec!['/'];
    assert(slash@ =~= seq!['/']);
    proof {
        reveal_strlit("/_next/static/");
    }
    let hn = h.len();
    let mut search: usize = 0;
    loop
        invariant
            hn == h@.len(),
            prefix@ == "/_next/static/"@,
            prefix@.len() > 0,
            slash@ == seq!['/'],
            search <= h@.len(),
            static_path_build_id(h@, 0) == static_path_build_id(h@, search as int),
        decreases h@.len() + 1 - search,
    {
        let p = match find_in(h, &prefix, search) {
            Some(p) => p,
            None => return None,
        };
        proof {
            lemma_find_from_bounds(h@, prefix@, search as int);
        }
        let st = p + prefix.len();
        let sl = match find_in(h, &slash, st) {
            Some(sl) => sl,
            None => return None,
        };
        proof {
            lemma_find_from_bounds(h@, slash@, st as int);
        }
        if is_candidate_in(h, st, sl) {
            return Some(string_from(h, st, sl));
        }
        search = sl;
    }
}

/// Finds the build identifier in a homepage: the `buildId` of its
/// `__NEXT_DATA__` block, else the first plausible segment of a
/// `/_next/static/<id>/` path.
pub fn extract_build_id_from_html(html: &str) -> (r: Option<String>)
    ensures
        opt_view(r) == build_id_in(html@),
{
    let h = chars_of(html);
    match next_data_in(&h) {
        Some(id) => Some(id),
        None => static_path_in(&h),
    }
}

/// The build identifier to use, given the homepage (`None` when it could not
/// be fetched). Falls back to `DEFAULT_BUILD_ID`; never fails.
pub fn discover_build_id(homepage: Option<&str>) -> (r: String)
    ensures
        r@ == match homepage {
            Some(h) => match build_id_in(h@) {
                Some(id) => id,
                None => DEFAULT_BUILD_ID@,
            },
            None => DEFAULT_BUILD_ID@,
        },
        homepage is None ==> r@ == DEFAULT_BUILD_ID@,
        homepage is Some && build_id_in(homepage->0@) is None ==> r@ == DEFAULT_BUILD_ID@,
{
    match homepage {
        Some(h) => match extract_build_id_from_html(h) {
            Some(id) => id,
            None => String::from_str(DEFAULT_BUILD_ID),
        },
        None => String::from_str(DEFAULT_BUILD_ID),
    }
}

} // verus!
