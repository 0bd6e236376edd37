//! Addresses: the part of an address that names the site, and the address
//! that a link on a page leads to.

use crate::text::{
    begins_with, chars_of, ends_with, finishes_with, starts_with, string_of, substring,
};
use vstd::prelude::*;

verus! {

/// The position of the `n`-th `/` of `s` at or after `from`; the length of `s`
/// where there are fewer.
pub open spec fn nth_slash(s: Seq<char>, n: nat, from: int) -> int
    decreases s.len() - from,
{
    if from < 0 || from >= s.len() {
        s.len() as int
    } else if s[from] == '/' {
        if n <= 1 {
            from
        } else {
            nth_slash(s, (n - 1) as nat, from + 1)
        }
    } else {
        nth_slash(s, n, from + 1)
    }
}

/// The address up to its third `/`, which is left out: the scheme and the
/// site. The whole address where it has fewer than three.
pub open spec fn base_url(url: Seq<char>) -> Seq<char> {
    url.take(nth_slash(url, 3, 0))
}

/// The `n`-th `/` is found inside the text or at its end.
pub proof fn lemma_nth_slash_bounds(s: Seq<char>, n: nat, from: int)
    requires
        0 <= from <= s.len(),
    ensures
        from <= nth_slash(s, n, from) <= s.len(),
    decreases s.len() - from,
{
    if from < s.len() {
        if s[from] == '/' {
            if n > 1 {
                lemma_nth_slash_bounds(s, (n - 1) as nat, from + 1);
            }
        } else {
            lemma_nth_slash_bounds(s, n, from + 1);
        }
    }
}

/// The scheme and the site of the address `url`: everything before its third `/`.
pub fn get_base_url(url: &str) -> (base: String)
    ensures
        base@ == base_url(url@),
{
    let chars = chars_of(url);
    let mut base: Vec<char> = Vec::new();
    let mut slash: usize = 0;
    let mut i: usize = 0;
    proof {
        lemma_nth_slash_bounds(chars@, 3, 0);
    }
    while i < chars.len()
        invariant
            i <= chars.len(),
            chars@ == url@,
            slash < 3,
            base@ == chars@.take(i as int),
            nth_slash(chars@, 3, 0) == nth_slash(chars@, (3 - slash) as nat, i as int),
            i <= nth_slash(chars@, 3, 0) <= chars.len(),
        decreases chars.len() - i,
    {
        let c = chars[i];
        if c == '/' {
            slash = slash + 1;
            if slash == 3 {
                return string_of(&base);
            }
        }
        proof {
            lemma_nth_slash_bounds(chars@, (3 - slash) as nat, i + 1);
        }
        base.push(c);
        i = i + 1;
        assert(base@ =~= chars@.take(i as int));
    }
    assert(chars@.take(chars.len() as int) =~= chars@);
    string_of(&base)
}

/// The length of `s` in bytes, as UTF-8 has it.
pub open spec fn byte_length(s: Seq<char>) -> usize {
    vstd::utf8::encode_utf8(s).len() as usize
}

/// A link as it stands in a page, without the quotes around it: the first
/// character is left out, and the text ends one before the position that is
/// the link's length in bytes. A link of fewer than two characters is taken as
/// it is.
pub open spec fn unquoted(link: Seq<char>) -> Seq<char> {
    if link.len() >= 2 {
        link.subrange(1, byte_length(link) - 1)
    } else {
        link
    }
}

/// The address that `link` leads to from the page at `url`. A link that
/// starts with `/` is taken from the site of the page. A link that names its
/// scheme, `http://` or `https://`, is an address already. Any other is taken
/// from the page itself, a `/` put between the two where `url` ends without.
pub open spec fn resolved(url: Seq<char>, link: Seq<char>) -> Seq<char> {
    if starts_with(link, "/"@) {
        base_url(url) + link
    } else if !starts_with(link, "http://"@) && !starts_with(link, "https://"@) {
        if ends_with(url, "/"@) {
            url + link
        } else {
            url + "/"@ + link
        }
    } else {
        link
    }
}

/// Whether the quotes can be taken off `link`: the position one before its
/// length in bytes lies within its characters. This holds of every link
/// without characters wider than one byte.
pub open spec fn can_unquote(link: Seq<char>) -> bool {
    link.len() >= 2 ==> 1 <= byte_length(link) - 1 <= link.len()
}

/// Tells whether the quotes can be taken off `link`.
pub fn check_unquote(link: &str) -> (ok: bool)
    ensures
        ok == can_unquote(link@),
{
    let chars = link.unicode_len();
    let bytes = link.len();
    chars < 2 || (bytes >= 2 && bytes - 1 <= chars)
}

/// The address that the link `link`, as it stands in a page, leads to from
/// the page at `url`.
pub fn resolve_link(url: &str, link: &str) -> (address: String)
    requires
        can_unquote(link@),
    ensures
        address@ == resolved(url@, unquoted(link@)),
{
    let mut target = link.to_owned();
    if link.unicode_len() >= 2 {
        target = substring(&target, 1, link.len() - 1).to_owned();
    }
    let target_chars = chars_of(target.as_str());
    let url_chars = chars_of(url);
    if begins_with(&target_chars, "/") {
        get_base_url(url).concat(target.as_str())
    } else if !begins_with(&target_chars, "http://") && !begins_with(&target_chars, "https://") {
        if finishes_with(&url_chars, "/") {
            url.to_owned().concat(target.as_str())
        } else {
            url.to_owned().concat("/").concat(target.as_str())
        }
    } else {
        target
    }
}

} // verus!
