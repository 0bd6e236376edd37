//! Characters and character sequences: the searches and substitutions that the
//! parser and the flattener are stated over, and the string plumbing under them.

use ming_wm_lib::utils::Substring;
use vstd::prelude::*;

verus! {

/// Whether `c` is a blank that may be dropped at the start of a line: a space or a tab.
pub open spec fn is_blank(c: char) -> bool {
    c == ' ' || c == '\t'
}

/// Tells whether `c` is a space or a tab.
pub fn is_whitespace(c: char) -> (b: bool)
    ensures
        b == is_blank(c),
{
    c == ' ' || c == '\t'
}

/// Whether `pat` stands in `s` at position `k`.
pub open spec fn occurs_at(s: Seq<char>, pat: Seq<char>, k: int) -> bool {
    &&& 0 <= k
    &&& k + pat.len() <= s.len()
    &&& s.subrange(k, k + pat.len()) == pat
}

/// Whether `s` starts with `prefix`.
pub open spec fn starts_with(s: Seq<char>, prefix: Seq<char>) -> bool {
    prefix.len() <= s.len() && s.subrange(0, prefix.len() as int) == prefix
}

/// Whether `s` ends with `suffix`.
pub open spec fn ends_with(s: Seq<char>, suffix: Seq<char>) -> bool {
    suffix.len() <= s.len() && s.subrange(s.len() - suffix.len(), s.len() as int) == suffix
}

/// The first position at or after `from`, and before the end of `s`, where `pat`
/// stands in `s`, if there is one.
pub open spec fn find_from(s: Seq<char>, pat: Seq<char>, from: int) -> Option<int>
    decreases s.len() - from,
{
    if from < 0 || from >= s.len() || from + pat.len() > s.len() {
        None
    } else if occurs_at(s, pat, from) {
        Some(from)
    } else {
        find_from(s, pat, from + 1)
    }
}

/// The position just behind the first occurrence of `pat` in `s` at or after
/// `from`; the end of `s` where there is none.
pub open spec fn skip_past(s: Seq<char>, pat: Seq<char>, from: int) -> int {
    match find_from(s, pat, from) {
        Some(k) => k + pat.len(),
        None => s.len() as int,
    }
}

/// `find_from` gives the least position that qualifies, and `None` only where no
/// position qualifies.
pub proof fn lemma_find_from(s: Seq<char>, pat: Seq<char>, from: int)
    requires
        0 <= from,
    ensures
        match find_from(s, pat, from) {
            Some(k) => {
                &&& from <= k
                &&& occurs_at(s, pat, k)
                &&& forall|j: int| from <= j < k ==> !occurs_at(s, pat, j)
            },
            None => forall|j: int| from <= j < s.len() ==> !occurs_at(s, pat, j),
        },
    decreases s.len() - from,
{
    if from >= s.len() || from + pat.len() > s.len() {
    } else if occurs_at(s, pat, from) {
    } else {
        lemma_find_from(s, pat, from + 1);
    }
}

/// A position that qualifies, with none before it back to `from`, is what
/// `find_from` gives.
pub proof fn lemma_find_from_is(s: Seq<char>, pat: Seq<char>, from: int, k: int)
    requires
        0 <= from <= k < s.len(),
        occurs_at(s, pat, k),
        forall|j: int| from <= j < k ==> !occurs_at(s, pat, j),
    ensures
        find_from(s, pat, from) == Some(k),
    decreases k - from,
{
    if from < k {
        lemma_find_from_is(s, pat, from + 1, k);
    }
}

/// Where `-->` stands in `s`, character by character.
pub proof fn lemma_comment_end(s: Seq<char>, k: int)
    ensures
        occurs_at(s, "-->"@, k) <==> {
            &&& 0 <= k
            &&& k + 3 <= s.len()
            &&& s[k] == '-'
            &&& s[k + 1] == '-'
            &&& s[k + 2] == '>'
        },
{
    reveal_strlit("-->");
    let pat = "-->"@;
    if 0 <= k && k + 3 <= s.len() {
        let part = s.subrange(k, k + 3);
        assert(part[0] == s[k] && part[1] == s[k + 1] && part[2] == s[k + 2]);
        if s[k] == '-' && s[k + 1] == '-' && s[k + 2] == '>' {
            assert(part =~= pat);
        }
    }
}

/// Where `>` stands in `s`.
pub proof fn lemma_tag_end(s: Seq<char>, k: int)
    ensures
        occurs_at(s, ">"@, k) <==> 0 <= k < s.len() && s[k] == '>',
{
    reveal_strlit(">");
    let pat = ">"@;
    if 0 <= k < s.len() {
        let part = s.subrange(k, k + 1);
        assert(part[0] == s[k]);
        if s[k] == '>' {
            assert(part =~= pat);
        }
    }
}

/// `s` with every occurrence of `pat` replaced by `rep`, the occurrences taken
/// from left to right and never overlapping. An empty `pat` replaces nothing.
pub open spec fn replaced(s: Seq<char>, pat: Seq<char>, rep: Seq<char>) -> Seq<char>
    decreases s.len(),
{
    if pat.len() == 0 || s.len() < pat.len() {
        s
    } else if s.subrange(0, pat.len() as int) == pat {
        rep + replaced(s.skip(pat.len() as int), pat, rep)
    } else {
        seq![s[0]] + replaced(s.skip(1), pat, rep)
    }
}

/// The two entities that text may carry, written out: `&nbsp;` becomes a space,
/// then `&#x27;` becomes an apostrophe.
pub open spec fn unescaped(s: Seq<char>) -> Seq<char> {
    replaced(replaced(s, "&nbsp;"@, " "@), "&#x27;"@, "'"@)
}

/// `String::push` of the standard library: the character is appended and what
/// was there before it stays.
pub assume_specification[ String::push ](s: &mut String, c: char)
    ensures
        final(s)@ == old(s)@.push(c),
;

/// `Substring::substring` of `ming_wm_lib`, on a `String`: the characters from
/// position `start` up to, not including, position `end`, positions counted in
/// characters. It walks the first `end` characters, so `end` may not pass the
/// length.
#[verifier::external_body]
pub(crate) fn substring<'a>(s: &'a String, start: usize, end: usize) -> (part: &'a str)
    requires
        start <= end <= s@.len(),
    ensures
        part@ == s@.subrange(start as int, end as int),
{
    s.substring(start, end)
}

/// The characters of `s`, in order.
pub fn chars_of(s: &str) -> (v: Vec<char>)
    ensures
        v@ == s@,
{
    let mut v: Vec<char> = Vec::new();
    for c in it: s.chars()
        invariant
            v@ == it.seq().take(it.index()),
    {
        v.push(c);
    }
    v
}

/// The string made of the characters of `v`, in order.
pub fn string_of(v: &Vec<char>) -> (s: String)
    ensures
        s@ == v@,
{
    let mut s = String::new();
    let mut i: usize = 0;
    while i < v.len()
        invariant
            i <= v.len(),
            s@ == v@.take(i as int),
        decreases v.len() - i,
    {
        s.push(v[i]);
        i = i + 1;
        assert(v@.take(i as int) == v@.take(i - 1).push(v@[i - 1]));
    }
    s
}

/// Tells whether the string `a` and the text `b` hold the same characters.
pub fn same_text(a: &String, b: &str) -> (same: bool)
    ensures
        same == (a@ == b@),
{
    let b_owned = b.to_owned();
    *a == b_owned
}

/// Tells whether `pat` stands in `s` at position `at`.
pub fn stands_at(s: &Vec<char>, pat: &Vec<char>, at: usize) -> (found: bool)
    ensures
        found == occurs_at(s@, pat@, at as int),
{
    if pat.len() > s.len() || at > s.len() - pat.len() {
        return false;
    }
    let mut j: usize = 0;
    while j < pat.len()
        invariant
            j <= pat.len(),
            at + pat.len() <= s.len(),
            forall|k: int| 0 <= k < j ==> s@[at + k] == pat@[k],
        decreases pat.len() - j,
    {
        if s[at + j] != pat[j] {
            assert(s@.subrange(at as int, at + pat.len())[j as int] != pat@[j as int]);
            return false;
        }
        j = j + 1;
    }
    assert(s@.subrange(at as int, at + pat.len()) =~= pat@);
    true
}

/// Replaces every occurrence of `pat` in `s` by `rep`, from left to right.
pub fn replace_all(s: &Vec<char>, pat: &Vec<char>, rep: &Vec<char>) -> (out: Vec<char>)
    requires
        pat.len() > 0,
    ensures
        out@ == replaced(s@, pat@, rep@),
{
    let mut out: Vec<char> = Vec::new();
    let mut i: usize = 0;
    assert(s@.skip(0) =~= s@);
    while i < s.len()
        invariant
            i <= s.len(),
            pat.len() > 0,
            out@ + replaced(s@.skip(i as int), pat@, rep@) == replaced(s@, pat@, rep@),
        decreases s.len() - i,
    {
        let ghost rest = s@.skip(i as int);
        if stands_at(s, pat, i) {
            assert(rest.subrange(0, pat.len() as int) =~= s@.subrange(i as int, i + pat.len()));
            assert(rest.skip(pat.len() as int) =~= s@.skip(i + pat.len()));
            let mut k: usize = 0;
            let ghost before = out@;
            while k < rep.len()
                invariant
                    k <= rep.len(),
                    out@ == before + rep@.take(k as int),
                decreases rep.len() - k,
            {
                out.push(rep[k]);
                k = k + 1;
                assert(rep@.take(k as int) == rep@.take(k - 1).push(rep@[k - 1]));
            }
            assert(rep@.take(rep.len() as int) =~= rep@);
            i = i + pat.len();
            assert(out@ + replaced(s@.skip(i as int), pat@, rep@) =~= before + (rep@ + replaced(
                s@.skip(i as int),
                pat@,
                rep@,
            )));
        } else {
            let ghost before = out@;
            proof {
                if rest.len() >= pat.len() {
                    assert(rest.subrange(0, pat.len() as int) =~= s@.subrange(
                        i as int,
                        i + pat.len(),
                    ));
                } else {
                    assert(rest =~= seq![s@[i as int]] + rest.skip(1));
                }
                assert(rest.skip(1) =~= s@.skip(i + 1));
                assert(replaced(rest, pat@, rep@) =~= seq![s@[i as int]] + replaced(
                    s@.skip(i + 1),
                    pat@,
                    rep@,
                ));
            }
            out.push(s[i]);
            i = i + 1;
            assert(out@ + replaced(s@.skip(i as int), pat@, rep@) =~= before + (seq![s@[i - 1]]
                + replaced(s@.skip(i as int), pat@, rep@)));
        }
    }
    assert(s@.skip(s.len() as int) =~= Seq::<char>::empty());
    assert(out@ + Seq::<char>::empty() =~= out@);
    out
}

/// Writes out the two entities that text may carry: `&nbsp;` as a space and
/// `&#x27;` as an apostrophe.
pub fn handle_escaped(s: &str) -> (plain: String)
    ensures
        plain@ == unescaped(s@),
{
    let chars = chars_of(s);
    let nbsp = chars_of("&nbsp;");
    let space = chars_of(" ");
    let quote = chars_of("&#x27;");
    let apostrophe = chars_of("'");
    proof {
        reveal_strlit("&nbsp;");
        reveal_strlit("&#x27;");
    }
    let first = replace_all(&chars, &nbsp, &space);
    let second = replace_all(&first, &quote, &apostrophe);
    string_of(&second)
}

/// Tells whether `s` starts with `prefix`.
pub fn begins_with(s: &Vec<char>, prefix: &str) -> (begins: bool)
    ensures
        begins == starts_with(s@, prefix@),
{
    let pattern = chars_of(prefix);
    stands_at(s, &pattern, 0)
}

/// Tells whether `s` ends with `suffix`.
pub fn finishes_with(s: &Vec<char>, suffix: &str) -> (finishes: bool)
    ensures
        finishes == ends_with(s@, suffix@),
{
    let pattern = chars_of(suffix);
    if pattern.len() > s.len() {
        return false;
    }
    stands_at(s, &pattern, s.len() - pattern.len())
}

/// Whether `c` is white space as Unicode has it: what `char::is_whitespace` of
/// the standard library returns for `c`.
pub uninterp spec fn white_space(c: char) -> bool;

/// `char::is_whitespace` of the standard library. The result depends on the
/// character alone and is called `white_space`.
#[verifier::external_body]
pub(crate) fn is_space(c: char) -> (space: bool)
    ensures
        space == white_space(c),
{
    c.is_whitespace()
}

/// The number of characters of white space that `s` begins with.
pub open spec fn leading_space(s: Seq<char>) -> nat
    decreases s.len(),
{
    if s.len() > 0 && white_space(s[0]) {
        1 + leading_space(s.skip(1))
    } else {
        0
    }
}

/// The number of characters of white space that `s` ends with.
pub open spec fn trailing_space(s: Seq<char>) -> nat
    decreases s.len(),
{
    if s.len() > 0 && white_space(s.last()) {
        1 + trailing_space(s.drop_last())
    } else {
        0
    }
}

/// `s` without the white space that it begins and ends with.
pub open spec fn trimmed(s: Seq<char>) -> Seq<char> {
    let rest = s.skip(leading_space(s) as int);
    rest.take(rest.len() - trailing_space(rest))
}

/// Takes off the white space that `s` begins and ends with.
pub fn trim(s: &Vec<char>) -> (inner: Vec<char>)
    ensures
        inner@ == trimmed(s@),
{
    let mut start: usize = 0;
    assert(s@.skip(0) =~= s@);
    while start < s.len() && is_space(s[start])
        invariant
            start <= s.len(),
            start + leading_space(s@.skip(start as int)) == leading_space(s@),
        decreases s.len() - start,
    {
        assert(s@.skip(start as int).skip(1) =~= s@.skip(start + 1));
        start = start + 1;
    }
    let ghost rest = s@.skip(start as int);
    let mut end: usize = s.len();
    assert(rest.take(rest.len() as int) =~= rest);
    while end > start && is_space(s[end - 1])
        invariant
            start <= end <= s.len(),
            rest == s@.skip(start as int),
            (s.len() - end) + trailing_space(rest.take(end - start)) == trailing_space(rest),
        decreases end - start,
    {
        assert(rest.take(end - start).drop_last() =~= rest.take(end - 1 - start));
        end = end - 1;
    }
    let mut inner: Vec<char> = Vec::new();
    let mut i: usize = start;
    while i < end
        invariant
            start <= i <= end <= s.len(),
            inner@ == s@.subrange(start as int, i as int),
        decreases end - i,
    {
        inner.push(s[i]);
        i = i + 1;
        assert(inner@ =~= s@.subrange(start as int, i as int));
    }
    proof {
        assert(leading_space(rest) == 0);
        assert(start == leading_space(s@));
        assert(trailing_space(rest.take(end - start)) == 0);
        assert(inner@ =~= rest.take(rest.len() - trailing_space(rest)));
    }
    inner
}

/// The decimal digit for a number below ten.
pub open spec fn digit(n: nat) -> char {
    if n == 0 {
        '0'
    } else if n == 1 {
        '1'
    } else if n == 2 {
        '2'
    } else if n == 3 {
        '3'
    } else if n == 4 {
        '4'
    } else if n == 5 {
        '5'
    } else if n == 6 {
        '6'
    } else if n == 7 {
        '7'
    } else if n == 8 {
        '8'
    } else {
        '9'
    }
}

/// `n` written in decimal digits, without leading zeros.
pub open spec fn decimal(n: nat) -> Seq<char>
    decreases n,
{
    if n < 10 {
        seq![digit(n)]
    } else {
        decimal(n / 10).push(digit(n % 10))
    }
}

/// The digit for a number below ten.
fn digit_of(n: usize) -> (c: char)
    requires
        n < 10,
    ensures
        c == digit(n as nat),
{
    if n == 0 {
        '0'
    } else if n == 1 {
        '1'
    } else if n == 2 {
        '2'
    } else if n == 3 {
        '3'
    } else if n == 4 {
        '4'
    } else if n == 5 {
        '5'
    } else if n == 6 {
        '6'
    } else if n == 7 {
        '7'
    } else if n == 8 {
        '8'
    } else {
        '9'
    }
}

/// Writes `n` in decimal digits.
pub fn to_decimal(n: usize) -> (digits: Vec<char>)
    ensures
        digits@ == decimal(n as nat),
    decreases n,
{
    if n < 10 {
        let mut digits: Vec<char> = Vec::new();
        digits.push(digit_of(n));
        assert(digits@ =~= seq![digit(n as nat)]);
        digits
    } else {
        let mut digits = to_decimal(n / 10);
        digits.push(digit_of(n % 10));
        digits
    }
}

} // verus!
