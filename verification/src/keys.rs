//! Keys: which characters stand for the keys that write nothing, and the
//! number that a row of digits stands for.

use ming_wm_lib::messages::KeyPress;
use vstd::prelude::*;

verus! {

/// Whether `key` is the character that stands for the enter key.
pub open spec fn is_enter_key(key: char) -> bool {
    key == '\u{10602}'
}

/// Whether `key` is the character that stands for the backspace key.
pub open spec fn is_backspace_key(key: char) -> bool {
    key == '\u{10601}'
}

/// Whether `key` is the character that stands for the escape key.
pub open spec fn is_escape_key(key: char) -> bool {
    key == '\u{10603}'
}

/// Whether `key` is one of the four characters that stand for the arrow keys.
pub open spec fn is_arrow_key(key: char) -> bool {
    key == '\u{10658}' || key == '\u{1061E}' || key == '\u{10663}' || key == '\u{10665}'
}

/// Whether `key` is a character that is written: none of the keys above.
pub open spec fn is_regular_key(key: char) -> bool {
    !is_enter_key(key) && !is_backspace_key(key) && !is_escape_key(key) && !is_arrow_key(key)
}

/// `KeyPress::is_enter` of `ming_wm_lib`: the key is compared with one
/// character, U+10602.
#[verifier::external_body]
pub(crate) fn is_enter(key: char) -> (enter: bool)
    ensures
        enter == is_enter_key(key),
{
    KeyPress { key }.is_enter()
}

/// `KeyPress::is_backspace` of `ming_wm_lib`: the key is compared with one
/// character, U+10601.
#[verifier::external_body]
pub(crate) fn is_backspace(key: char) -> (backspace: bool)
    ensures
        backspace == is_backspace_key(key),
{
    KeyPress { key }.is_backspace()
}

/// `KeyPress::is_escape` of `ming_wm_lib`: the key is compared with one
/// character, U+10603.
#[verifier::external_body]
pub(crate) fn is_escape(key: char) -> (escape: bool)
    ensures
        escape == is_escape_key(key),
{
    KeyPress { key }.is_escape()
}

/// `KeyPress::is_regular` of `ming_wm_lib`: the key is none of enter,
/// backspace and escape, and none of the four arrows, U+10658, U+1061E,
/// U+10663 and U+10665.
#[verifier::external_body]
pub(crate) fn is_regular(key: char) -> (regular: bool)
    ensures
        regular == is_regular_key(key),
{
    KeyPress { key }.is_regular()
}

/// Whether `c` is a decimal digit.
pub open spec fn is_digit(c: char) -> bool {
    '0' <= c <= '9'
}

/// Whether `s` holds decimal digits only.
pub open spec fn all_digits(s: Seq<char>) -> bool {
    forall|i: int| 0 <= i < s.len() ==> is_digit(#[trigger] s[i])
}

/// The number that a row of decimal digits stands for; 0 for the empty row.
pub open spec fn number_of(s: Seq<char>) -> nat
    decreases s.len(),
{
    if s.len() == 0 {
        0
    } else {
        (number_of(s.drop_last()) * 10 + (s.last() as nat - '0' as nat)) as nat
    }
}

/// The number of the first digits of a row is at most the number of the row.
pub proof fn lemma_number_grows(s: Seq<char>, count: nat)
    requires
        all_digits(s),
        count <= s.len(),
    ensures
        number_of(s.take(count as int)) <= number_of(s),
    decreases s.len() - count,
{
    if count < s.len() {
        let longer = s.take(count as int + 1);
        assert(longer.drop_last() =~= s.take(count as int));
        assert(is_digit(s[count as int]));
        assert(longer.last() == s[count as int]);
        lemma_number_grows(s, count + 1);
    } else {
        assert(s.take(count as int) =~= s);
    }
}

/// Tells whether `c` is a decimal digit.
pub fn digit_key(c: char) -> (digit: bool)
    ensures
        digit == is_digit(c),
{
    '0' <= c && c <= '9'
}

/// The number that the digits `s` stand for, where it can be held.
pub fn try_read_number(s: &Vec<char>) -> (number: Option<usize>)
    requires
        all_digits(s@),
    ensures
        number is Some == (number_of(s@) <= usize::MAX),
        number matches Some(n) ==> n == number_of(s@),
{
    let mut n: usize = 0;
    let mut i: usize = 0;
    assert(s@.take(0) =~= Seq::<char>::empty());
    while i < s.len()
        invariant
            i <= s.len(),
            all_digits(s@),
            n == number_of(s@.take(i as int)),
        decreases s.len() - i,
    {
        let c = s[i];
        proof {
            let longer = s@.take(i + 1);
            assert(longer.drop_last() =~= s@.take(i as int));
            assert(longer.last() == c);
            assert(is_digit(c));
            lemma_number_grows(s@, (i + 1) as nat);
        }
        let d = c as usize - '0' as usize;
        if n > (usize::MAX - d) / 10 {
            return None;
        }
        n = n * 10 + d;
        i = i + 1;
    }
    assert(s@.take(s.len() as int) =~= s@);
    Some(n)
}

/// The number that the digits `s` stand for.
pub fn read_number(s: &Vec<char>) -> (n: usize)
    requires
        all_digits(s@),
        number_of(s@) <= usize::MAX,
    ensures
        n == number_of(s@),
{
    match try_read_number(s) {
        Some(n) => n,
        None => 0,
    }
}

} // verus!
