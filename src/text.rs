use vstd::prelude::*;
use vstd::string::StrSliceExecFns;

verus! {

/// What `str::to_lowercase` makes of a sequence of characters.
pub uninterp spec fn lower_of(s: Seq<char>) -> Seq<char>;

/// Relies on `str::to_lowercase`: the lowercase form of `s`, which depends on
/// its characters alone, and which is empty for the empty string.
#[verifier::external_body]
pub(crate) fn lowercase(s: &str) -> (r: String)
    ensures
        r@ == lower_of(s@),
        s@.len() == 0 ==> r@.len() == 0,
{
    s.to_lowercase()
}

/// Relies on collecting an iterator of `char` into a `String` (`FromIterator<&char>`):
/// the string holds exactly those characters, in order.
#[verifier::external_body]
pub(crate) fn string_of(chars: &Vec<char>) -> (r: String)
    ensures
        r@ == chars@,
{
    chars.iter().collect()
}

/// The characters of `s`, in order.
pub fn char_vec(s: &str) -> (v: Vec<char>)
    ensures
        v@ == s@,
{
    let mut v: Vec<char> = Vec::new();
    for c in it: s.chars()
        invariant
            it.seq() == s@,
            v@ == it.seq().take(it.index() as int),
    {
        v.push(c);
    }
    v
}

/// `s` without one trailing line break (`\n`, or `\r\n`).
pub open spec fn strip_line_end(s: Seq<char>) -> Seq<char> {
    if s.len() > 0 && s.last() == '\n' {
        let t = s.drop_last();
        if t.len() > 0 && t.last() == '\r' {
            t.drop_last()
        } else {
            t
        }
    } else {
        s
    }
}

/// Removes one trailing line break from a line read from input.
pub fn trim_line_end(s: &str) -> (r: String)
    ensures
        r@ == strip_line_end(s@),
{
    let n = s.unicode_len();
    let mut end = n;
    if end > 0 && s.get_char(end - 1) == '\n' {
        end = end - 1;
        if end > 0 && s.get_char(end - 1) == '\r' {
            end = end - 1;
        }
    }
    let r = s.substring_char(0, end);
    let out = r.to_owned();
    assert(out@ =~= strip_line_end(s@));
    out
}

} // verus!
