use rand::Rng;
use vstd::prelude::*;
use crate::error::GameError;
use crate::text::{char_vec, string_of};

verus! {

/// rand's `StdRng`, a seedable generator, carried through as an opaque value.
#[verifier::external_type_specification]
#[verifier::external_body]
pub struct ExStdRng(rand::rngs::StdRng);

/// Relies on rand's `Rng::gen_range` over `0..bound`: a value drawn uniformly
/// from that range; it panics on an empty range, which `requires` rules out.
#[verifier::external_body]
fn draw_index(rng: &mut rand::rngs::StdRng, bound: usize) -> (r: usize)
    requires
        bound > 0,
    ensures
        r < bound,
{
    rng.gen_range(0..bound)
}

/// Characters that surround a word on its line and are not part of it: the
/// characters with Unicode's `White_Space` property, as `char::is_whitespace`
/// has them.
pub open spec fn is_blank(c: char) -> bool {
    let u = c as u32;
    (0x9 <= u && u <= 0xd) || u == 0x20 || u == 0x85 || u == 0xa0 || u == 0x1680 || (0x2000
        <= u && u <= 0x200a) || u == 0x2028 || u == 0x2029 || u == 0x202f || u == 0x205f || u
        == 0x3000
}

/// `s` without its leading blanks.
pub open spec fn trim_start(s: Seq<char>) -> Seq<char>
    decreases s.len(),
{
    if s.len() > 0 && is_blank(s[0]) {
        trim_start(s.drop_first())
    } else {
        s
    }
}

/// `s` without its trailing blanks.
pub open spec fn trim_end(s: Seq<char>) -> Seq<char>
    decreases s.len(),
{
    if s.len() > 0 && is_blank(s.last()) {
        trim_end(s.drop_last())
    } else {
        s
    }
}

/// `s` without blanks at either end.
pub open spec fn trim(s: Seq<char>) -> Seq<char> {
    trim_end(trim_start(s))
}

/// `raw[a..b]` is one whole line of `raw`: it starts the text or follows a
/// newline, and it ends the text or stands before one, with no newline inside.
pub open spec fn is_line(raw: Seq<char>, a: int, b: int) -> bool {
    &&& 0 <= a <= b <= raw.len()
    &&& (a == 0 || raw[a - 1] == '\n')
    &&& (b == raw.len() || raw[b] == '\n')
    &&& forall|k: int| a <= k < b ==> raw[k] != '\n'
}

/// The words of a newline-separated text: each line with its whitespace trimmed,
/// empty lines left out.
pub open spec fn words_of(raw: Seq<char>) -> Set<Seq<char>> {
    Set::new(
        |w: Seq<char>|
            w.len() > 0 && exists|a: int, b: int| is_line(raw, a, b) && trim(raw.subrange(a, b)) == w,
    )
}

/// A dictionary: a set of words, held once each. The words stand in a `Vec`
/// of distinct texts, on which membership and a uniform draw can be proved.
pub struct WordStore {
    words: Vec<String>,
}

impl View for WordStore {
    type V = Set<Seq<char>>;

    closed spec fn view(&self) -> Set<Seq<char>> {
        held(self.words@)
    }
}

/// The texts held in `words`.
pub open spec fn held(words: Seq<String>) -> Set<Seq<char>> {
    Set::new(|w: Seq<char>| exists|i: int| 0 <= i < words.len() && words[i]@ == w)
}

/// No text is held twice in `words`.
pub open spec fn distinct(words: Seq<String>) -> bool {
    forall|p: int, q: int| 0 <= p < q < words.len() ==> words[p]@ != words[q]@
}

/// The words of the lines of `raw` that end before position `end`.
pub open spec fn words_before(raw: Seq<char>, end: int) -> Set<Seq<char>> {
    Set::new(
        |w: Seq<char>|
            w.len() > 0 && exists|a: int, b: int|
                is_line(raw, a, b) && b < end && trim(raw.subrange(a, b)) == w,
    )
}

/// Taking in the line `raw[start..e]` adds its trimmed text, when not empty,
/// to the words of the lines before it.
proof fn lemma_next_line(raw: Seq<char>, start: int, e: int)
    requires
        0 <= start <= e <= raw.len(),
        start == 0 || raw[start - 1] == '\n',
        e == raw.len() || raw[e] == '\n',
        forall|k: int| start <= k < e ==> raw[k] != '\n',
    ensures
        is_line(raw, start, e),
        trim(raw.subrange(start, e)).len() > 0 ==> words_before(raw, e + 1) == words_before(
            raw,
            start,
        ).insert(trim(raw.subrange(start, e))),
        trim(raw.subrange(start, e)).len() == 0 ==> words_before(raw, e + 1) == words_before(
            raw,
            start,
        ),
{
    let t = trim(raw.subrange(start, e));
    let next = if t.len() > 0 {
        words_before(raw, start).insert(t)
    } else {
        words_before(raw, start)
    };
    assert forall|w: Seq<char>| words_before(raw, e + 1).contains(w) implies next.contains(w) by {
        let (a, b) = choose|a: int, b: int|
            is_line(raw, a, b) && b < e + 1 && trim(raw.subrange(a, b)) == w;
        if b >= start {
            if b < e {
                assert(raw[b] != '\n');
            }
            assert(b == e);
            if a < start {
                assert(raw[start - 1] == '\n');
            }
            if a > start {
                assert(raw[a - 1] != '\n');
            }
            assert(a == start);
        } else {
            assert(words_before(raw, start).contains(w));
        }
    }
    assert forall|w: Seq<char>| next.contains(w) implies words_before(raw, e + 1).contains(w) by {
        if w == t && t.len() > 0 {
            assert(is_line(raw, start, e));
        } else {
            let (a, b) = choose|a: int, b: int|
                is_line(raw, a, b) && b < start && trim(raw.subrange(a, b)) == w;
            assert(is_line(raw, a, b) && b < e + 1);
        }
    }
    assert(words_before(raw, e + 1) =~= next);
}

/// Adds the trimmed text of the line `chars[start..e]` to `words`, unless it
/// is empty or held already.
fn take_line(chars: &Vec<char>, start: usize, e: usize, words: &mut Vec<String>)
    requires
        start <= e <= chars.len(),
        start == 0 || chars@[start - 1] == '\n',
        e == chars.len() || chars@[e as int] == '\n',
        forall|k: int| start <= k < e ==> chars@[k] != '\n',
        held(old(words)@) == words_before(chars@, start as int),
        distinct(old(words)@),
    ensures
        held(final(words)@) == words_before(chars@, e + 1),
        distinct(final(words)@),
{
    let (lo, hi) = trim_bounds(chars, start, e);
    proof {
        lemma_next_line(chars@, start as int, e as int);
    }
    if lo < hi {
        let token = string_of(&copy_range(chars, lo, hi));
        if !held_contains(words, &token) {
            let ghost before = words@;
            words.push(token);
            proof {
                lemma_held_push(before, token);
            }
        } else {
            assert(held(words@) =~= held(words@).insert(token@));
        }
    }
}

/// Pushing `t` onto `words` adds its text to what is held, and keeps the texts
/// distinct when it was not held before.
proof fn lemma_held_push(words: Seq<String>, t: String)
    ensures
        held(words.push(t)) == held(words).insert(t@),
        distinct(words) && !held(words).contains(t@) ==> distinct(words.push(t)),
{
    let after = words.push(t);
    assert forall|w: Seq<char>| held(after).contains(w) implies held(words).insert(t@).contains(w) by {
        let i = choose|i: int| 0 <= i < after.len() && after[i]@ == w;
        if i < words.len() {
            assert(words[i]@ == w);
        }
    }
    assert forall|w: Seq<char>| held(words).insert(t@).contains(w) implies held(after).contains(w) by {
        if w == t@ {
            assert(after[words.len() as int]@ == w);
        } else {
            let i = choose|i: int| 0 <= i < words.len() && words[i]@ == w;
            assert(after[i]@ == w);
        }
    }
    assert(held(after) =~= held(words).insert(t@));
    if distinct(words) && !held(words).contains(t@) {
        assert forall|p: int, q: int| 0 <= p < q < after.len() implies after[p]@ != after[q]@ by {
            if q == words.len() {
                assert(words[p]@ != t@);
            }
        }
    }
}

/// Whether `w` is held in `words`.
fn held_contains(words: &Vec<String>, w: &String) -> (r: bool)
    ensures
        r == held(words@).contains(w@),
{
    let mut i: usize = 0;
    while i < words.len()
        invariant
            i <= words.len(),
            forall|j: int| 0 <= j < i ==> words@[j]@ != w@,
        decreases words.len() - i,
    {
        if words[i] == *w {
            return true;
        }
        i = i + 1;
    }
    false
}

/// The bounds of `chars[a..b]` without its blanks at either end.
fn trim_bounds(chars: &Vec<char>, a: usize, b: usize) -> (r: (usize, usize))
    requires
        a <= b <= chars.len(),
    ensures
        a <= r.0 <= r.1 <= b,
        chars@.subrange(r.0 as int, r.1 as int) == trim(chars@.subrange(a as int, b as int)),
{
    let mut lo = a;
    while lo < b && is_blank_char(chars[lo])
        invariant
            a <= lo <= b <= chars.len(),
            trim_start(chars@.subrange(a as int, b as int)) == trim_start(
                chars@.subrange(lo as int, b as int),
            ),
        decreases b - lo,
    {
        assert(chars@.subrange(lo as int, b as int).drop_first() =~= chars@.subrange(
            lo + 1,
            b as int,
        ));
        lo = lo + 1;
    }
    assert(trim_start(chars@.subrange(lo as int, b as int)) == chars@.subrange(lo as int, b as int));
    let mut hi = b;
    while hi > lo && is_blank_char(chars[hi - 1])
        invariant
            a <= lo <= hi <= b <= chars.len(),
            trim_end(chars@.subrange(lo as int, b as int)) == trim_end(
                chars@.subrange(lo as int, hi as int),
            ),
        decreases hi - lo,
    {
        assert(chars@.subrange(lo as int, hi as int).drop_last() =~= chars@.subrange(
            lo as int,
            hi - 1,
        ));
        hi = hi - 1;
    }
    (lo, hi)
}

/// Whether `c` is a blank.
fn is_blank_char(c: char) -> (r: bool)
    ensures
        r == is_blank(c),
{
    let u = c as u32;
    (0x9 <= u && u <= 0xd) || u == 0x20 || u == 0x85 || u == 0xa0 || u == 0x1680 || (0x2000
        <= u && u <= 0x200a) || u == 0x2028 || u == 0x2029 || u == 0x202f || u == 0x205f || u
        == 0x3000
}

/// The characters `chars[lo..hi]`.
fn copy_range(chars: &Vec<char>, lo: usize, hi: usize) -> (r: Vec<char>)
    requires
        lo <= hi <= chars.len(),
    ensures
        r@ == chars@.subrange(lo as int, hi as int),
{
    let mut r: Vec<char> = Vec::new();
    let mut k: usize = lo;
    while k < hi
        invariant
            lo <= k <= hi <= chars.len(),
            r@ == chars@.subrange(lo as int, k as int),
        decreases hi - k,
    {
        r.push(chars[k]);
        assert(r@ =~= chars@.subrange(lo as int, k + 1));
        k = k + 1;
    }
    r
}

impl WordStore {
    /// A dictionary with no word.
    pub fn new() -> (s: WordStore)
        ensures
            s@ == Set::<Seq<char>>::empty(),
            s.wf(),
    {
        let s = WordStore { words: Vec::new() };
        assert(s@ =~= Set::<Seq<char>>::empty());
        s
    }

    /// No word is held twice.
    pub closed spec fn wf(&self) -> bool {
        distinct(self.words@)
    }

    /// The dictionary of the words of `raw_text`, one per line, each trimmed
    /// of whitespace at both ends, empty lines left out and repeats held once.
    /// Fails when that leaves no word.
    pub fn load(raw_text: &str) -> (r: Result<WordStore, GameError>)
        ensures
            r is Ok <==> words_of(raw_text@) != Set::<Seq<char>>::empty(),
            r matches Ok(s) ==> s@ == words_of(raw_text@) && s.wf(),
            r matches Err(e) ==> e == GameError::EmptyDictionary,
    {
        let chars = char_vec(raw_text);
        let ghost raw = raw_text@;
        let n = chars.len();
        let mut words: Vec<String> = Vec::new();
        let mut start: usize = 0;
        let mut i: usize = 0;
        assert(held(words@) =~= words_before(raw, 0));
        while i < n
            invariant
                chars@ == raw,
                n == chars.len(),
                start <= i <= n,
                start == 0 || raw[start - 1] == '\n',
                forall|k: int| start <= k < i ==> raw[k] != '\n',
                held(words@) == words_before(raw, start as int),
                distinct(words@),
            decreases n - i,
        {
            if chars[i] == '\n' {
                take_line(&chars, start, i, &mut words);
                start = i + 1;
            }
            i = i + 1;
        }
        take_line(&chars, start, n, &mut words);
        proof {
            assert(words_before(raw, n + 1) =~= words_of(raw));
        }
        if words.len() == 0 {
            assert(held(words@) =~= Set::<Seq<char>>::empty());
            Err(GameError::EmptyDictionary)
        } else {
            let s = WordStore { words };
            assert(s@.contains(s.words@[0]@));
            Ok(s)
        }
    }

    /// Whether `word` is in the dictionary, letter case included.
    pub fn contains(&self, word: &str) -> (r: bool)
        ensures
            r == self@.contains(word@),
    {
        held_contains(&self.words, &word.to_owned())
    }

    /// One word of the dictionary, drawn at random from `rng`; fails on an
    /// empty dictionary.
    pub fn random_word(&self, rng: &mut rand::rngs::StdRng) -> (r: Result<String, GameError>)
        ensures
            r is Ok <==> self@ != Set::<Seq<char>>::empty(),
            r matches Ok(w) ==> self@.contains(w@),
            r matches Err(e) ==> e == GameError::EmptyDictionary,
    {
        if self.words.len() == 0 {
            assert(self@ =~= Set::<Seq<char>>::empty());
            Err(GameError::EmptyDictionary)
        } else {
            let i = draw_index(rng, self.words.len());
            let w = self.words[i].clone();
            assert(self@.contains(w@));
            Ok(w)
        }
    }
}

} // verus!
