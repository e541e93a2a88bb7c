use colored::Colorize;
use vstd::prelude::*;
use vstd::string::StrSliceExecFns;
use vstd::string::StringExecFns;
use crate::text::char_vec;

verus! {

/// The verdict on one guessed character, carrying that character.
#[derive(Copy, Clone, Debug, PartialEq, Eq, Structural)]
pub enum CharMatch {
    /// The target does not hold the character.
    DoesNotExist(char),
    /// The target holds the character, but not at this position.
    ExistsSomewhereElse(char),
    /// The target holds the character at this very position.
    ExistsHere(char),
}

impl CharMatch {
    /// The character that the verdict is about.
    pub open spec fn ch(self) -> char {
        match self {
            CharMatch::DoesNotExist(c) => c,
            CharMatch::ExistsSomewhereElse(c) => c,
            CharMatch::ExistsHere(c) => c,
        }
    }

    /// The character that the verdict is about.
    pub fn character(&self) -> (c: char)
        ensures
            c == self.ch(),
    {
        match self {
            CharMatch::DoesNotExist(c) => *c,
            CharMatch::ExistsSomewhereElse(c) => *c,
            CharMatch::ExistsHere(c) => *c,
        }
    }
}

/// The verdict on position `i` of `guess`: a character that the target holds
/// anywhere is present, and it is in place when the target has it at `i`.
/// Repeated letters are not counted against the target's own repeats, and a
/// position past the end of the target is never in place.
pub open spec fn classify_at(guess: Seq<char>, target: Seq<char>, i: int) -> CharMatch {
    let c = guess[i];
    if target.contains(c) {
        if i < target.len() && target[i] == c {
            CharMatch::ExistsHere(c)
        } else {
            CharMatch::ExistsSomewhereElse(c)
        }
    } else {
        CharMatch::DoesNotExist(c)
    }
}

/// The verdicts on every position of `guess`, in order.
pub open spec fn classify(guess: Seq<char>, target: Seq<char>) -> Seq<CharMatch> {
    Seq::new(guess.len(), |i: int| classify_at(guess, target, i))
}

/// How many verdicts of `m` are `ExistsHere`.
pub open spec fn count_here(m: Seq<CharMatch>) -> nat
    decreases m.len(),
{
    if m.len() == 0 {
        0
    } else {
        count_here(m.drop_last()) + if m.last() is ExistsHere {
            1nat
        } else {
            0nat
        }
    }
}

/// A guess wins when as many positions are in place as the target is long.
pub open spec fn wins(guess: Seq<char>, target: Seq<char>) -> bool {
    count_here(classify(guess, target)) == target.len()
}

/// A single guess: its expected length, its text, and once resolved, its
/// verdicts and whether it won.
#[derive(Debug)]
pub struct Attempt {
    length: usize,
    attempt_text: String,
    match_vector: Vec<CharMatch>,
    is_win: bool,
}

impl Attempt {
    /// The length a guess must have.
    pub closed spec fn spec_length(&self) -> usize {
        self.length
    }

    /// The text of the guess.
    pub closed spec fn text(&self) -> Seq<char> {
        self.attempt_text@
    }

    /// The verdicts, one per character of the guess once resolved.
    pub closed spec fn classes(&self) -> Seq<CharMatch> {
        self.match_vector@
    }

    /// Whether the resolved guess won.
    pub closed spec fn won(&self) -> bool {
        self.is_win
    }

    /// `after` is `before` resolved against `target`.
    pub open spec fn resolved_from(before: Attempt, after: Attempt, target: Seq<char>) -> bool {
        &&& after.spec_length() == before.spec_length()
        &&& after.text() == before.text()
        &&& after.classes() == classify(before.text(), target)
        &&& after.won() == wins(before.text(), target)
    }

    /// An empty attempt that expects a guess of `length` characters.
    pub fn new(length: usize) -> (a: Attempt)
        ensures
            a.spec_length() == length,
            a.text().len() == 0,
            a.classes().len() == 0,
            !a.won(),
    {
        Attempt { length, attempt_text: String::new(), match_vector: Vec::new(), is_win: false }
    }

    /// Takes `attempt_text` as the guess when it has the expected length;
    /// otherwise fails and changes nothing.
    pub fn attempt(&mut self, attempt_text: &mut String) -> (r: Option<()>)
        ensures
            r is None <==> old(attempt_text)@.len() != old(self).spec_length(),
            *final(attempt_text) == *old(attempt_text),
            r is None ==> *final(self) == *old(self),
            r is Some ==> final(self).text() == old(attempt_text)@,
            final(self).spec_length() == old(self).spec_length(),
            final(self).classes() == old(self).classes(),
            final(self).won() == old(self).won(),
    {
        if attempt_text.as_str().unicode_len() != self.length {
            None
        } else {
            self.attempt_text = attempt_text.clone();
            Some(())
        }
    }

    /// Scores the guess against `target_string`, position by position.
    pub fn resolve(&mut self, target_string: &String)
        ensures
            Attempt::resolved_from(*old(self), *final(self), target_string@),
    {
        let guess = char_vec(self.attempt_text.as_str());
        let target = char_vec(target_string.as_str());
        let mut match_vector: Vec<CharMatch> = Vec::new();
        let mut here: usize = 0;
        let mut i: usize = 0;
        while i < guess.len()
            invariant
                guess@ == self.attempt_text@,
                target@ == target_string@,
                i <= guess.len(),
                here <= i,
                match_vector@ == classify(guess@, target@).take(i as int),
                here == count_here(match_vector@),
            decreases guess.len() - i,
        {
            let c = guess[i];
            let m = if contains_char(&target, c) {
                if i < target.len() && target[i] == c {
                    CharMatch::ExistsHere(c)
                } else {
                    CharMatch::ExistsSomewhereElse(c)
                }
            } else {
                CharMatch::DoesNotExist(c)
            };
            proof {
                lemma_take_step(classify(guess@, target@), i as int);
                lemma_count_here_push(match_vector@, m);
            }
            match_vector.push(m);
            if let CharMatch::ExistsHere(_) = m {
                here = here + 1;
            }
            i = i + 1;
        }
        proof {
            assert(match_vector@ =~= classify(guess@, target@));
        }
        self.match_vector = match_vector;
        self.is_win = here == target.len();
    }

    /// The verdicts as one line for a terminal: for each verdict in turn, a
    /// padding cell, a cell with its character, and the padding cell again,
    /// coloured by the verdict. The verdicts' characters show in the line in
    /// their order.
    pub fn render(&self) -> (line: String)
        ensures
            shows_in_order(line@, self.classes()),
            exists|pads: Seq<Seq<char>>, cells: Seq<Seq<char>>|
                #[trigger] painted(pads, cells, self.classes()) && line@ == cells_line(pads, cells),
    {
        let mut line = String::new();
        let mut i: usize = 0;
        let ghost mut pos: Seq<int> = Seq::empty();
        let ghost mut pads: Seq<Seq<char>> = Seq::empty();
        let ghost mut cells: Seq<Seq<char>> = Seq::empty();
        while i < self.match_vector.len()
            invariant
                i <= self.match_vector.len(),
                places(line@, self.match_vector@.take(i as int), pos),
                painted(pads, cells, self.match_vector@.take(i as int)),
                line@ == cells_line(pads, cells),
            decreases self.match_vector.len() - i,
        {
            let m = self.match_vector[i];
            let c = m.character();
            let (pad, cell) = match m {
                CharMatch::DoesNotExist(_) => (paint_absent(' '), paint_absent(c)),
                CharMatch::ExistsSomewhereElse(_) => (paint_elsewhere(' '), paint_elsewhere(c)),
                CharMatch::ExistsHere(_) => (paint_here(' '), paint_here(c)),
            };
            let ghost before = line@;
            line.append(pad.as_str());
            line.append(cell.as_str());
            line.append(pad.as_str());
            proof {
                let k = choose|k: int| 0 <= k < cell@.len() && cell@[k] == c;
                let p = before.len() + pad@.len() + k;
                assert(line@[p] == c);
                assert(self.match_vector@.take(i + 1) =~= self.match_vector@.take(i as int).push(m));
                assert forall|j: int| 0 <= j < pos.len() implies line@[pos[j]] == before[pos[j]] by {}
                pos = pos.push(p);
                let old_pads = pads;
                let old_cells = cells;
                pads = pads.push(pad@);
                cells = cells.push(cell@);
                assert(pads.drop_last() =~= old_pads);
                assert(cells.drop_last() =~= old_cells);
                assert(line@ =~= cells_line(pads, cells));
                assert(painted(pads, cells, self.match_vector@.take(i + 1)));
            }
            i = i + 1;
        }
        proof {
            assert(self.match_vector@.take(i as int) =~= self.match_vector@);
        }
        line
    }

    /// The expected length of a guess.
    pub fn length(&self) -> (n: usize)
        ensures
            n == self.spec_length(),
    {
        self.length
    }

    /// The text of the guess.
    pub fn attempt_text(&self) -> (s: &String)
        ensures
            s@ == self.text(),
    {
        &self.attempt_text
    }

    /// The verdicts of the resolved guess.
    pub fn match_vector(&self) -> (m: &Vec<CharMatch>)
        ensures
            m@ == self.classes(),
    {
        &self.match_vector
    }

    /// Whether the resolved guess won.
    pub fn is_win(&self) -> (w: bool)
        ensures
            w == self.won(),
    {
        self.is_win
    }
}

/// Relies on colored's `on_black` and `bright_red`, written out through
/// `Display`: the character, wrapped in escape codes when colours are enabled.
#[verifier::external_body]
fn paint_absent(c: char) -> (r: String)
    ensures
        r@.contains(c),
{
    c.to_string().as_str().on_black().bright_red().to_string()
}

/// Relies on colored's `on_bright_yellow` and `black`, written out through
/// `Display`: the character, wrapped in escape codes when colours are enabled.
#[verifier::external_body]
fn paint_elsewhere(c: char) -> (r: String)
    ensures
        r@.contains(c),
{
    c.to_string().as_str().on_bright_yellow().black().to_string()
}

/// Relies on colored's `on_bright_green` and `black`, written out through
/// `Display`: the character, wrapped in escape codes when colours are enabled.
#[verifier::external_body]
fn paint_here(c: char) -> (r: String)
    ensures
        r@.contains(c),
{
    c.to_string().as_str().on_bright_green().black().to_string()
}

/// `pos` gives, for each verdict of `m` in turn, a position of `line` that
/// holds its character, the positions strictly increasing.
pub open spec fn places(line: Seq<char>, m: Seq<CharMatch>, pos: Seq<int>) -> bool {
    &&& pos.len() == m.len()
    &&& forall|j: int| 0 <= j < pos.len() ==> 0 <= #[trigger] pos[j] < line.len() && line[pos[j]] == m[j].ch()
    &&& forall|j: int, l: int| 0 <= j < l < pos.len() ==> pos[j] < pos[l]
}

/// The line made of, for each verdict in turn, its padding, its cell and its
/// padding again.
pub open spec fn cells_line(pads: Seq<Seq<char>>, cells: Seq<Seq<char>>) -> Seq<char>
    decreases cells.len(),
{
    if cells.len() == 0 || pads.len() != cells.len() {
        Seq::empty()
    } else {
        cells_line(pads.drop_last(), cells.drop_last()) + pads.last() + cells.last() + pads.last()
    }
}

/// `pads` and `cells` are painted pieces for the verdicts `m`: one of each per
/// verdict, each padding showing a space and each cell its verdict's character.
pub open spec fn painted(pads: Seq<Seq<char>>, cells: Seq<Seq<char>>, m: Seq<CharMatch>) -> bool {
    &&& pads.len() == m.len()
    &&& cells.len() == m.len()
    &&& forall|j: int| 0 <= j < m.len() ==> (#[trigger] pads[j]).contains(' ')
    &&& forall|j: int| 0 <= j < m.len() ==> (#[trigger] cells[j]).contains(m[j].ch())
}

/// The characters of the verdicts `m` occur in `line`, in their order.
pub open spec fn shows_in_order(line: Seq<char>, m: Seq<CharMatch>) -> bool {
    exists|pos: Seq<int>| places(line, m, pos)
}

/// Every guess gets one verdict per character, in order, each carrying the
/// guessed character at its position.
pub proof fn lemma_classify_shape(guess: Seq<char>, target: Seq<char>)
    ensures
        classify(guess, target).len() == guess.len(),
        forall|i: int| 0 <= i < guess.len() ==> (#[trigger] classify(guess, target)[i]).ch() == guess[i],
{
}

/// A guess whose verdicts are all `ExistsHere` is the target itself, when the
/// two have the same length.
pub proof fn lemma_all_here_is_target(guess: Seq<char>, target: Seq<char>)
    requires
        guess.len() == target.len(),
        forall|i: int| 0 <= i < guess.len() ==> #[trigger] classify(guess, target)[i] is ExistsHere,
    ensures
        guess == target,
{
    assert forall|i: int| 0 <= i < guess.len() implies guess[i] == target[i] by {
        assert(classify(guess, target)[i] is ExistsHere);
    }
    assert(guess =~= target);
}

/// The count of verdicts in place is at most their number, and reaches it
/// only when every verdict is in place.
proof fn lemma_count_here_full(m: Seq<CharMatch>)
    ensures
        count_here(m) <= m.len(),
        count_here(m) == m.len() <==> forall|i: int| 0 <= i < m.len() ==> #[trigger] m[i] is ExistsHere,
    decreases m.len(),
{
    if m.len() > 0 {
        lemma_count_here_full(m.drop_last());
        if count_here(m) == m.len() {
            assert forall|i: int| 0 <= i < m.len() implies #[trigger] m[i] is ExistsHere by {
                if i < m.len() - 1 {
                    assert(m.drop_last()[i] is ExistsHere);
                }
            }
        }
        if forall|i: int| 0 <= i < m.len() ==> #[trigger] m[i] is ExistsHere {
            assert forall|i: int| 0 <= i < m.drop_last().len() implies #[trigger] m.drop_last()[i] is ExistsHere by {
                assert(m[i] is ExistsHere);
            }
        }
    }
}

/// For a guess as long as the target, the win flag is set exactly when the
/// guess is the target.
pub proof fn lemma_win_iff_target(guess: Seq<char>, target: Seq<char>)
    requires
        guess.len() == target.len(),
    ensures
        wins(guess, target) <==> guess == target,
{
    let m = classify(guess, target);
    lemma_count_here_full(m);
    if wins(guess, target) {
        lemma_all_here_is_target(guess, target);
    }
    if guess == target {
        assert forall|i: int| 0 <= i < m.len() implies #[trigger] m[i] is ExistsHere by {
            assert(target[i] == guess[i]);
            assert(target.contains(guess[i]));
        }
    }
}

/// Resolving an attempt a second time against the same target gives the same
/// verdicts and the same win flag.
pub proof fn lemma_resolve_idempotent(before: Attempt, once: Attempt, twice: Attempt, target: Seq<char>)
    requires
        Attempt::resolved_from(before, once, target),
        Attempt::resolved_from(once, twice, target),
    ensures
        twice.classes() == once.classes(),
        twice.won() == once.won(),
{
}

/// Taking one more element of `s` appends `s[i]`.
proof fn lemma_take_step<A>(s: Seq<A>, i: int)
    requires
        0 <= i < s.len(),
    ensures
        s.take(i + 1) == s.take(i).push(s[i]),
{
    assert(s.take(i + 1) =~= s.take(i).push(s[i]));
}

/// Appending a verdict adds one to the count exactly when it is in place.
proof fn lemma_count_here_push(m: Seq<CharMatch>, x: CharMatch)
    ensures
        count_here(m.push(x)) == count_here(m) + if x is ExistsHere {
            1nat
        } else {
            0nat
        },
{
    assert(m.push(x).drop_last() =~= m);
}

/// Whether `c` occurs in `v`.
fn contains_char(v: &Vec<char>, c: char) -> (r: bool)
    ensures
        r == v@.contains(c),
{
    let mut i: usize = 0;
    while i < v.len()
        invariant
            i <= v.len(),
            forall|j: int| 0 <= j < i ==> v@[j] != c,
        decreases v.len() - i,
    {
        if v[i] == c {
            assert(v@[i as int] == c);
            return true;
        }
        i = i + 1;
    }
    false
}

} // verus!
