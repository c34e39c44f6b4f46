//! The counting of one input.
use vstd::prelude::*;

use crate::info::FileInfo;

verus! {

/// Whether `c` has Unicode's White_Space property.
pub uninterp spec fn white_space(c: char) -> bool;

/// Relies on `char::is_whitespace`: true exactly for the White_Space characters.
#[verifier::external_body]
fn is_blank(c: char) -> (r: bool)
    ensures
        r == white_space(c),
{
    c.is_whitespace()
}

/// The number of maximal runs of characters of `s` that are not white space.
pub open spec fn word_count(s: Seq<char>) -> nat
    decreases s.len(),
{
    if s.len() == 0 {
        0
    } else {
        let p = s.drop_last();
        let starts = !white_space(s.last()) && (p.len() == 0 || white_space(p.last()));
        word_count(p) + if starts { 1nat } else { 0nat }
    }
}

/// The lines of `s`, in order: each ends just after a newline, or at the end of `s`.
/// An unterminated last piece is a line of its own; an empty text has no line.
pub open spec fn lines_of(s: Seq<char>) -> Seq<Seq<char>>
    decreases s.len(),
{
    if s.len() == 0 {
        Seq::empty()
    } else {
        let p = s.drop_last();
        let ls = lines_of(p);
        if p.len() == 0 || p.last() == '\n' {
            ls.push(seq![s.last()])
        } else {
            ls.drop_last().push(ls.last().push(s.last()))
        }
    }
}

/// The sum of the word counts of the lines `ls`.
pub open spec fn words_of_lines(ls: Seq<Seq<char>>) -> nat
    decreases ls.len(),
{
    if ls.len() == 0 {
        0
    } else {
        words_of_lines(ls.drop_last()) + word_count(ls.last())
    }
}

/// The counts of a text `s`: its lines, the words of each line summed, its characters.
pub open spec fn count_of(s: Seq<char>) -> (nat, nat, nat) {
    (lines_of(s).len(), words_of_lines(lines_of(s)), s.len())
}

/// The number of newline characters in `s`.
pub open spec fn newlines(s: Seq<char>) -> nat
    decreases s.len(),
{
    if s.len() == 0 {
        0
    } else {
        newlines(s.drop_last()) + if s.last() == '\n' { 1nat } else { 0nat }
    }
}

proof fn lemma_last_line(s: Seq<char>)
    requires
        s.len() > 0,
    ensures
        lines_of(s).len() > 0,
        lines_of(s).last().len() > 0,
        lines_of(s).last().last() == s.last(),
    decreases s.len(),
{
    let p = s.drop_last();
    if p.len() > 0 {
        lemma_last_line(p);
    }
}

/// How the counts of a text change when one character is appended.
proof fn lemma_count_push(s: Seq<char>, c: char)
    ensures
        ({
            let fresh = s.len() == 0 || s.last() == '\n';
            let starts = !white_space(c) && (fresh || white_space(s.last()));
            &&& lines_of(s.push(c)).len() == lines_of(s).len() + if fresh { 1nat } else { 0nat }
            &&& words_of_lines(lines_of(s.push(c))) == words_of_lines(lines_of(s)) + if starts {
                1nat
            } else {
                0nat
            }
        }),
{
    let t = s.push(c);
    assert(t.drop_last() =~= s);
    let ls = lines_of(s);
    if s.len() == 0 || s.last() == '\n' {
        let one = seq![c];
        assert(one.drop_last() =~= Seq::<char>::empty());
        assert(ls.push(one).drop_last() =~= ls);
        assert(lines_of(t) == ls.push(one));
        assert(word_count(one) == word_count(Seq::<char>::empty()) + if !white_space(c) {
            1nat
        } else {
            0nat
        });
        assert(words_of_lines(ls.push(one)) == words_of_lines(ls) + word_count(one));
    } else {
        lemma_last_line(s);
        let x = ls.last().push(c);
        assert(x.drop_last() =~= ls.last());
        assert(ls.drop_last().push(x).drop_last() =~= ls.drop_last());
        assert(lines_of(t) == ls.drop_last().push(x));
        assert(words_of_lines(ls.drop_last().push(x)) == words_of_lines(ls.drop_last())
            + word_count(x));
        assert(words_of_lines(ls) == words_of_lines(ls.drop_last()) + word_count(ls.last()));
    }
}

/// A text has one line per newline, and one more where it ends without a newline.
pub proof fn lemma_lines_are_boundaries(s: Seq<char>)
    ensures
        lines_of(s).len() == newlines(s) + if s.len() > 0 && s.last() != '\n' {
            1nat
        } else {
            0nat
        },
    decreases s.len(),
{
    if s.len() > 0 {
        let p = s.drop_last();
        lemma_lines_are_boundaries(p);
        lemma_count_push(p, s.last());
        assert(p.push(s.last()) =~= s);
    }
}

/// The lines of a text split it exactly: joined in order they give back the text, none
/// is empty, each but the last ends with a newline, and none holds a newline before
/// its end.
pub proof fn lemma_lines_split_text(s: Seq<char>)
    ensures
        lines_of(s).flatten() == s,
        forall|i: int| 0 <= i < lines_of(s).len() ==> #[trigger] lines_of(s)[i].len() > 0,
        forall|i: int|
            0 <= i < lines_of(s).len() - 1 ==> #[trigger] lines_of(s)[i].last() == '\n',
        forall|i: int, j: int|
            0 <= i < lines_of(s).len() && 0 <= j < lines_of(s)[i].len() - 1
                ==> #[trigger] lines_of(s)[i][j] != '\n',
    decreases s.len(),
{
    lines_of(s).lemma_flatten_and_flatten_alt_are_equivalent();
    if s.len() > 0 {
        let p = s.drop_last();
        let c = s.last();
        let ls = lines_of(p);
        lemma_lines_split_text(p);
        ls.lemma_flatten_and_flatten_alt_are_equivalent();
        let t = lines_of(s);
        if p.len() == 0 || p.last() == '\n' {
            assert(t.drop_last() =~= ls);
            assert(t.flatten_alt() =~= s);
            if p.len() > 0 {
                lemma_last_line(p);
            }
        } else {
            lemma_last_line(p);
            let x = ls.last().push(c);
            assert(t.drop_last() =~= ls.drop_last());
            assert(ls.flatten_alt() == ls.drop_last().flatten_alt() + ls.last());
            assert(t.last() == x);
            assert(t.flatten_alt() == t.drop_last().flatten_alt() + t.last());
            assert(ls.drop_last().flatten_alt() + x =~= (ls.drop_last().flatten_alt()
                + ls.last()).push(c));
            assert(p.push(c) =~= s);
            assert forall|i: int, j: int|
                0 <= i < t.len() && 0 <= j < t[i].len() - 1 implies #[trigger] t[i][j] != '\n' by {
                if i == t.len() - 1 && j == t[i].len() - 2 {
                    assert(t[i][j] == p.last());
                } else if i == t.len() - 1 {
                    assert(t[i][j] == ls.last()[j]);
                }
            }
        }
    }
}

/// An empty text counts as no lines, no words and no characters.
pub proof fn lemma_empty_counts()
    ensures
        count_of(Seq::empty()) == (0nat, 0nat, 0nat),
{
}


/// Counting the same text twice gives the same counts.
pub proof fn lemma_count_twice(s: Seq<char>, a: FileInfo, b: FileInfo)
    requires
        a@ == count_of(s),
        b@ == count_of(s),
    ensures
        a == b,
{
}

/// A count in progress over a text that arrives in pieces.
pub struct Counter {
    lines: usize,
    words: usize,
    chars: usize,
    at_line_start: bool,
    in_word: bool,
    consumed: Ghost<Seq<char>>,
}

impl Counter {
    /// The text read so far.
    pub closed spec fn consumed(&self) -> Seq<char> {
        self.consumed@
    }

    /// The lines, words and characters counted so far.
    pub closed spec fn counts(&self) -> (nat, nat, nat) {
        (self.lines as nat, self.words as nat, self.chars as nat)
    }

    /// Whether the next character begins a new line.
    pub closed spec fn at_line_start(&self) -> bool {
        self.at_line_start
    }

    /// Whether the last character read belongs to a word.
    pub closed spec fn in_word(&self) -> bool {
        self.in_word
    }

    /// Neither lines nor words outnumber the characters.
    pub closed spec fn bounded(&self) -> bool {
        self.lines <= self.chars && self.words <= self.chars
    }

    /// The counts and the two flags are those of the text read so far.
    pub open spec fn wf(&self) -> bool {
        let s = self.consumed();
        &&& self.bounded()
        &&& self.counts() == count_of(s)
        &&& self.at_line_start() == (s.len() == 0 || s.last() == '\n')
        &&& self.in_word() == (s.len() > 0 && !white_space(s.last()))
    }

    /// A count over no text.
    pub fn new() -> (r: Counter)
        ensures
            r.wf(),
            r.consumed() == Seq::<char>::empty(),
    {
        Counter {
            lines: 0,
            words: 0,
            chars: 0,
            at_line_start: true,
            in_word: false,
            consumed: Ghost(Seq::empty()),
        }
    }

    /// Takes one character `c`, of which `blank` says whether it is white space.
    pub fn step(&mut self, c: char, blank: bool)
        requires
            old(self).bounded(),
            old(self).counts().2 < usize::MAX,
        ensures
            final(self).bounded(),
            final(self).consumed() == old(self).consumed().push(c),
            final(self).at_line_start() == (c == '\n'),
            final(self).in_word() == !blank,
            final(self).counts() == (
                old(self).counts().0 + if old(self).at_line_start() { 1nat } else { 0nat },
                old(self).counts().1 + if !blank && (old(self).at_line_start()
                    || !old(self).in_word()) {
                    1nat
                } else {
                    0nat
                },
                old(self).counts().2 + 1,
            ),
            old(self).wf() && blank == white_space(c) ==> final(self).wf(),
    {
        proof {
            lemma_count_push(self.consumed@, c);
        }
        if self.at_line_start {
            self.lines = self.lines + 1;
        }
        if !blank && (self.at_line_start || !self.in_word) {
            self.words = self.words + 1;
        }
        self.chars = self.chars + 1;
        self.at_line_start = c == '\n';
        self.in_word = !blank;
        self.consumed = Ghost(self.consumed@.push(c));
    }

    /// Takes the characters of `piece`, in order.
    pub fn feed(&mut self, piece: &str)
        requires
            old(self).wf(),
            old(self).counts().2 + piece@.len() <= usize::MAX,
        ensures
            final(self).wf(),
            final(self).consumed() == old(self).consumed() + piece@,
    {
        let ghost start = self.consumed();
        for c in it: piece.chars()
            invariant
                self.wf(),
                it.seq() == piece@,
                self.consumed() == start + piece@.take(it.index() as int),
                self.counts().2 == start.len() + it.index(),
                start.len() + piece@.len() <= usize::MAX,
        {
            let blank = is_blank(c);
            self.step(c, blank);
            assert(piece@.take(it.index() + 1) =~= piece@.take(it.index() as int).push(c));
        }
        assert(piece@.take(piece@.len() as int) =~= piece@);
    }

    /// The counts so far.
    pub fn info(&self) -> (r: FileInfo)
        ensures
            r@ == self.counts(),
    {
        FileInfo { lines: self.lines, words: self.words, chars: self.chars }
    }
}

impl FileInfo {
    /// The counts of `text`.
    pub fn from_text(text: &str) -> (r: FileInfo)
        requires
            text@.len() <= usize::MAX,
        ensures
            r@ == count_of(text@),
    {
        let mut counter = Counter::new();
        counter.feed(text);
        assert(Seq::<char>::empty() + text@ =~= text@);
        counter.info()
    }
}

} // verus!
