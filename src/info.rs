//! The counts of one input, and their sum over several.
use vstd::prelude::*;

verus! {

/// Counts of one input: lines, words and characters.
#[derive(Debug, Clone, Copy, PartialEq, Eq, Structural)]
pub struct FileInfo {
    pub lines: usize,
    pub words: usize,
    pub chars: usize,
}

/// The element-wise sum of two triples of counts.
pub open spec fn plus(a: (nat, nat, nat), b: (nat, nat, nat)) -> (nat, nat, nat) {
    (a.0 + b.0, a.1 + b.1, a.2 + b.2)
}

impl View for FileInfo {
    type V = (nat, nat, nat);

    open spec fn view(&self) -> (nat, nat, nat) {
        (self.lines as nat, self.words as nat, self.chars as nat)
    }
}

impl FileInfo {
    /// All three counts at zero.
    pub fn new() -> (r: FileInfo)
        ensures
            r@ == (0nat, 0nat, 0nat),
    {
        FileInfo { lines: 0, words: 0, chars: 0 }
    }

    /// Whether each sum of `self` and `rhs` fits a `usize`.
    pub open spec fn fits_with(&self, rhs: FileInfo) -> bool {
        &&& self.lines + rhs.lines <= usize::MAX
        &&& self.words + rhs.words <= usize::MAX
        &&& self.chars + rhs.chars <= usize::MAX
    }

    /// Whether `self` and `rhs` can be added without overflow.
    pub fn can_add(&self, rhs: FileInfo) -> (r: bool)
        ensures
            r == self.fits_with(rhs),
    {
        rhs.lines <= usize::MAX - self.lines && rhs.words <= usize::MAX - self.words && rhs.chars
            <= usize::MAX - self.chars
    }

    /// Adds `rhs` to `self`, count by count.
    pub fn add_assign(&mut self, rhs: FileInfo)
        requires
            old(self).fits_with(rhs),
        ensures
            final(self)@ == plus(old(self)@, rhs@),
    {
        self.lines = self.lines + rhs.lines;
        self.words = self.words + rhs.words;
        self.chars = self.chars + rhs.chars;
    }
}

} // verus!

verus! {

/// The decimal digit of value `d`, below ten.
pub open spec fn digit(d: nat) -> char {
    seq!['0', '1', '2', '3', '4', '5', '6', '7', '8', '9'][d as int]
}

/// `n` written in decimal, without leading zeros.
pub open spec fn decimal(n: nat) -> Seq<char>
    decreases n,
{
    if n < 10 {
        seq![digit(n)]
    } else {
        decimal(n / 10).push(digit(n % 10))
    }
}

/// `n` in decimal, right-justified with spaces in a field at least eight wide.
pub open spec fn field(n: nat) -> Seq<char> {
    let d = decimal(n);
    if d.len() < 8 {
        Seq::new((8 - d.len()) as nat, |i: int| ' ') + d
    } else {
        d
    }
}

/// The fields of the counts `c` that are shown, in the order lines, words, characters.
pub open spec fn fields_text(c: (nat, nat, nat), show_lines: bool, show_words: bool, show_chars: bool) -> Seq<char> {
    (if show_lines { field(c.0) } else { Seq::empty() }) + (if show_words {
        field(c.1)
    } else {
        Seq::empty()
    }) + (if show_chars { field(c.2) } else { Seq::empty() })
}

/// Appends `n` in decimal to `out`.
fn push_decimal(out: &mut String, n: usize)
    ensures
        final(out)@ == old(out)@ + decimal(n as nat),
    decreases n,
{
    let digits = "0123456789";
    proof {
        reveal_strlit("0123456789");
    }
    if n >= 10 {
        push_decimal(out, n / 10);
    }
    let d = n % 10;
    out.append(digits.substring_char(d, d + 1));
    proof {
        let s = "0123456789"@;
        assert(s.subrange(d as int, d + 1) =~= seq![digit(d as nat)]);
        if n >= 10 {
            assert(old(out)@ + decimal(n as nat) =~= old(out)@ + decimal((n / 10) as nat) + seq![digit(d as nat)]);
        } else {
            assert(old(out)@ + decimal(n as nat) =~= old(out)@ + seq![digit(d as nat)]);
        }
    }
}

/// Appends `field(n)` to `out`.
fn push_field(out: &mut String, n: usize)
    ensures
        final(out)@ == old(out)@ + field(n as nat),
{
    let mut digits = String::new();
    push_decimal(&mut digits, n);
    assert(digits@ =~= decimal(n as nat));
    let len = digits.as_str().unicode_len();
    let ghost start = out@;
    let mut k: usize = len;
    while k < 8
        invariant
            len == decimal(n as nat).len(),
            len <= k <= 8 || (k == len && len > 8),
            out@ == start + Seq::new((k - len) as nat, |i: int| ' '),
        decreases 8 - k,
    {
        proof {
            reveal_strlit(" ");
        }
        out.append(" ");
        assert(start + Seq::new((k + 1 - len) as nat, |i: int| ' ') =~= start + Seq::new(
            (k - len) as nat,
            |i: int| ' ',
        ) + " "@);
        k = k + 1;
    }
    out.append(digits.as_str());
    assert(out@ =~= old(out)@ + field(n as nat));
}

impl FileInfo {
    /// The shown counts, each right-justified in a field at least eight wide, joined
    /// with no separator.
    pub fn format(&self, show_lines: bool, show_words: bool, show_chars: bool) -> (r: String)
        ensures
            r@ == fields_text(self@, show_lines, show_words, show_chars),
    {
        let mut out = String::new();
        if show_lines {
            push_field(&mut out, self.lines);
        }
        if show_words {
            push_field(&mut out, self.words);
        }
        if show_chars {
            push_field(&mut out, self.chars);
        }
        assert(out@ =~= fields_text(self@, show_lines, show_words, show_chars));
        out
    }
}

} // verus!
