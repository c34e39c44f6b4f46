//! One run over several inputs: which counts are shown, the output lines, the total.
use vstd::prelude::*;

use crate::info::{fields_text, plus, FileInfo};

verus! {

/// Which of the three counts are shown.
#[derive(Debug, Clone, Copy, PartialEq, Eq, Structural)]
pub struct Selection {
    pub lines: bool,
    pub words: bool,
    pub chars: bool,
}

impl Selection {
    /// The selection that is used: all three counts where none was asked for.
    pub fn resolved(self) -> (r: Selection)
        ensures
            !self.lines && !self.words && !self.chars ==> r.lines && r.words && r.chars,
            self.lines || self.words || self.chars ==> r == self,
    {
        if !self.lines && !self.words && !self.chars {
            Selection { lines: true, words: true, chars: true }
        } else {
            self
        }
    }
}

/// The name that stands for standard input.
pub open spec fn stdin_name() -> Seq<char> {
    seq!['-']
}

/// Whether `name` stands for standard input.
pub fn is_stdin(name: &str) -> (r: bool)
    ensures
        r == (name@ == stdin_name()),
{
    if name.unicode_len() != 1 {
        return false;
    }
    let c = name.get_char(0);
    assert(c == '-' ==> name@ =~= stdin_name());
    c == '-'
}

/// The inputs of a run: `names`, or standard input alone where `names` is empty.
pub fn input_names(names: Vec<String>) -> (r: Vec<String>)
    ensures
        names@.len() == 0 ==> r@.len() == 1 && r@[0]@ == stdin_name(),
        names@.len() > 0 ==> r@ == names@,
{
    if names.len() == 0 {
        proof {
            reveal_strlit("-");
        }
        let mut r: Vec<String> = Vec::new();
        r.push(String::from_str("-"));
        r
    } else {
        names
    }
}

/// The line of a failed input: its name, a colon and a space, then the message.
pub fn error_line(name: &str, message: &str) -> (r: String)
    ensures
        r@ == name@ + ": "@ + message@,
{
    proof {
        reveal_strlit(": ");
    }
    let mut r = String::from_str(name);
    r.append(": ");
    r.append(message);
    r
}

impl FileInfo {
    /// The output line of an input: its selected fields, a space, then `name` as given.
    pub fn report_line(&self, sel: Selection, name: &str) -> (r: String)
        ensures
            r@ == fields_text(self@, sel.lines, sel.words, sel.chars) + " "@ + name@,
    {
        proof {
            reveal_strlit(" ");
        }
        let mut r = self.format(sel.lines, sel.words, sel.chars);
        r.append(" ");
        r.append(name);
        r
    }
}

/// The running state of a run: the sum of the counted inputs, and how many inputs
/// were taken, counted or failed.
pub struct Tally {
    pub total: FileInfo,
    pub inputs: usize,
}

impl Tally {
    /// A run that has taken no input.
    pub fn new() -> (r: Tally)
        ensures
            r.total@ == (0nat, 0nat, 0nat),
            r.inputs == 0,
    {
        Tally { total: FileInfo::new(), inputs: 0 }
    }

    /// Takes the counts of an input that was read to its end.
    pub fn record(&mut self, info: FileInfo)
        requires
            old(self).total.fits_with(info),
            old(self).inputs < usize::MAX,
        ensures
            final(self).total@ == plus(old(self).total@, info@),
            final(self).inputs == old(self).inputs + 1,
    {
        self.total.add_assign(info);
        self.inputs = self.inputs + 1;
    }

    /// Takes an input that could not be read: the total stays as it was.
    pub fn record_failure(&mut self)
        requires
            old(self).inputs < usize::MAX,
        ensures
            final(self).total == old(self).total,
            final(self).inputs == old(self).inputs + 1,
    {
        self.inputs = self.inputs + 1;
    }

    /// The line of the total, which a run of more than one input ends with.
    pub fn summary(&self, sel: Selection) -> (r: Option<String>)
        ensures
            r is Some <==> self.inputs > 1,
            r matches Some(line) ==> line@ == fields_text(
                self.total@,
                sel.lines,
                sel.words,
                sel.chars,
            ) + " total"@,
    {
        if self.inputs > 1 {
            proof {
                reveal_strlit(" total");
            }
            let mut r = self.total.format(sel.lines, sel.words, sel.chars);
            r.append(" total");
            Some(r)
        } else {
            None
        }
    }
}

/// After two inputs are recorded in a new run, the total is their element-wise sum.
pub proof fn lemma_total_of_two(a: FileInfo, b: FileInfo)
    ensures
        plus(plus((0nat, 0nat, 0nat), a@), b@) == (
            (a.lines + b.lines) as nat,
            (a.words + b.words) as nat,
            (a.chars + b.chars) as nat,
        ),
{
}

} // verus!
