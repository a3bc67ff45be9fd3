//! Line-tagged diagnostics and the text form they are displayed in.

use vstd::prelude::*;

verus! {

/// Mathematical model of a diagnostic: a 1-based line and a message.
pub ghost struct DiagV {
    pub line: nat,
    pub message: Seq<char>,
}

/// A single problem found while scanning or parsing. Plain data.
#[derive(Debug)]
pub struct Diagnostic {
    pub line: usize,
    pub message: String,
}

impl View for Diagnostic {
    type V = DiagV;

    open spec fn view(&self) -> DiagV {
        DiagV { line: self.line as nat, message: self.message@ }
    }
}

impl Clone for Diagnostic {
    fn clone(&self) -> (d: Diagnostic)
        ensures
            d == *self,
    {
        Diagnostic { line: self.line, message: self.message.clone() }
    }
}

impl Diagnostic {
    pub fn new(line: usize, message: &str) -> (d: Diagnostic)
        ensures
            d@ == (DiagV { line: line as nat, message: message@ }),
    {
        Diagnostic { line, message: message.to_owned() }
    }

    /// The display form of this diagnostic.
    pub fn render(&self) -> (r: String)
        ensures
            r@ == report_str(self.line as nat, Seq::<char>::empty(), self.message@),
    {
        error(self.line, self.message.as_str())
    }
}

/// The models of a diagnostic sequence, in order.
pub open spec fn diags_view(v: Seq<Diagnostic>) -> Seq<DiagV> {
    v.map_values(|d: Diagnostic| d@)
}

pub proof fn lemma_diags_view_push(v: Seq<Diagnostic>, d: Diagnostic)
    ensures
        diags_view(v.push(d)) == diags_view(v) + seq![d@],
{
    assert(diags_view(v.push(d)) =~= diags_view(v) + seq![d@]);
}

/// The decimal digit characters of `n`, most significant first.
pub open spec fn dec_str(n: nat) -> Seq<char>
    decreases n,
{
    if n < 10 {
        seq![digit_char(n)]
    } else {
        dec_str(n / 10).push(digit_char(n % 10))
    }
}

pub open spec fn digit_char(d: nat) -> char {
    if d == 0 {
        '0'
    } else if d == 1 {
        '1'
    } else if d == 2 {
        '2'
    } else if d == 3 {
        '3'
    } else if d == 4 {
        '4'
    } else if d == 5 {
        '5'
    } else if d == 6 {
        '6'
    } else if d == 7 {
        '7'
    } else if d == 8 {
        '8'
    } else {
        '9'
    }
}

/// The display form of a diagnostic with the given line, location tag and message.
pub open spec fn report_str(line: nat, location: Seq<char>, message: Seq<char>) -> Seq<char> {
    "[line "@ + dec_str(line) + "] Error"@ + location + ": "@ + message
}

fn digit_text(d: usize) -> (r: &'static str)
    requires
        d < 10,
    ensures
        r@ == seq![digit_char(d as nat)],
{
    proof {
        reveal_strlit("0");
        reveal_strlit("1");
        reveal_strlit("2");
        reveal_strlit("3");
        reveal_strlit("4");
        reveal_strlit("5");
        reveal_strlit("6");
        reveal_strlit("7");
        reveal_strlit("8");
        reveal_strlit("9");
        assert("0"@ =~= seq!['0']);
        assert("1"@ =~= seq!['1']);
        assert("2"@ =~= seq!['2']);
        assert("3"@ =~= seq!['3']);
        assert("4"@ =~= seq!['4']);
        assert("5"@ =~= seq!['5']);
        assert("6"@ =~= seq!['6']);
        assert("7"@ =~= seq!['7']);
        assert("8"@ =~= seq!['8']);
        assert("9"@ =~= seq!['9']);
    }
    match d {
        0 => "0",
        1 => "1",
        2 => "2",
        3 => "3",
        4 => "4",
        5 => "5",
        6 => "6",
        7 => "7",
        8 => "8",
        _ => "9",
    }
}

/// The decimal text of `n`.
pub fn dec_string(n: usize) -> (r: String)
    ensures
        r@ == dec_str(n as nat),
    decreases n,
{
    if n < 10 {
        String::from_str(digit_text(n))
    } else {
        let mut s = dec_string(n / 10);
        s.append(digit_text(n % 10));
        proof {
            assert(dec_str((n / 10) as nat) + seq![digit_char((n % 10) as nat)] =~= dec_str(
                (n / 10) as nat,
            ).push(digit_char((n % 10) as nat)));
        }
        s
    }
}

/// The display form of a problem at `line` with no location tag.
pub fn error(line: usize, message: &str) -> (r: String)
    ensures
        r@ == report_str(line as nat, Seq::<char>::empty(), message@),
{
    let r = report(line, "", message);
    proof {
        reveal_strlit("");
        assert(""@ =~= Seq::<char>::empty());
        assert(report_str(line as nat, ""@, message@) =~= report_str(
            line as nat,
            Seq::<char>::empty(),
            message@,
        ));
    }
    r
}

/// The display form of a problem at `line` in `location`.
pub fn report(line: usize, location: &str, message: &str) -> (r: String)
    ensures
        r@ == report_str(line as nat, location@, message@),
{
    let mut s = String::from_str("[line ");
    let num = dec_string(line);
    s.append(num.as_str());
    s.append("] Error");
    s.append(location);
    s.append(": ");
    s.append(message);
    s
}

} // verus!
