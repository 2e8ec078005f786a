//! Reports: the lines that a program prints.
use vstd::prelude::*;
use vstd::string::*;

verus! {

/// The texts of a sequence of strings.
pub open spec fn texts(strings: Seq<String>) -> Seq<Seq<char>> {
    strings.map_values(|s: String| s@)
}

/// Lines of text, in the order in which they are printed.
pub struct Report {
    lines: Vec<String>,
}

impl View for Report {
    type V = Seq<Seq<char>>;

    closed spec fn view(&self) -> Seq<Seq<char>> {
        texts(self.lines@)
    }
}

impl Report {
    /// A report without lines.
    pub fn new() -> (report: Report)
        ensures
            report@ == Seq::<Seq<char>>::empty(),
    {
        let report = Report { lines: Vec::new() };
        proof {
            assert(report@ =~= Seq::<Seq<char>>::empty());
        }
        report
    }

    /// Adds a line at the end.
    pub fn push(&mut self, line: String)
        ensures
            final(self)@ == old(self)@.push(line@),
    {
        let ghost before = self.lines@;
        self.lines.push(line);
        proof {
            assert(texts(before.push(line)) =~= texts(before).push(line@));
        }
    }

    /// Adds a fixed line at the end.
    pub fn line(&mut self, line: &str)
        ensures
            final(self)@ == old(self)@.push(line@),
    {
        self.push(line.to_owned());
    }

    /// Adds the lines of another report at the end.
    pub fn append(&mut self, other: Report)
        ensures
            final(self)@ == old(self)@ + other@,
    {
        let ghost before = self.lines@;
        let ghost added = other.lines@;
        let mut rest = other.lines;
        self.lines.append(&mut rest);
        proof {
            assert(texts(before + added) =~= texts(before) + texts(added));
        }
    }

    /// The lines as strings.
    pub fn into_lines(self) -> (lines: Vec<String>)
        ensures
            texts(lines@) == self@,
    {
        self.lines
    }
}

/// The texts of strings are theirs, one for one.
pub proof fn texts_are_those_of_the_strings(strings: Seq<String>)
    ensures
        texts(strings).len() == strings.len(),
        forall|i: int| 0 <= i < strings.len() ==> #[trigger] texts(strings)[i] == strings[i]@,
{
}

} // verus!
