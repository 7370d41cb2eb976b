//! The sheet a user fills in, its two actions, and the CSV log lines that a
//! valid calculation hands out.
use vstd::prelude::*;
use crate::grade::{
    average_of, average_text, lemma_one_invalid_mark_voids_total, marks_total, verdict_of, verdict_text, Average, Verdict,
    SUBJECT_ROWS,
};
use crate::mark::entered_mark;
use crate::text::{trim, trimmed};

verus! {

/// Cells, each preceded by a comma.
pub open spec fn cells(cs: Seq<Seq<char>>) -> Seq<char>
    decreases cs.len(),
{
    if cs.len() == 0 {
        Seq::empty()
    } else {
        cells(cs.drop_last()) + seq![','] + cs.last()
    }
}

/// The text of each string.
pub open spec fn texts(v: Seq<String>) -> Seq<Seq<char>> {
    v.map_values(|s: String| s@)
}

/// The subjects offered on every row.
pub open spec fn subject_catalog() -> Seq<Seq<char>> {
    seq!["Math"@, "Science"@, "English"@, "Social"@, "Computer"@, "Hindi"@, "Tamil"@]
}

/// The header line of the log: the columns, with the subject chosen on each row.
pub open spec fn header_line(subjects: Seq<Seq<char>>, selected: Seq<usize>) -> Seq<char> {
    "Name,Roll No."@ + cells(selected.map_values(|k: usize| subjects[k as int]))
        + ",Average,Result\n"@
}

/// The log line of one calculation: name, roll number, each mark as entered but
/// trimmed, the average with two decimals and the verdict.
pub open spec fn data_line(
    name: Seq<char>,
    roll_no: Seq<char>,
    marks: Seq<Seq<char>>,
    total: int,
) -> Seq<char> {
    name + seq![','] + roll_no + cells(marks.map_values(|m: Seq<char>| trimmed(m))) + seq![',']
        + average_text(total) + seq![','] + verdict_text(verdict_of(total)) + seq!['\n']
}

/// A student's mark sheet: name, roll number, and on each of seven rows a
/// subject chosen from the catalog and the mark entered for it.
pub struct StudentForm {
    pub name: String,
    pub roll_no: String,
    /// The subjects a row may choose from, fixed when the sheet is made.
    pub subjects: Vec<String>,
    /// For each row, an index into `subjects`.
    pub selected_subjects: [usize; 7],
    /// For each row, the mark as typed.
    pub marks: [String; 7],
    /// The average of the last calculation, where its marks were valid.
    pub average: Option<Average>,
    /// The verdict of the last calculation.
    pub result: Option<Verdict>,
}

impl StudentForm {
    pub open spec fn mark_texts(&self) -> Seq<Seq<char>> {
        self.marks@.map_values(|m: String| m@)
    }

    pub open spec fn wf(&self) -> bool {
        &&& forall|i: int|
            0 <= i < SUBJECT_ROWS ==> #[trigger] self.selected_subjects@[i]
                < self.subjects@.len()
        &&& match self.result {
            Some(Verdict::Invalid) | None => self.average is None,
            Some(v) => self.average is Some && self.average.unwrap().wf() && v == verdict_of(
                self.average.unwrap().spec_total(),
            ),
        }
    }

    /// Every field the user edits is empty or at its first choice, and nothing
    /// is computed.
    pub open spec fn is_blank(&self) -> bool {
        &&& self.name@.len() == 0
        &&& self.roll_no@.len() == 0
        &&& forall|i: int| 0 <= i < SUBJECT_ROWS ==> #[trigger] self.selected_subjects@[i] == 0
        &&& forall|i: int| 0 <= i < SUBJECT_ROWS ==> #[trigger] self.marks@[i]@.len() == 0
        &&& self.average is None
        &&& self.result is None
    }

    /// The lines that a calculation with these marks appends to the log, or
    /// `None` where a mark is not valid. The header comes first where the log
    /// does not exist yet.
    pub open spec fn appended_lines(&self, log_exists: bool) -> Option<Seq<Seq<char>>> {
        match marks_total(self.mark_texts()) {
            None => None,
            Some(total) => {
                let row = data_line(self.name@, self.roll_no@, self.mark_texts(), total);
                if log_exists {
                    Some(seq![row])
                } else {
                    Some(seq![header_line(texts(self.subjects@), self.selected_subjects@), row])
                }
            },
        }
    }

    /// A blank sheet over the subject catalog.
    pub fn new() -> (r: Self)
        ensures
            r.wf(),
            r.is_blank(),
            texts(r.subjects@) == subject_catalog(),
    {
        let mut subjects: Vec<String> = Vec::new();
        subjects.push(String::from_str("Math"));
        subjects.push(String::from_str("Science"));
        subjects.push(String::from_str("English"));
        subjects.push(String::from_str("Social"));
        subjects.push(String::from_str("Computer"));
        subjects.push(String::from_str("Hindi"));
        subjects.push(String::from_str("Tamil"));
        assert(texts(subjects@) =~= subject_catalog());
        let r = StudentForm {
            name: String::new(),
            roll_no: String::new(),
            subjects,
            selected_subjects: [0, 0, 0, 0, 0, 0, 0],
            marks: [
                String::new(),
                String::new(),
                String::new(),
                String::new(),
                String::new(),
                String::new(),
                String::new(),
            ],
            average: None,
            result: None,
        };
        r
    }

    /// Empties the name, roll number and marks, puts every row back on the first
    /// subject and forgets the last calculation. The catalog stays.
    pub fn clear(&mut self)
        requires
            old(self).wf(),
        ensures
            final(self).is_blank(),
            final(self).wf(),
            final(self).subjects == old(self).subjects,
    {
        assert(old(self).selected_subjects@[0] < old(self).subjects@.len());
        self.name = String::new();
        self.roll_no = String::new();
        self.selected_subjects = [0, 0, 0, 0, 0, 0, 0];
        self.marks = [
            String::new(),
            String::new(),
            String::new(),
            String::new(),
            String::new(),
            String::new(),
            String::new(),
        ];
        self.average = None;
        self.result = None;
    }

    /// The average of the last valid calculation, with two decimals.
    pub fn average_shown(&self) -> (r: Option<String>)
        requires
            self.wf(),
        ensures
            r is Some == self.average is Some,
            r is Some ==> r.unwrap()@ == average_text(self.average.unwrap().spec_total()),
    {
        match &self.average {
            Some(a) => Some(a.text()),
            None => None,
        }
    }

    /// The text of the last verdict.
    pub fn result_shown(&self) -> (r: Option<String>)
        ensures
            r is Some == self.result is Some,
            r is Some ==> r.unwrap()@ == verdict_text(self.result.unwrap()),
    {
        match &self.result {
            Some(v) => Some(v.text()),
            None => None,
        }
    }

    /// The header line of the log for the subjects now chosen.
    pub fn header_line(&self) -> (r: String)
        requires
            self.wf(),
        ensures
            r@ == header_line(texts(self.subjects@), self.selected_subjects@),
    {
        let ghost cs = self.selected_subjects@.map_values(
            |k: usize| texts(self.subjects@)[k as int],
        );
        let mut out = String::from_str("Name,Roll No.");
        let mut i: usize = 0;
        while i < SUBJECT_ROWS
            invariant
                self.wf(),
                i <= SUBJECT_ROWS,
                cs == self.selected_subjects@.map_values(
                    |k: usize| texts(self.subjects@)[k as int],
                ),
                out@ == "Name,Roll No."@ + cells(cs.take(i as int)),
            decreases SUBJECT_ROWS - i,
        {
            let k = self.selected_subjects[i];
            assert(k == self.selected_subjects@[i as int]);
            out.append(",");
            out.append(self.subjects[k].as_str());
            proof {
                reveal_strlit(",");
                assert(cs.take(i + 1).drop_last() =~= cs.take(i as int));
            }
            i = i + 1;
        }
        assert(cs.take(SUBJECT_ROWS as int) =~= cs);
        out.append(",Average,Result\n");
        out
    }

    /// The log line for a calculation that came to `average`.
    pub fn data_line(&self, average: &Average) -> (r: String)
        requires
            average.wf(),
        ensures
            r@ == data_line(self.name@, self.roll_no@, self.mark_texts(), average.spec_total()),
    {
        let ghost cs = self.mark_texts().map_values(|m: Seq<char>| trimmed(m));
        let mut out = self.name.clone();
        out.append(",");
        out.append(self.roll_no.as_str());
        let ghost head = out@;
        let mut i: usize = 0;
        while i < SUBJECT_ROWS
            invariant
                i <= SUBJECT_ROWS,
                cs == self.mark_texts().map_values(|m: Seq<char>| trimmed(m)),
                out@ == head + cells(cs.take(i as int)),
            decreases SUBJECT_ROWS - i,
        {
            out.append(",");
            out.append(trim(self.marks[i].as_str()));
            proof {
                reveal_strlit(",");
                assert(cs.take(i + 1).drop_last() =~= cs.take(i as int));
            }
            i = i + 1;
        }
        assert(cs.take(SUBJECT_ROWS as int) =~= cs);
        out.append(",");
        let shown = average.text();
        out.append(shown.as_str());
        out.append(",");
        let verdict = average.verdict();
        let said = verdict.text();
        out.append(said.as_str());
        out.append("\n");
        proof {
            reveal_strlit(",");
            reveal_strlit("\n");
            assert(out@ =~= data_line(
                self.name@,
                self.roll_no@,
                self.mark_texts(),
                average.spec_total(),
            ));
        }
        out
    }

    /// Reads the seven marks and records the outcome. Where every mark is
    /// valid, the average and its verdict are kept and the lines for the log are
    /// returned: the header first where `log_exists` is false, then the data
    /// line. Where a mark is not valid, the average is dropped, the verdict is
    /// `Invalid`, and nothing goes to the log.
    pub fn calculate(&mut self, log_exists: bool) -> (r: Option<Vec<String>>)
        requires
            old(self).wf(),
        ensures
            final(self).wf(),
            final(self).name == old(self).name,
            final(self).roll_no == old(self).roll_no,
            final(self).subjects == old(self).subjects,
            final(self).selected_subjects == old(self).selected_subjects,
            final(self).marks == old(self).marks,
            r is Some == old(self).appended_lines(log_exists) is Some,
            r is Some ==> texts(r.unwrap()@) == old(self).appended_lines(log_exists).unwrap(),
            marks_total(old(self).mark_texts()) is None ==> final(self).average is None
                && final(self).result == Some(Verdict::Invalid),
            marks_total(old(self).mark_texts()) is Some ==> final(self).average is Some
                && final(self).average.unwrap().spec_total() == marks_total(
                old(self).mark_texts(),
            ).unwrap() && final(self).result == Some(
                verdict_of(marks_total(old(self).mark_texts()).unwrap()),
            ),
    {
        match average_of(&self.marks) {
            None => {
                self.average = None;
                self.result = Some(Verdict::Invalid);
                None
            },
            Some(average) => {
                let mut lines: Vec<String> = Vec::new();
                if !log_exists {
                    lines.push(self.header_line());
                }
                lines.push(self.data_line(&average));
                self.result = Some(average.verdict());
                self.average = Some(average);
                assert(texts(lines@) =~= old(self).appended_lines(log_exists).unwrap());
                Some(lines)
            },
        }
    }
}

impl Default for StudentForm {
    fn default() -> (r: Self)
        ensures
            r.wf(),
            r.is_blank(),
            texts(r.subjects@) == subject_catalog(),
    {
        StudentForm::new()
    }
}

/// The log, line by line, after a calculation on `f`; `None` is a log that does
/// not exist yet.
pub open spec fn log_after(log: Option<Seq<Seq<char>>>, f: StudentForm) -> Option<
    Seq<Seq<char>>,
> {
    match f.appended_lines(log is Some) {
        None => log,
        Some(lines) => Some(log.unwrap_or(Seq::empty()) + lines),
    }
}

/// The log only grows: a valid calculation keeps every line there and adds
/// exactly one data line, preceded by the header only when the log is created;
/// an invalid one leaves the log as it was.
pub proof fn lemma_log_grows_by_one_row(log: Option<Seq<Seq<char>>>, f: StudentForm)
    ensures
        marks_total(f.mark_texts()) is None ==> log_after(log, f) == log,
        marks_total(f.mark_texts()) is Some ==> ({
            let after = log_after(log, f).unwrap();
            let row = data_line(
                f.name@,
                f.roll_no@,
                f.mark_texts(),
                marks_total(f.mark_texts()).unwrap(),
            );
            &&& log is Some ==> after == log.unwrap().push(row)
            &&& log is None ==> after == seq![
                header_line(texts(f.subjects@), f.selected_subjects@),
                row,
            ]
        }),
{
    if let Some(l) = log {
        if marks_total(f.mark_texts()) is Some {
            let row = data_line(
                f.name@,
                f.roll_no@,
                f.mark_texts(),
                marks_total(f.mark_texts()).unwrap(),
            );
            assert(l + seq![row] =~= l.push(row));
        }
    } else {
        if marks_total(f.mark_texts()) is Some {
            assert(Seq::<Seq<char>>::empty() + seq![
                header_line(texts(f.subjects@), f.selected_subjects@),
                data_line(f.name@, f.roll_no@, f.mark_texts(), marks_total(f.mark_texts()).unwrap()),
            ] =~= seq![
                header_line(texts(f.subjects@), f.selected_subjects@),
                data_line(f.name@, f.roll_no@, f.mark_texts(), marks_total(f.mark_texts()).unwrap()),
            ]);
        }
    }
}

/// The outcome of a calculation depends on the marks alone: two sheets with the
/// same marks, whatever subjects their rows chose (repeats included), come to
/// the same total and the same verdict.
pub proof fn lemma_outcome_ignores_subjects(a: StudentForm, b: StudentForm)
    requires
        a.marks == b.marks,
    ensures
        marks_total(a.mark_texts()) == marks_total(b.mark_texts()),
{
}

/// A sheet with an unreadable mark on any row gives no log lines.
pub proof fn lemma_invalid_mark_writes_nothing(f: StudentForm, i: int, log_exists: bool)
    requires
        0 <= i < SUBJECT_ROWS,
        entered_mark(f.marks@[i]@) is None,
    ensures
        marks_total(f.mark_texts()) is None,
        f.appended_lines(log_exists) is None,
{
    lemma_one_invalid_mark_voids_total(f.mark_texts(), i);
}

} // verus!
