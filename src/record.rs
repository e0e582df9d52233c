//! The grade record: one row of the roster and of the report.

use vstd::prelude::*;
use vstd::string::*;

verus! {

/// One row of the roster: a student's identity and contact fields, and what
/// grading produced for them.
#[derive(Clone, Debug, PartialEq, Eq)]
pub struct Entry {
    pub username: String,
    pub permnum: String,
    pub full_name: String,
    pub email: String,
    pub comments: String,
    pub grader_output: String,
    pub score: String,
    pub letter_grade: String,
    pub late_days: String,
}

/// The mathematical value of an [`Entry`]: each field as a sequence of characters.
pub struct EntryModel {
    pub username: Seq<char>,
    pub permnum: Seq<char>,
    pub full_name: Seq<char>,
    pub email: Seq<char>,
    pub comments: Seq<char>,
    pub grader_output: Seq<char>,
    pub score: Seq<char>,
    pub letter_grade: Seq<char>,
    pub late_days: Seq<char>,
}

impl View for Entry {
    type V = EntryModel;

    open spec fn view(&self) -> EntryModel {
        EntryModel {
            username: self.username@,
            permnum: self.permnum@,
            full_name: self.full_name@,
            email: self.email@,
            comments: self.comments@,
            grader_output: self.grader_output@,
            score: self.score@,
            letter_grade: self.letter_grade@,
            late_days: self.late_days@,
        }
    }
}

/// The marker written into a field whose value could not be found.
pub open spec fn error_marker() -> Seq<char> {
    seq!['e', 'r', 'r', 'o', 'r']
}

/// The record that stands for a submission whose metadata could not be read.
pub open spec fn error_record() -> EntryModel {
    EntryModel {
        username: error_marker(),
        permnum: error_marker(),
        full_name: error_marker(),
        email: error_marker(),
        comments: error_marker(),
        grader_output: error_marker(),
        score: Seq::<char>::empty(),
        letter_grade: Seq::<char>::empty(),
        late_days: Seq::<char>::empty(),
    }
}

/// A field read from the sidecar file: its string value, or the marker.
pub open spec fn field_or_marker(v: Option<Option<Seq<char>>>) -> Seq<char> {
    match v {
        Some(Some(s)) => s,
        _ => error_marker(),
    }
}

/// The record built from the sidecar file's lookups of `username`, `name`
/// and `email`; `None` means that the file was not a valid table.
pub open spec fn sidecar_record(
    username: Option<Option<Seq<char>>>,
    name: Option<Option<Seq<char>>>,
    email: Option<Option<Seq<char>>>,
) -> EntryModel {
    if username is None {
        error_record()
    } else {
        EntryModel {
            username: field_or_marker(username),
            permnum: Seq::<char>::empty(),
            full_name: field_or_marker(name),
            email: field_or_marker(email),
            comments: Seq::<char>::empty(),
            grader_output: Seq::<char>::empty(),
            score: Seq::<char>::empty(),
            letter_grade: Seq::<char>::empty(),
            late_days: Seq::<char>::empty(),
        }
    }
}

/// A record finalised for a submission: the base record with the submission's
/// student id and grader output written over its own.
pub open spec fn merged(base: EntryModel, id: Seq<char>, output: Seq<char>) -> EntryModel {
    EntryModel { username: id, grader_output: output, ..base }
}

/// The fields of a record in the column order of the roster.
pub open spec fn columns_of(e: EntryModel) -> Seq<Seq<char>> {
    seq![
        e.username,
        e.permnum,
        e.full_name,
        e.email,
        e.comments,
        e.grader_output,
        e.score,
        e.letter_grade,
        e.late_days,
    ]
}

/// The number of columns of the roster.
pub const COLUMNS: usize = 9;

fn marker() -> (r: String)
    ensures
        r@ == error_marker(),
{
    let s = "error";
    proof {
        reveal_strlit("error");
    }
    let r = String::from_str(s);
    assert(r@ =~= error_marker());
    r
}

fn field_from(v: Option<Option<String>>) -> (r: String)
    ensures
        r@ == field_or_marker(
            match v {
                Some(Some(s)) => Some(Some(s@)),
                Some(None) => Some(None),
                None => None,
            },
        ),
{
    match v {
        Some(Some(s)) => s,
        _ => marker(),
    }
}

/// The view of a sidecar lookup result.
pub open spec fn lookup_view(v: Option<Option<String>>) -> Option<Option<Seq<char>>> {
    match v {
        Some(Some(s)) => Some(Some(s@)),
        Some(None) => Some(None),
        None => None,
    }
}

impl Entry {
    /// The record used when a submission's metadata cannot be parsed.
    pub fn parse_error() -> (r: Entry)
        ensures
            r@ == error_record(),
    {
        Entry {
            username: marker(),
            permnum: marker(),
            full_name: marker(),
            email: marker(),
            comments: marker(),
            grader_output: marker(),
            score: String::new(),
            letter_grade: String::new(),
            late_days: String::new(),
        }
    }

    /// Builds the fallback record of a submission from what its sidecar file
    /// gives for `username`, `name` and `email`: `None` where the file is no
    /// valid table, `Some(None)` where the key is missing or not a string.
    pub fn from_sidecar(
        username: Option<Option<String>>,
        name: Option<Option<String>>,
        email: Option<Option<String>>,
    ) -> (r: Entry)
        ensures
            r@ == sidecar_record(lookup_view(username), lookup_view(name), lookup_view(email)),
    {
        if username.is_none() {
            Entry::parse_error()
        } else {
            Entry {
                username: field_from(username),
                permnum: String::new(),
                full_name: field_from(name),
                email: field_from(email),
                comments: String::new(),
                grader_output: String::new(),
                score: String::new(),
                letter_grade: String::new(),
                late_days: String::new(),
            }
        }
    }

    /// The record finalised for a submission: this one, with the submission's
    /// student id and grader output.
    pub fn with_result(self, id: String, output: String) -> (r: Entry)
        ensures
            r@ == merged(self@, id@, output@),
    {
        Entry { username: id, grader_output: output, ..self }
    }

    /// The record's fields in the column order of the roster.
    pub fn columns(&self) -> (r: Vec<String>)
        ensures
            r@.map_values(|s: String| s@) == columns_of(self@),
    {
        let mut r: Vec<String> = Vec::new();
        r.push(self.username.clone());
        r.push(self.permnum.clone());
        r.push(self.full_name.clone());
        r.push(self.email.clone());
        r.push(self.comments.clone());
        r.push(self.grader_output.clone());
        r.push(self.score.clone());
        r.push(self.letter_grade.clone());
        r.push(self.late_days.clone());
        assert(r@.map_values(|s: String| s@) =~= columns_of(self@));
        r
    }

    /// Reads a roster row: `None` unless it has exactly one value per column.
    pub fn from_columns(fields: Vec<String>) -> (r: Option<Entry>)
        ensures
            fields@.len() != COLUMNS ==> r is None,
            fields@.len() == COLUMNS ==> r is Some && columns_of(r->0@) == fields@.map_values(
                |s: String| s@,
            ),
    {
        if fields.len() != COLUMNS {
            return None;
        }
        let ghost f = fields@;
        let mut fields = fields;
        let late_days = fields.pop().unwrap();
        let letter_grade = fields.pop().unwrap();
        let score = fields.pop().unwrap();
        let grader_output = fields.pop().unwrap();
        let comments = fields.pop().unwrap();
        let email = fields.pop().unwrap();
        let full_name = fields.pop().unwrap();
        let permnum = fields.pop().unwrap();
        let username = fields.pop().unwrap();
        let e = Entry {
            username,
            permnum,
            full_name,
            email,
            comments,
            grader_output,
            score,
            letter_grade,
            late_days,
        };
        assert(columns_of(e@) =~= f.map_values(|s: String| s@));
        Some(e)
    }
}

} // verus!
