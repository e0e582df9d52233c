//! The roster of known students, loaded from a CSV template and keyed by
//! user name.

use vstd::prelude::*;
use crate::record::{Entry, EntryModel, COLUMNS, columns_of};

verus! {

/// Whether no two records of `s` share a user name.
pub open spec fn unique_ids(s: Seq<EntryModel>) -> bool {
    forall|i: int, j: int|
        0 <= i < s.len() && 0 <= j < s.len() && i != j ==> s[i].username != s[j].username
}

/// Whether some record of `s` has the user name `id`.
pub open spec fn has_id(s: Seq<EntryModel>, id: Seq<char>) -> bool {
    exists|i: int| 0 <= i < s.len() && s[i].username == id
}

/// The position of the record with user name `id` in `s`, where there is one.
pub open spec fn index_of(s: Seq<EntryModel>, id: Seq<char>) -> int {
    choose|i: int| 0 <= i < s.len() && s[i].username == id
}

/// The roster after adding `e`: it takes the place of the record with the
/// same user name, or else goes last.
pub open spec fn roster_insert(s: Seq<EntryModel>, e: EntryModel) -> Seq<EntryModel> {
    if has_id(s, e.username) {
        s.update(index_of(s, e.username), e)
    } else {
        s.push(e)
    }
}

/// The roster built by adding the records of `rs` in order.
pub open spec fn roster_of(rs: Seq<EntryModel>) -> Seq<EntryModel>
    decreases rs.len(),
{
    if rs.len() == 0 {
        Seq::<EntryModel>::empty()
    } else {
        roster_insert(roster_of(rs.drop_last()), rs.last())
    }
}

/// The record whose fields are the columns `c`, in the roster's column order.
pub open spec fn entry_of_columns(c: Seq<Seq<char>>) -> EntryModel {
    EntryModel {
        username: c[0],
        permnum: c[1],
        full_name: c[2],
        email: c[3],
        comments: c[4],
        grader_output: c[5],
        score: c[6],
        letter_grade: c[7],
        late_days: c[8],
    }
}

/// Whether every row of `rows` has one value per column.
pub open spec fn rows_complete(rows: Seq<Seq<Seq<char>>>) -> bool {
    forall|i: int| 0 <= i < rows.len() ==> rows[i].len() == COLUMNS
}

/// The roster that the complete rows `rows` describe.
pub open spec fn roster_of_rows(rows: Seq<Seq<Seq<char>>>) -> Seq<EntryModel> {
    roster_of(rows.map_values(|c: Seq<Seq<char>>| entry_of_columns(c)))
}

/// The view of rows of strings.
pub open spec fn rows_view(rows: Seq<Vec<String>>) -> Seq<Seq<Seq<char>>> {
    rows.map_values(|row: Vec<String>| row@.map_values(|s: String| s@))
}

/// What the csv crate reads from `text`: the records after the header row,
/// each as its fields, or `None` where the text is no valid CSV.
pub uninterp spec fn csv_records_of(text: Seq<char>) -> Option<Seq<Seq<Seq<char>>>>;

/// Relies on csv's `Reader::from_reader` and `Reader::records` (header row
/// expected, rows of equal length) to split `text` into records and fields.
#[verifier::external_body]
fn csv_records(text: &str) -> (r: Option<Vec<Vec<String>>>)
    ensures
        r matches Some(v) ==> csv_records_of(text@) == Some(rows_view(v@)),
        r is None ==> csv_records_of(text@) is None,
{
    let mut reader = csv::Reader::from_reader(text.as_bytes());
    let rows: Result<Vec<Vec<String>>, csv::Error> = reader
        .records()
        .map(|rec| rec.map(|rec| rec.iter().map(String::from).collect()))
        .collect();
    rows.ok()
}

/// Why a template could not be loaded.
#[derive(Debug, PartialEq, Eq, Structural)]
pub enum TemplateError {
    /// The text is not valid CSV.
    Unreadable,
    /// The row at this position (header not counted) does not have one value
    /// per column.
    BadRow(usize),
}

/// The roster of known students. No two records share a user name; records
/// keep the order in which their user names first appeared.
pub struct Registry {
    entries: Vec<Entry>,
}

impl View for Registry {
    type V = Seq<EntryModel>;

    closed spec fn view(&self) -> Seq<EntryModel> {
        self.entries@.map_values(|e: Entry| e@)
    }
}

proof fn lemma_unique_position(s: Seq<EntryModel>, i: int, id: Seq<char>)
    requires
        unique_ids(s),
        0 <= i < s.len(),
        s[i].username == id,
    ensures
        has_id(s, id),
        index_of(s, id) == i,
{
    assert(has_id(s, id));
}

impl Registry {
    /// Whether no two records share a user name.
    pub open spec fn wf(&self) -> bool {
        unique_ids(self@)
    }

    /// An empty roster, used when no template is given.
    pub fn new() -> (r: Registry)
        ensures
            r@ == Seq::<EntryModel>::empty(),
            r.wf(),
    {
        let r = Registry { entries: Vec::new() };
        assert(r@ =~= Seq::<EntryModel>::empty());
        r
    }

    /// The number of records.
    pub fn len(&self) -> (r: usize)
        ensures
            r == self@.len(),
    {
        self.entries.len()
    }

    fn position(&self, id: &String) -> (r: Option<usize>)
        requires
            self.wf(),
        ensures
            r is None <==> !has_id(self@, id@),
            r matches Some(i) ==> i < self@.len() && i == index_of(self@, id@),
    {
        let mut i: usize = 0;
        while i < self.entries.len()
            invariant
                i <= self.entries@.len(),
                unique_ids(self@),
                forall|j: int| 0 <= j < i ==> self@[j].username != id@,
            decreases self.entries@.len() - i,
        {
            if self.entries[i].username == *id {
                proof {
                    lemma_unique_position(self@, i as int, id@);
                }
                return Some(i);
            }
            i = i + 1;
        }
        None
    }

    /// Whether a record has the user name `id`.
    pub fn contains(&self, id: &String) -> (r: bool)
        requires
            self.wf(),
        ensures
            r == has_id(self@, id@),
    {
        self.position(id).is_some()
    }

    /// Adds `e`, in place of the record with the same user name if there is one.
    pub fn insert(&mut self, e: Entry)
        requires
            old(self).wf(),
        ensures
            final(self).wf(),
            final(self)@ == roster_insert(old(self)@, e@),
    {
        let ghost ev = e@;
        let ghost s = self@;
        match self.position(&e.username) {
            Some(i) => {
                self.entries.remove(i);
                self.entries.insert(i, e);
                assert(self@ =~= s.update(i as int, ev));
            },
            None => {
                self.entries.push(e);
                assert(self@ =~= s.push(ev));
            },
        }
    }

    /// Takes out the record with user name `id`, if there is one.
    pub fn remove(&mut self, id: &String) -> (r: Option<Entry>)
        requires
            old(self).wf(),
        ensures
            final(self).wf(),
            !has_id(old(self)@, id@) ==> r is None && final(self)@ == old(self)@,
            has_id(old(self)@, id@) ==> r is Some && r->0@ == old(self)@[index_of(old(self)@, id@)]
                && final(self)@ == old(self)@.remove(index_of(old(self)@, id@)),
    {
        let ghost s = self@;
        match self.position(id) {
            Some(i) => {
                let e = self.entries.remove(i);
                assert(self@ =~= s.remove(i as int));
                Some(e)
            },
            None => None,
        }
    }

    /// The records, in roster order.
    pub fn into_entries(self) -> (r: Vec<Entry>)
        ensures
            r@.map_values(|e: Entry| e@) == self@,
    {
        self.entries
    }

    /// The roster of the template rows `rows`, or the position of the first
    /// row that does not have one value per column.
    pub fn from_rows(rows: Vec<Vec<String>>) -> (r: Result<Registry, TemplateError>)
        ensures
            rows_complete(rows_view(rows@)) ==> (r matches Ok(reg) && reg.wf() && reg@
                == roster_of_rows(rows_view(rows@))),
            !rows_complete(rows_view(rows@)) ==> (r matches Err(TemplateError::BadRow(i)) && i
                < rows@.len() && rows@[i as int]@.len() != COLUMNS && rows_complete(
                rows_view(rows@.take(i as int)),
            )),
    {
        let ghost rv = rows_view(rows@);
        let mut i: usize = 0;
        while i < rows.len()
            invariant
                i <= rows@.len(),
                rv == rows_view(rows@),
                forall|j: int| 0 <= j < i ==> rows@[j]@.len() == COLUMNS,
            decreases rows@.len() - i,
        {
            if rows[i].len() != COLUMNS {
                proof {
                    assert(rows_complete(rows_view(rows@.take(i as int))));
                    assert(rv[i as int].len() != COLUMNS);
                }
                return Err(TemplateError::BadRow(i));
            }
            i = i + 1;
        }
        assert(rows_complete(rv));
        let ghost ms = rv.map_values(|c: Seq<Seq<char>>| entry_of_columns(c));
        let ghost n = rows@.len();
        let ghost orig = rows@;
        let mut reg = Registry::new();
        let total: usize = rows.len();
        let mut rest = rows;
        let mut k: usize = 0;
        assert(ms.take(0) =~= Seq::<EntryModel>::empty());
        while rest.len() > 0
            invariant
                k <= n,
                n == orig.len(),
                n == total,
                rest@ == orig.subrange(k as int, n as int),
                rv == rows_view(orig),
                rows_complete(rv),
                ms == rv.map_values(|c: Seq<Seq<char>>| entry_of_columns(c)),
                reg.wf(),
                reg@ == roster_of(ms.take(k as int)),
            decreases rest@.len(),
        {
            let row = rest.remove(0);
            assert(row == orig[k as int]);
            assert(rv[k as int] == row@.map_values(|s: String| s@));
            let e = Entry::from_columns(row);
            let e = e.unwrap();
            assert(e@ =~= ms[k as int]) by {
                assert(columns_of(e@) == rv[k as int]);
                assert(columns_of(e@)[0] == e@.username);
            }
            reg.insert(e);
            proof {
                assert(ms.take(k + 1).drop_last() =~= ms.take(k as int));
                assert(ms.take(k + 1).last() == ms[k as int]);
            }
            k = k + 1;
            assert(rest@ =~= orig.subrange(k as int, n as int));
        }
        assert(ms.take(n as int) =~= ms);
        Ok(reg)
    }
}

/// Loads the roster from the text of a CSV template: a header row, then one
/// row per student in the roster's column order.
pub fn load_template(text: &str) -> (r: Result<Registry, TemplateError>)
    ensures
        csv_records_of(text@) is None ==> r == Err::<Registry, TemplateError>(
            TemplateError::Unreadable,
        ),
        csv_records_of(text@) matches Some(rows) ==> (rows_complete(rows) ==> (r matches Ok(
            reg,
        ) && reg.wf() && reg@ == roster_of_rows(rows))),
        csv_records_of(text@) matches Some(rows) ==> (!rows_complete(rows) ==> (r matches Err(
            TemplateError::BadRow(i),
        ) && i < rows.len() && rows[i as int].len() != COLUMNS && rows_complete(
            rows.take(i as int),
        ))),
{
    match csv_records(text) {
        None => Err(TemplateError::Unreadable),
        Some(rows) => {
            let ghost v = rows@;
            let r = Registry::from_rows(rows);
            proof {
                if !rows_complete(rows_view(v)) {
                    if let Err(TemplateError::BadRow(i)) = r {
                        assert(rows_view(v.take(i as int)) =~= rows_view(v).take(i as int));
                    }
                }
            }
            r
        },
    }
}

} // verus!
