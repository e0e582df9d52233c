//! Finding submissions in a directory listing, and naming their students.

use vstd::prelude::*;
use vstd::string::*;

verus! {

/// The student id of a submission directory: its name up to the first `-`.
pub open spec fn derived_student_id(name: Seq<char>) -> Seq<char>
    decreases name.len(),
{
    if name.len() == 0 || name[0] == '-' {
        Seq::<char>::empty()
    } else {
        seq![name[0]] + derived_student_id(name.drop_first())
    }
}

/// Derives the student id from a submission directory's name.
pub fn clean_username(path: &str) -> (r: String)
    ensures
        r@ == derived_student_id(path@),
{
    let ghost s = path@;
    let n: usize = path.unicode_len();
    let mut k: usize = 0;
    let mut found = false;
    assert(s.take(0) + s.skip(0) =~= s);
    assert(derived_student_id(s) == s.take(0) + derived_student_id(s.skip(0))) by {
        assert(s.skip(0) =~= s);
        assert(s.take(0) + derived_student_id(s) =~= derived_student_id(s));
    }
    for c in it: path.chars()
        invariant
            it.seq() == s,
            k <= it.index(),
            !found ==> k == it.index(),
            k <= s.len(),
            n == s.len(),
            derived_student_id(s) == s.take(k as int) + derived_student_id(s.skip(k as int)),
            found ==> k < s.len() && s[k as int] == '-',
            !found ==> forall|j: int| 0 <= j < k ==> s[j] != '-',
    {
        if !found {
            assert(c == s[k as int]);
            if c == '-' {
                found = true;
            } else {
                proof {
                    lemma_step(s, k as int);
                }
                k = k + 1;
            }
        }
    }
    proof {
        if found {
            assert(s.skip(k as int).len() > 0);
            assert(s.skip(k as int)[0] == '-');
        } else {
            assert(s.skip(k as int).len() == 0);
        }
        assert(s.take(k as int) + Seq::<char>::empty() =~= s.take(k as int));
    }
    let prefix = path.substring_char(0, k);
    String::from_str(prefix)
}

proof fn lemma_step(s: Seq<char>, k: int)
    requires
        0 <= k < s.len(),
        s[k] != '-',
    ensures
        s.take(k) + derived_student_id(s.skip(k)) == s.take(k + 1) + derived_student_id(s.skip(k + 1)),
{
    let t = s.skip(k);
    assert(t.drop_first() =~= s.skip(k + 1));
    assert(s.take(k + 1) =~= s.take(k) + seq![s[k]]);
    assert(s.take(k) + (seq![s[k]] + derived_student_id(s.skip(k + 1))) =~= s.take(k + 1) + derived_student_id(s.skip(k + 1)));
}


/// Whether a thing names a directory.
pub trait IsDir {
    fn is_dir(&self) -> bool;
}

/// One child of the working root, as listing it shows it.
#[derive(Clone, Debug)]
pub struct ListingEntry {
    pub name: String,
    pub directory: bool,
}

impl IsDir for ListingEntry {
    fn is_dir(&self) -> bool {
        self.directory
    }
}

/// One submission to grade: its directory's name and its student id.
#[derive(Clone, Debug, PartialEq, Eq)]
pub struct SubmissionJob {
    pub directory: String,
    pub student_id: String,
}

/// The names of the directories of `l`, in listing order.
pub open spec fn directory_names(l: Seq<ListingEntry>) -> Seq<Seq<char>>
    decreases l.len(),
{
    if l.len() == 0 {
        Seq::<Seq<char>>::empty()
    } else if l.last().directory {
        directory_names(l.drop_last()).push(l.last().name@)
    } else {
        directory_names(l.drop_last())
    }
}

/// The submissions of a working root: one per directory of its listing, in
/// listing order; other entries are skipped.
pub fn find_submissions(listing: &Vec<ListingEntry>) -> (r: Vec<SubmissionJob>)
    ensures
        r@.len() == directory_names(listing@).len(),
        forall|i: int|
            0 <= i < r@.len() ==> r@[i].directory@ == directory_names(listing@)[i]
                && r@[i].student_id@ == derived_student_id(directory_names(listing@)[i]),
{
    let mut r: Vec<SubmissionJob> = Vec::new();
    let mut i: usize = 0;
    while i < listing.len()
        invariant
            i <= listing@.len(),
            r@.len() == directory_names(listing@.take(i as int)).len(),
            forall|j: int|
                0 <= j < r@.len() ==> r@[j].directory@ == directory_names(listing@.take(i as int))[j]
                    && r@[j].student_id@ == derived_student_id(
                    directory_names(listing@.take(i as int))[j],
                ),
        decreases listing@.len() - i,
    {
        let ghost t = listing@.take(i + 1);
        assert(t.drop_last() =~= listing@.take(i as int));
        assert(t.last() == listing@[i as int]);
        if listing[i].directory {
            let name = listing[i].name.clone();
            let id = clean_username(name.as_str());
            r.push(SubmissionJob { directory: name, student_id: id });
        }
        i = i + 1;
    }
    assert(listing@.take(listing@.len() as int) =~= listing@);
    r
}

} // verus!
