//! Contributors, and the attribution records they are read from.

use vstd::prelude::*;
use vstd::std_specs::cmp::PartialEqSpecImpl;

use crate::text::{clone_optional_text, optional_text, same_optional_text};
use crate::time::Timestamp;

verus! {

/// The identity of a contributor: a name and, where known, an email address.
/// Two authors are the same when both agree.
#[derive(Debug, Hash)]
pub struct Author {
    pub name: String,
    pub email: Option<String>,
}

/// What an [`Author`] stands for: the name, and the email address if there is
/// one.
pub type AuthorModel = (Seq<char>, Option<Seq<char>>);

impl View for Author {
    type V = AuthorModel;

    open spec fn view(&self) -> AuthorModel {
        (self.name@, optional_text(self.email))
    }
}

impl DeepView for Author {
    type V = AuthorModel;

    open spec fn deep_view(&self) -> AuthorModel {
        self@
    }
}

impl Clone for Author {
    fn clone(&self) -> (r: Self)
        ensures
            r == *self,
    {
        Author { name: self.name.clone(), email: clone_optional_text(&self.email) }
    }
}

impl PartialEq for Author {
    fn eq(&self, other: &Author) -> (r: bool) {
        self.name == other.name && same_optional_text(&self.email, &other.email)
    }
}

impl PartialEqSpecImpl for Author {
    open spec fn obeys_eq_spec() -> bool {
        true
    }

    open spec fn eq_spec(&self, other: &Author) -> bool {
        self@ == other@
    }
}

impl Eq for Author {

}

/// One record of a file's line-by-line attribution: who last changed a run of
/// lines of the current content, and when. The name is absent where the
/// history holds one that is not text.
#[derive(Debug)]
pub struct BlameRecord {
    pub name: Option<String>,
    pub email: Option<String>,
    pub when: Timestamp,
}

impl BlameRecord {
    /// The author that the record names, if it names one.
    pub open spec fn author(&self) -> Option<AuthorModel> {
        match self.name {
            Some(name) => Some((name@, optional_text(self.email))),
            None => None,
        }
    }
}

/// No author occurs twice.
pub open spec fn distinct_authors(authors: Seq<AuthorModel>) -> bool {
    authors.no_duplicates()
}

/// The authors that the records name, each once, in the order in which they
/// first appear.
pub open spec fn authors_of(records: Seq<BlameRecord>) -> Seq<AuthorModel>
    decreases records.len(),
{
    if records.len() == 0 {
        Seq::empty()
    } else {
        let before = authors_of(records.drop_last());
        match records.last().author() {
            Some(a) => if before.contains(a) {
                before
            } else {
                before.push(a)
            },
            None => before,
        }
    }
}

/// However many records name an author, the author is counted once: the
/// authors of a sequence of records are pairwise distinct, and they are
/// exactly the authors that some record names.
pub proof fn lemma_authors_of(records: Seq<BlameRecord>)
    ensures
        distinct_authors(authors_of(records)),
        authors_of(records).len() <= records.len(),
        forall|a: AuthorModel| #[trigger]
            authors_of(records).contains(a) <==> exists|i: int|
                0 <= i < records.len() && #[trigger] records[i].author() == Some(a),
    decreases records.len(),
{
    if records.len() > 0 {
        let init = records.drop_last();
        let before = authors_of(init);
        let after = authors_of(records);
        lemma_authors_of(init);
        assert forall|a: AuthorModel| #[trigger]
            after.contains(a) <==> exists|i: int|
                0 <= i < records.len() && #[trigger] records[i].author() == Some(a) by {
            if after.contains(a) {
                let k = choose|k: int| 0 <= k < after.len() && after[k] == a;
                if k < before.len() {
                    assert(before[k] == a);
                    assert(before.contains(a));
                    let i = choose|i: int|
                        0 <= i < init.len() && #[trigger] init[i].author() == Some(a);
                    assert(records[i].author() == Some(a));
                } else {
                    assert(records[records.len() - 1].author() == Some(a));
                }
            }
            if exists|i: int| 0 <= i < records.len() && #[trigger] records[i].author() == Some(a) {
                let i = choose|i: int|
                    0 <= i < records.len() && #[trigger] records[i].author() == Some(a);
                if i < init.len() {
                    assert(init[i].author() == Some(a));
                    assert(before.contains(a));
                    let k = choose|k: int| 0 <= k < before.len() && before[k] == a;
                    assert(after[k] == a);
                } else {
                    if !before.contains(a) {
                        assert(after[before.len() as int] == a);
                    } else {
                        let k = choose|k: int| 0 <= k < before.len() && before[k] == a;
                        assert(after[k] == a);
                    }
                }
            }
        }
    }
}

/// Two records that name the same author contribute one author between
/// them, whatever else the records hold.
pub proof fn lemma_author_counted_once(records: Seq<BlameRecord>, i: int, j: int)
    requires
        0 <= i < records.len(),
        0 <= j < records.len(),
        records[i].author() is Some,
        records[i].author() == records[j].author(),
    ensures
        authors_of(records).to_multiset().count(records[i].author()->0) == 1,
{
    let authors = authors_of(records);
    let a = records[i].author()->0;
    lemma_authors_of(records);
    assert(authors.contains(a));
    authors.to_multiset_ensures();
    authors.lemma_multiset_has_no_duplicates();
}

/// Whether `authors` holds the author with this name and email.
fn holds_author(authors: &Vec<Author>, name: &String, email: &Option<String>) -> (r: bool)
    ensures
        r == authors.deep_view().contains((name@, optional_text(*email))),
{
    let ghost wanted = (name@, optional_text(*email));
    let mut i: usize = 0;
    while i < authors.len()
        invariant
            i <= authors.len(),
            wanted == (name@, optional_text(*email)),
            forall|k: int| 0 <= k < i ==> authors.deep_view()[k] != wanted,
        decreases authors.len() - i,
    {
        if authors[i].name == *name && same_optional_text(&authors[i].email, email) {
            assert(authors.deep_view()[i as int] == wanted);
            return true;
        }
        i += 1;
    }
    false
}

/// The authors that the records name, each once, in the order in which they
/// first appear.
pub fn collect_authors(records: &Vec<BlameRecord>) -> (authors: Vec<Author>)
    ensures
        authors.deep_view() == authors_of(records@),
        distinct_authors(authors.deep_view()),
{
    let mut authors: Vec<Author> = Vec::new();
    let mut i: usize = 0;
    assert(records@.take(0) =~= Seq::<BlameRecord>::empty());
    assert(authors.deep_view() =~= Seq::<AuthorModel>::empty());
    while i < records.len()
        invariant
            i <= records.len(),
            authors.deep_view() == authors_of(records@.take(i as int)),
        decreases records.len() - i,
    {
        let ghost before = authors.deep_view();
        assert(records@.take(i + 1).drop_last() =~= records@.take(i as int));
        match &records[i].name {
            Some(name) => {
                if !holds_author(&authors, name, &records[i].email) {
                    let author = Author {
                        name: name.clone(),
                        email: clone_optional_text(&records[i].email),
                    };
                    authors.push(author);
                    assert(authors.deep_view() =~= before.push(author@));
                }
            },
            None => {},
        }
        i += 1;
    }
    assert(records@.take(records.len() as int) =~= records@);
    proof {
        lemma_authors_of(records@);
    }
    authors
}

} // verus!
