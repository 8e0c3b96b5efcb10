//! A tracked document in its current publishable state.

use vstd::prelude::*;

use crate::author::{distinct_authors, Author, AuthorModel};
use crate::text::optional_text;
use crate::time::Timestamp;

verus! {

/// A document together with what its history says of its current content.
#[derive(Debug)]
pub struct Post {
    /// The path under which the rendered document is published.
    pub path: String,
    /// When the newest surviving line was changed.
    pub last_modified: Timestamp,
    /// When the oldest surviving line was changed.
    pub created: Timestamp,
    /// Everyone who changed a surviving line, each once, in the order in
    /// which they first appear.
    pub authors: Vec<Author>,
    /// The display name of the document.
    pub title: String,
    /// A stable identity, derived from the output path.
    pub id: String,
    /// The rendered preview; absent when previews are disabled.
    pub content: Option<String>,
}

/// What a [`Post`] stands for.
pub struct PostModel {
    pub path: Seq<char>,
    pub last_modified: Timestamp,
    pub created: Timestamp,
    pub authors: Seq<AuthorModel>,
    pub title: Seq<char>,
    pub id: Seq<char>,
    pub content: Option<Seq<char>>,
}

impl View for Post {
    type V = PostModel;

    open spec fn view(&self) -> PostModel {
        PostModel {
            path: self.path@,
            last_modified: self.last_modified,
            created: self.created,
            authors: self.authors.deep_view(),
            title: self.title@,
            id: self.id@,
            content: optional_text(self.content),
        }
    }
}

impl DeepView for Post {
    type V = PostModel;

    open spec fn deep_view(&self) -> PostModel {
        self@
    }
}

impl Post {
    /// The invariant of a post: its authors are pairwise distinct.
    pub open spec fn well_formed(&self) -> bool {
        distinct_authors(self@.authors)
    }
}

} // verus!
