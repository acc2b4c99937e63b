use vstd::prelude::*;

use crate::text::{chars_of, matches_at, push_all, string_of};

verus! {

/// The text that marks an insert statement.
pub open spec fn insert_marker() -> Seq<char> {
    seq!['i', 'n', 's', 'e', 'r', 't', ' ', 'i', 'n', 't', 'o']
}

/// What an insert statement gets appended so that it returns the new row's id.
pub open spec fn returning_suffix() -> Seq<char> {
    seq![' ', 'r', 'e', 't', 'u', 'r', 'n', 'i', 'n', 'g', ' ', 'i', 'd']
}

/// Whether `p` occurs in `t`.
pub open spec fn occurs_in(p: Seq<char>, t: Seq<char>) -> bool {
    exists|i: int| 0 <= i && i + p.len() <= t.len() && #[trigger] t.subrange(i, i + p.len()) == p
}

/// Whether `p` occurs in `t`.
fn contains_text(t: &Vec<char>, p: &Vec<char>) -> (r: bool)
    ensures
        r == occurs_in(p@, t@),
{
    let mut i: usize = 0;
    while i < t.len()
        invariant
            i <= t@.len(),
            forall|j: int| 0 <= j < i ==> !(j + p@.len() <= t@.len() && #[trigger] t@.subrange(j, j + p@.len()) == p@),
        decreases t.len() - i,
    {
        if matches_at(t, i, p) {
            let ghost w = i as int;
            assert(t@.subrange(w, w + p@.len()) == p@);
            assert(occurs_in(p@, t@));
            return true;
        }
        i = i + 1;
    }
    if p.len() == 0 {
        let ghost w = t@.len() as int;
        assert(t@.subrange(w, w + p@.len()) =~= p@);
        assert(occurs_in(p@, t@));
        return true;
    }
    false
}

/// The database hook that has every insert statement return the id of the
/// row it made.
#[derive(Debug)]
pub struct ReturningIdPlugin {}

impl ReturningIdPlugin {
    /// The statement to run in place of `sql`: for an insert statement, the
    /// same statement asking for the new row's id; `None` for any other.
    pub fn rewrite_sql(&self, sql: &str) -> (r: Option<String>)
        ensures
            r matches Some(s) ==> s@ == sql@ + returning_suffix(),
            r is Some == occurs_in(insert_marker(), sql@),
    {
        let t = chars_of(sql);
        let marker: Vec<char> = vec!['i', 'n', 's', 'e', 'r', 't', ' ', 'i', 'n', 't', 'o'];
        assert(marker@ =~= insert_marker());
        if !contains_text(&t, &marker) {
            return None;
        }
        let suffix: Vec<char> = vec![' ', 'r', 'e', 't', 'u', 'r', 'n', 'i', 'n', 'g', ' ', 'i', 'd'];
        assert(suffix@ =~= returning_suffix());
        let mut out = t;
        push_all(&mut out, &suffix);
        Some(string_of(&out))
    }
}

} // verus!
