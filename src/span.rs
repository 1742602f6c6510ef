//! The spans the library reads: one timed operation of a trace, with its
//! tags.

use vstd::prelude::*;
use crate::text::{opt_view, str_eq};

verus! {

/// One span of a trace, as far as trace processing reads it.
///
/// `tags` holds key/value pairs; where a key occurs more than once, the
/// first pair counts.
pub struct Span {
    pub trace_id: String,
    pub id: String,
    pub parent_id: Option<String>,
    pub name: Option<String>,
    pub service_name: Option<String>,
    pub timestamp: Option<i64>,
    pub duration: Option<i64>,
    pub tags: Vec<(String, String)>,
}

/// The value of the first tag whose key is `key`.
pub open spec fn tag_value(tags: Seq<(String, String)>, key: Seq<char>) -> Option<Seq<char>>
    decreases tags.len(),
{
    if tags.len() == 0 {
        None
    } else if tags[0].0@ == key {
        Some(tags[0].1@)
    } else {
        tag_value(tags.drop_first(), key)
    }
}

/// Looks a tag up by its exact key.
pub fn find_tag(tags: &Vec<(String, String)>, key: &str) -> (r: Option<String>)
    ensures
        opt_view(r) == tag_value(tags@, key@),
{
    let mut i: usize = 0;
    assert(tags@.skip(0) =~= tags@);
    while i < tags.len()
        invariant
            i <= tags@.len(),
            tag_value(tags@, key@) == tag_value(tags@.skip(i as int), key@),
        decreases tags@.len() - i,
    {
        assert(tags@.skip(i as int)[0] == tags@[i as int]);
        if str_eq(tags[i].0.as_str(), key) {
            return Some(tags[i].1.clone());
        }
        assert(tags@.skip(i as int).drop_first() =~= tags@.skip(i + 1));
        i = i + 1;
    }
    None
}

impl Span {
    /// Holds for a root span: one without a parent.
    pub open spec fn is_root(&self) -> bool {
        self.parent_id is None
    }

    /// The value of the tag with key `key`.
    pub fn tag(&self, key: &str) -> (r: Option<String>)
        ensures
            opt_view(r) == tag_value(self.tags@, key@),
    {
        find_tag(&self.tags, key)
    }
}

/// The index of the first root span.
pub fn find_root(spans: &Vec<Span>) -> (r: Option<usize>)
    ensures
        match r {
            Some(i) => i < spans@.len() && spans@[i as int].is_root() && forall|j: int|
                0 <= j < i ==> !(#[trigger] spans@[j]).is_root(),
            None => forall|j: int| 0 <= j < spans@.len() ==> !(#[trigger] spans@[j]).is_root(),
        },
{
    let mut i: usize = 0;
    while i < spans.len()
        invariant
            i <= spans@.len(),
            forall|j: int| 0 <= j < i ==> !(#[trigger] spans@[j]).is_root(),
        decreases spans@.len() - i,
    {
        if spans[i].parent_id.is_none() {
            return Some(i);
        }
        i = i + 1;
    }
    None
}

} // verus!
