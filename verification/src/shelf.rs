//! What a run knows of a document while it writes to it: what each number
//! finds, where it leads, which numbers are taken, and which number was given
//! out last. Every step of a run is a step on this shelf, so that a whole run
//! can be stated as one value.

use vstd::prelude::*;
use crate::pdf::{
    Value,
    appended,
    content_stream,
    document_holds,
    document_home,
    document_max_id,
    document_objects,
    rewritten,
    shelved,
    with_content,
};

verus! {

/// The state of a document as far as a run reads and writes it.
pub struct Shelf {
    /// What each number finds.
    pub value: Map<(u32, u16), Value>,
    /// The number under which the object itself stands that a number finds.
    pub home: Map<(u32, u16), (u32, u16)>,
    /// The numbers under which an object stands.
    pub holds: Set<(u32, u16)>,
    /// The highest number given out.
    pub max_id: int,
}

/// The shelf of a document as it stands.
pub open spec fn shelf_of(doc: lopdf::Document) -> Shelf {
    Shelf {
        value: document_objects(doc),
        home: Map::new(
            |j: (u32, u16)| document_objects(doc).contains_key(j),
            |j: (u32, u16)| document_home(doc, j),
        ),
        holds: Set::new(|j: (u32, u16)| document_holds(doc, j)),
        max_id: document_max_id(doc) as int,
    }
}

/// Whether a document stands as a shelf says: every number on the shelf
/// finds in the document what the shelf has for it and leads where the shelf
/// says, the same numbers are taken, and the same number was given out last.
pub open spec fn reflects(doc: lopdf::Document, s: Shelf) -> bool {
    &&& document_max_id(doc) == s.max_id
    &&& forall|j: (u32, u16)| s.holds.contains(j) == #[trigger] document_holds(doc, j)
    &&& forall|j: (u32, u16)| #[trigger]
        s.value.contains_key(j) ==> {
            &&& document_objects(doc).contains_key(j)
            &&& document_objects(doc)[j] == s.value[j]
            &&& s.home.contains_key(j)
            &&& document_home(doc, j) == s.home[j]
        }
}

/// The number that is given out next.
pub open spec fn next_on(s: Shelf) -> (u32, u16) {
    ((s.max_id + 1) as u32, 0u16)
}

/// Whether one more object can be entered without harm: a number is left,
/// and nothing stands under the next one.
pub open spec fn room_on(s: Shelf) -> bool {
    s.max_id < u32::MAX && !s.holds.contains(next_on(s))
}

/// Whether the next number is new to the shelf: no number on it is that
/// number or leads to it.
pub open spec fn next_is_new(s: Shelf) -> bool {
    &&& !s.value.contains_key(next_on(s))
    &&& forall|j: (u32, u16)| #[trigger] s.value.contains_key(j) ==> s.home[j] != next_on(s)
}

/// The shelf after an object was entered under the next number.
pub open spec fn put(s: Shelf, v: Value) -> Shelf {
    Shelf {
        value: s.value.insert(next_on(s), v),
        home: s.home.insert(next_on(s), next_on(s)),
        holds: s.holds.insert(next_on(s)),
        max_id: s.max_id + 1,
    }
}

/// The shelf after the object that `id` finds was overwritten with `v`:
/// every number that leads to that object finds `v`.
pub open spec fn rewrite(s: Shelf, id: (u32, u16), v: Value) -> Shelf {
    Shelf {
        value: Map::new(
            |j: (u32, u16)| s.value.contains_key(j),
            |j: (u32, u16)|
                if s.home[j] == s.home[id] {
                    v
                } else {
                    s.value[j]
                },
        ),
        home: s.home,
        holds: s.holds,
        max_id: s.max_id,
    }
}

/// A document stands as its own shelf says.
pub proof fn lemma_own_shelf(doc: lopdf::Document)
    ensures
        reflects(doc, shelf_of(doc)),
{
}

/// Overwriting an object in the document is rewriting it on the shelf.
pub proof fn lemma_rewritten(
    before: lopdf::Document,
    after: lopdf::Document,
    id: (u32, u16),
    v: Value,
    s: Shelf,
)
    requires
        rewritten(before, after, id, v),
        reflects(before, s),
        s.value.contains_key(id),
    ensures
        reflects(after, rewrite(s, id, v)),
{
    let t = rewrite(s, id, v);
    assert forall|j: (u32, u16)| #[trigger] t.value.contains_key(j) implies {
        &&& document_objects(after).contains_key(j)
        &&& document_objects(after)[j] == t.value[j]
        &&& t.home.contains_key(j)
        &&& document_home(after, j) == t.home[j]
    } by {
        assert(s.value.contains_key(j));
        assert(document_objects(after).contains_key(j) == document_objects(before).contains_key(j));
        assert(document_home(after, j) == document_home(before, j));
    }
    assert forall|j: (u32, u16)| t.holds.contains(j) == #[trigger] document_holds(after, j) by {
        assert(document_holds(after, j) == document_holds(before, j));
    }
}

/// Entering an object in the document is putting it on the shelf.
pub proof fn lemma_shelved(before: lopdf::Document, after: lopdf::Document, v: Value, s: Shelf)
    requires
        shelved(before, after, v),
        reflects(before, s),
        0 <= s.max_id < u32::MAX,
    ensures
        reflects(after, put(s, v)),
{
    let t = put(s, v);
    assert forall|j: (u32, u16)| #[trigger] t.value.contains_key(j) implies {
        &&& document_objects(after).contains_key(j)
        &&& document_objects(after)[j] == t.value[j]
        &&& t.home.contains_key(j)
        &&& document_home(after, j) == t.home[j]
    } by {
        if j != next_on(s) {
            assert(s.value.contains_key(j));
            assert(document_objects(after).contains_key(j));
            assert(document_home(after, j) == document_home(before, j));
        }
    }
    assert forall|j: (u32, u16)| t.holds.contains(j) == #[trigger] document_holds(after, j) by {
        assert(document_holds(after, j) == (document_holds(before, j) || j == next_on(s)));
    }
}

/// Adding content to a page in the document is putting the stream on the
/// shelf and rewriting the page.
pub proof fn lemma_appended(
    before: lopdf::Document,
    after: lopdf::Document,
    page: (u32, u16),
    m: Map<Seq<u8>, Value>,
    content: Seq<u8>,
    s: Shelf,
)
    requires
        appended(before, after, page, m, content),
        reflects(before, s),
        s.value.contains_key(page),
        0 <= s.max_id < u32::MAX,
        next_is_new(s),
    ensures
        reflects(
            after,
            rewrite(
                put(s, content_stream(content)),
                page,
                Value::Dictionary(with_content(m, next_on(s))),
            ),
        ),
{
    let p = put(s, content_stream(content));
    let t = rewrite(p, page, Value::Dictionary(with_content(m, next_on(s))));
    assert(s.value.contains_key(page));
    assert(p.home[page] == s.home[page]);
    assert forall|j: (u32, u16)| #[trigger] t.value.contains_key(j) implies {
        &&& document_objects(after).contains_key(j)
        &&& document_objects(after)[j] == t.value[j]
        &&& t.home.contains_key(j)
        &&& document_home(after, j) == t.home[j]
    } by {
        if j != next_on(s) {
            assert(s.value.contains_key(j));
            assert(document_objects(after).contains_key(j));
            assert(document_home(after, j) == document_home(before, j));
        }
    }
    assert forall|j: (u32, u16)| t.holds.contains(j) == #[trigger] document_holds(after, j) by {
        assert(document_holds(after, j) == (document_holds(before, j) || j == next_on(s)));
    }
}

} // verus!
