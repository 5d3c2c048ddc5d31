//! The page injector and the run over a document: the watermark is entered
//! once as a reusable resource, and every page gets the instances that the
//! grid planner gives it. Whether a page can be written to is decided by
//! reading; a page that cannot is skipped and not touched, and the pages
//! after it are treated all the same. What a run does to a document is stated
//! as one value, the shelf after the last page.

use vstd::prelude::*;
use crate::font::{read_glyphs, read_height, usable_height};
use crate::grid::{
    Config,
    Lattice,
    Mesh,
    PageGeometry,
    PlanError,
    lattice,
    lattice_ops,
    measure_lattice,
    plan_error,
};
use crate::instruction::{Op, draws};
use crate::outline::{FontScale, Glyph};
use crate::page::{
    PageError,
    add_xobject_to_page,
    check_registration,
    geometry_of,
    page_geometry,
    registered,
    registration_error,
    slot,
    with_resource,
};
use crate::pdf::{
    RESOURCES,
    Shape,
    Value,
    XOBJECT,
    add_stream,
    append_content,
    appended,
    classify,
    content_stream,
    dictionary_entries,
    document_holds,
    document_home,
    document_max_id,
    document_objects,
    document_pages,
    find_object,
    has_room,
    holds_object,
    max_object_id,
    new_stream,
    next_id,
    page_ids,
    with_content,
};
use crate::render::{content_text, render, resource_name, resource_name_text};
use crate::shelf::{
    Shelf,
    lemma_appended,
    lemma_own_shelf,
    lemma_rewritten,
    lemma_shelved,
    next_is_new,
    next_on,
    put,
    reflects,
    rewrite,
    room_on,
    shelf_of,
};
use crate::typeset::{lemma_width_of_read_glyphs, typeset_width};
use crate::units::EXTENT_LIMIT;
use crate::vectorizer::{measure_width, text_width, vectorize, vectorized};

verus! {

/// The number of the reusable resource that holds the watermark.
pub const WATERMARK_RESOURCE: u32 = 1;

/// What became of a page.
#[derive(Clone, Copy, Debug, PartialEq, Eq, Structural)]
pub enum PageOutcome {
    /// The page draws the watermark this many times.
    Watermarked { instances: usize },
    /// The page was left out, for the reason given.
    Skipped(PageError),
}

/// What became of one page of a run.
#[derive(Clone, Copy, Debug, PartialEq, Eq)]
pub struct PageRecord {
    /// The page number, counted from one.
    pub number: usize,
    /// The object number of the page.
    pub page: (u32, u16),
    pub outcome: PageOutcome,
}

/// A page as it was found before anything was written: its geometry, the
/// lattice that was measured for it, and what stands in the way of writing to
/// it, if anything does.
#[derive(Clone, Copy, Debug, PartialEq, Eq)]
pub struct PageSurvey {
    /// The page number, counted from one.
    pub number: usize,
    /// The object number of the page.
    pub page: (u32, u16),
    pub geometry: PageGeometry,
    pub lattice: Mesh,
    pub obstacle: Option<PageError>,
}

/// Why a run ends without a result.
#[derive(Clone, Copy, Debug, PartialEq, Eq, Structural)]
pub enum RunError {
    /// A page could not be planned.
    Plan(PlanError),
    /// The document has no room for the reusable resource.
    DocumentFull,
    /// The font has no height that text could be set at.
    FontUnusable,
}

/// The turn of one page in a run: what a survey holds of it, the lattice in
/// plain numbers.
pub struct Turn {
    pub number: nat,
    pub page: (u32, u16),
    pub obstacle: Option<PageError>,
    pub lattice: Lattice,
}

/// The turn that a surveyed page gets.
pub open spec fn turn_of(p: PageSurvey) -> Turn {
    Turn { number: p.number as nat, page: p.page, obstacle: p.obstacle, lattice: p.lattice@ }
}

/// Whether a page object can be written to: it is a dictionary whose
/// resources and drawable resources are dictionaries of its own, where it has
/// any.
pub open spec fn writable(v: Value) -> bool {
    &&& v matches Value::Dictionary(m)
    &&& slot(m, RESOURCES@) matches Some(resources)
    &&& slot(resources, XOBJECT@) is Some
}

/// What stands in the way of writing to a page, as far as the page itself
/// goes: why it cannot take the entry for the resource, or that it takes no
/// content because it is no dictionary.
pub open spec fn writing_obstacle(objects: Map<(u32, u16), Value>, page: (u32, u16)) -> Option<
    PageError,
> {
    match registration_error(objects, page) {
        Some(e) => Some(e),
        None => if objects[page] is Dictionary {
            None
        } else {
            Some(PageError::AppendRejected)
        },
    }
}

/// Why a page cannot be injected, if it cannot: what stands in the way of
/// writing to it, or that the document has no room.
pub open spec fn injection_error(objects: Map<(u32, u16), Value>, page: (u32, u16), room: bool) -> Option<
    PageError,
> {
    match writing_obstacle(objects, page) {
        Some(e) => Some(e),
        None => if room {
            None
        } else {
            Some(PageError::DocumentFull)
        },
    }
}

/// A page after its injection: it names, after the content streams that it
/// had, the new one under `stream`, and knows the resource under its name.
pub open spec fn page_after(
    m: Map<Seq<u8>, Value>,
    stream: (u32, u16),
    name: Seq<u8>,
    resource: (u32, u16),
) -> Value {
    Value::Dictionary(with_resource(with_content(m, stream), name, resource))
}

/// The shelf after the injection of a page that stands on it: the content
/// stands as a new stream under the next number, and the page, under every
/// number that leads to it, is the page after its injection.
pub open spec fn injected(s: Shelf, page: (u32, u16), name: Seq<u8>, resource: (u32, u16), content: Seq<u8>) -> Shelf {
    rewrite(
        put(s, content_stream(content)),
        page,
        page_after(s.value[page]->Dictionary_0, next_on(s), name, resource),
    )
}

/// The instances of a turn as the text of a content stream.
pub open spec fn plan_text(t: Turn, handle: u32) -> Seq<u8> {
    content_text(lattice_ops(t.lattice, handle), lattice_ops(t.lattice, handle).len())
}

/// Why a page is skipped when its turn comes, if it is: what stood in its
/// way at the survey, or that the document has no room left.
pub open spec fn turn_error(s: Shelf, t: Turn) -> Option<PageError> {
    match t.obstacle {
        Some(e) => Some(e),
        None => if room_on(s) {
            None
        } else {
            Some(PageError::DocumentFull)
        },
    }
}

/// The shelf after the turn of a page: the page is injected, or, where it is
/// skipped, nothing is touched.
pub open spec fn after_turn(s: Shelf, t: Turn, handle: u32, resource: (u32, u16)) -> Shelf {
    if turn_error(s, t) is None {
        injected(s, t.page, resource_name_text(handle), resource, plan_text(t, handle))
    } else {
        s
    }
}

/// The shelf after the first `k` turns.
pub open spec fn stamped(s: Shelf, turns: Seq<Turn>, handle: u32, resource: (u32, u16), k: nat) -> Shelf
    decreases k,
{
    if k == 0 {
        s
    } else {
        after_turn(
            stamped(s, turns, handle, resource, (k - 1) as nat),
            turns[k - 1],
            handle,
            resource,
        )
    }
}

/// The record of turn `i`: the page is watermarked with the instances of its
/// lattice, or skipped for the reason that its turn gives.
pub open spec fn record_at(s: Shelf, turns: Seq<Turn>, handle: u32, resource: (u32, u16), i: int) -> PageRecord {
    PageRecord {
        number: turns[i].number as usize,
        page: turns[i].page,
        outcome: match turn_error(stamped(s, turns, handle, resource, i as nat), turns[i]) {
            Some(e) => PageOutcome::Skipped(e),
            None => PageOutcome::Watermarked {
                instances: draws(lattice_ops(turns[i].lattice, handle)) as usize,
            },
        },
    }
}

/// The records of a run, one for each turn, in order.
pub open spec fn run_records(s: Shelf, turns: Seq<Turn>, handle: u32, resource: (u32, u16)) -> Seq<
    PageRecord,
> {
    Seq::new(turns.len(), |i: int| record_at(s, turns, handle, resource, i))
}

/// Whether a number stands on a shelf as the number of an object does: it
/// finds something, it is taken, and so is the number that it leads to.
pub open spec fn settled(s: Shelf, j: (u32, u16)) -> bool {
    s.value.contains_key(j) && s.holds.contains(j) && s.holds.contains(s.home[j])
}

/// Whether a shelf is ready for the turns of a run: every page that a turn
/// holds to be free of obstacles is settled on the shelf and can be written
/// to, and the number given out last is an object number.
pub open spec fn ready(s: Shelf, turns: Seq<Turn>) -> bool {
    &&& 0 <= s.max_id <= u32::MAX
    &&& forall|k: int|
        0 <= k < turns.len() && (#[trigger] turns[k]).obstacle is None ==> settled(
            s,
            turns[k].page,
        ) && writable(s.value[turns[k].page])
}

/// The turns of a document: its pages in reading order, numbered from one,
/// each with what stands in the way of writing to it and with the lattice of
/// its geometry.
pub open spec fn turns_of(
    c: Config,
    objects: Map<(u32, u16), Value>,
    pages: Seq<(u32, u16)>,
    text_width: int,
) -> Seq<Turn> {
    Seq::new(
        pages.len(),
        |i: int|
            Turn {
                number: (i + 1) as nat,
                page: pages[i],
                obstacle: writing_obstacle(objects, pages[i]),
                lattice: lattice(c, geometry_of(objects, pages[i]), text_width),
            },
    )
}

/// The error of the first among the first `n` pages that cannot be planned,
/// if there is one.
pub open spec fn first_plan_error(
    c: Config,
    objects: Map<(u32, u16), Value>,
    pages: Seq<(u32, u16)>,
    text_width: int,
    n: nat,
) -> Option<PlanError>
    decreases n,
{
    if n == 0 {
        None
    } else {
        match first_plan_error(c, objects, pages, text_width, (n - 1) as nat) {
            Some(e) => Some(e),
            None => plan_error(c, geometry_of(objects, pages[n - 1]), text_width),
        }
    }
}

/// Whether a survey holds the pages of a document as they are: every page
/// with its number, its geometry, its lattice and what stands in its way.
pub open spec fn surveyed(
    survey: Seq<PageSurvey>,
    c: Config,
    objects: Map<(u32, u16), Value>,
    pages: Seq<(u32, u16)>,
    text_width: int,
) -> bool {
    &&& survey.len() == pages.len()
    &&& forall|i: int|
        0 <= i < survey.len() ==> {
            &&& (#[trigger] survey[i]).geometry == geometry_of(objects, pages[i])
            &&& turn_of(survey[i]) == turns_of(c, objects, pages, text_width)[i]
        }
}

/// A page after its injection can be written to again.
proof fn lemma_page_after_writable(m: Map<Seq<u8>, Value>, stream: (u32, u16), name: Seq<u8>, resource: (u32, u16))
    ensures
        writable(page_after(m, stream, name, resource)),
{
}

/// Content that is added leaves the resources of a page as they are.
proof fn lemma_content_keeps_resources(m: Map<Seq<u8>, Value>, stream: (u32, u16))
    ensures
        slot(with_content(m, stream), RESOURCES@) == slot(m, RESOURCES@),
{
    assert(crate::pdf::CONTENTS@.len() != RESOURCES@.len());
}

/// A turn leaves a shelf ready for the turns that follow.
proof fn lemma_turn_keeps_ready(s: Shelf, turns: Seq<Turn>, t: Turn, handle: u32, resource: (u32, u16))
    requires
        ready(s, turns),
    ensures
        ready(after_turn(s, t, handle, resource), turns),
{
    if turn_error(s, t) is None {
        let after = after_turn(s, t, handle, resource);
        lemma_page_after_writable(
            s.value[t.page]->Dictionary_0,
            next_on(s),
            resource_name_text(handle),
            resource,
        );
        assert forall|k: int|
            0 <= k < turns.len() && (#[trigger] turns[k]).obstacle is None implies settled(
            after,
            turns[k].page,
        ) && writable(after.value[turns[k].page]) by {
            assert(settled(s, turns[k].page));
            assert(turns[k].page != next_on(s));
        }
    }
}

/// Every shelf on the way of a run is ready.
proof fn lemma_stamped_ready(s: Shelf, turns: Seq<Turn>, handle: u32, resource: (u32, u16), k: nat)
    requires
        ready(s, turns),
        k <= turns.len(),
    ensures
        ready(stamped(s, turns, handle, resource, k), turns),
    decreases k,
{
    if k > 0 {
        lemma_stamped_ready(s, turns, handle, resource, (k - 1) as nat);
        lemma_turn_keeps_ready(
            stamped(s, turns, handle, resource, (k - 1) as nat),
            turns,
            turns[k - 1],
            handle,
            resource,
        );
    }
}

/// Tells by reading what stands in the way of writing to a page.
pub fn check_page(doc: &lopdf::Document, page_id: (u32, u16)) -> (r: Option<PageError>)
    ensures
        r == writing_obstacle(document_objects(*doc), page_id),
        r is None ==> document_holds(*doc, page_id) && document_holds(
            *doc,
            document_home(*doc, page_id),
        ),
{
    match check_registration(doc, page_id) {
        Some(e) => Some(e),
        None => match find_object(doc, page_id) {
            None => Some(PageError::Missing),
            Some(o) => match classify(o) {
                Shape::Dictionary(_) => None,
                _ => Some(PageError::AppendRejected),
            },
        },
    }
}

/// Tells whether a document has room for one more object. Where it has, no
/// number finds anything under the next number or leads to it.
pub fn room_left(doc: &lopdf::Document) -> (b: bool)
    ensures
        b == has_room(*doc),
        b ==> forall|s: Shelf| #[trigger] reflects(*doc, s) ==> next_is_new(s) && room_on(s),
        !b ==> forall|s: Shelf| #[trigger] reflects(*doc, s) ==> !room_on(s),
{
    let last = max_object_id(doc);
    if last == u32::MAX {
        return false;
    }
    let taken = holds_object(doc, (last + 1, 0));
    proof {
        if !taken {
            assert forall|s: Shelf| #[trigger] reflects(*doc, s) implies next_is_new(s) by {
                assert forall|j: (u32, u16)| #[trigger] s.value.contains_key(j) implies s.home[j]
                    != next_on(s) by {
                    assert(document_home(*doc, j) != (((last + 1) as u32, 0u16)));
                }
            }
        }
    }
    !taken
}

/// Appends drawing instructions to a page as a content stream of their own,
/// after whatever the page draws already. A page that is no dictionary takes
/// none, and a document without room takes none; then nothing is written.
pub fn append_instructions(doc: &mut lopdf::Document, page_id: (u32, u16), ops: &Vec<Op>) -> (r: Result<
    (),
    PageError,
>)
    ensures
        !(document_objects(*old(doc)).contains_key(page_id) && document_objects(
            *old(doc),
        )[page_id] is Dictionary) ==> r == Err::<(), PageError>(PageError::AppendRejected)
            && *final(doc) == *old(doc),
        document_objects(*old(doc)).contains_key(page_id) && document_objects(
            *old(doc),
        )[page_id] is Dictionary && !has_room(*old(doc)) ==> r == Err::<(), PageError>(
            PageError::DocumentFull,
        ) && *final(doc) == *old(doc),
        document_objects(*old(doc)).contains_key(page_id) && document_objects(
            *old(doc),
        )[page_id] is Dictionary && has_room(*old(doc)) ==> r is Ok && appended(
            *old(doc),
            *final(doc),
            page_id,
            document_objects(*old(doc))[page_id]->Dictionary_0,
            content_text(ops@, ops@.len()),
        ),
{
    let is_dictionary = match find_object(doc, page_id) {
        None => false,
        Some(o) => match classify(o) {
            Shape::Dictionary(_) => true,
            _ => false,
        },
    };
    if !is_dictionary {
        return Err(PageError::AppendRejected);
    }
    if !room_left(doc) {
        return Err(PageError::DocumentFull);
    }
    append_content(doc, page_id, render(ops));
    Ok(())
}

/// Injects the instances of one page: the instructions are appended to what
/// the page draws, and the reusable resource is made known to the page under
/// its name. Whether the page can be written to is decided by reading, and a
/// page that cannot, or a document without room, leaves the document as it
/// was. Otherwise the injection succeeds: the instructions stand as a new
/// stream under the next object number, the page names that stream after the
/// content streams that it had and knows the resource, and every number that
/// does not lead to the page finds what it found before.
pub fn inject(
    doc: &mut lopdf::Document,
    page_id: (u32, u16),
    handle: u32,
    resource: (u32, u16),
    ops: &Vec<Op>,
) -> (r: Result<(), PageError>)
    ensures
        match injection_error(document_objects(*old(doc)), page_id, has_room(*old(doc))) {
            Some(e) => r == Err::<(), PageError>(e) && *final(doc) == *old(doc),
            None => r is Ok && document_objects(*final(doc)).contains_key(page_id)
                && document_objects(*final(doc))[page_id] == page_after(
                document_objects(*old(doc))[page_id]->Dictionary_0,
                next_id(*old(doc)),
                resource_name_text(handle),
                resource,
            ) && document_objects(*final(doc)).contains_key(next_id(*old(doc)))
                && document_objects(*final(doc))[next_id(*old(doc))] == content_stream(
                content_text(ops@, ops@.len()),
            ) && forall|s: Shelf| #[trigger]
                reflects(*old(doc), s) && s.value.contains_key(page_id) ==> reflects(
                    *final(doc),
                    injected(
                        s,
                        page_id,
                        resource_name_text(handle),
                        resource,
                        content_text(ops@, ops@.len()),
                    ),
                ),
        },
{
    let ghost before = *doc;
    match check_page(doc, page_id) {
        Some(e) => {
            return Err(e);
        },
        None => {},
    }
    if !room_left(doc) {
        return Err(PageError::DocumentFull);
    }
    let ghost m = document_objects(before)[page_id]->Dictionary_0;
    let ghost text = content_text(ops@, ops@.len());
    let ghost name_text = resource_name_text(handle);
    let name = resource_name(handle);
    append_content(doc, page_id, render(ops));
    let ghost mid = *doc;
    proof {
        lemma_content_keeps_resources(m, next_id(before));
        lemma_own_shelf(before);
        assert(document_home(before, page_id) == document_home(before, page_id));
        assert(document_objects(mid)[page_id] == Value::Dictionary(
            with_content(m, next_id(before)),
        ));
    }
    let entered = add_xobject_to_page(doc, page_id, name.as_slice(), resource);
    proof {
        let v1 = Value::Dictionary(with_content(m, next_id(before)));
        let v2 = page_after(m, next_id(before), name_text, resource);
        assert(registered(v1, name_text, resource) == v2);
        assert(document_objects(mid).contains_key(next_id(before)));
        assert forall|s: Shelf| #[trigger]
            reflects(before, s) && s.value.contains_key(page_id) implies reflects(
            *doc,
            injected(s, page_id, name_text, resource, text),
        ) by {
            let s1 = rewrite(put(s, content_stream(text)), page_id, v1);
            lemma_appended(before, mid, page_id, m, text, s);
            lemma_rewritten(mid, *doc, page_id, v2, s1);
            let s2 = rewrite(s1, page_id, v2);
            let wanted = injected(s, page_id, name_text, resource, text);
            assert(s2.value =~= wanted.value);
        }
        // the new stream is not the page
        lemma_own_shelf(mid);
        assert(reflects(before, shelf_of(before)));
        assert(next_is_new(shelf_of(before)));
        assert(document_home(mid, next_id(before)) != document_home(mid, page_id));
    }
    Ok(())
}

/// Reads the pages of a document in reading order, each with its geometry,
/// its lattice and what stands in the way of writing to it, and tells whether
/// all of them can be planned: the error is that of the first page that
/// cannot. Nothing is written.
pub fn survey(doc: &lopdf::Document, config: &Config, text_width: i64) -> (r: Result<
    Vec<PageSurvey>,
    PlanError,
>)
    requires
        config.wf(),
    ensures
        match first_plan_error(
            *config,
            document_objects(*doc),
            document_pages(*doc),
            text_width as int,
            document_pages(*doc).len(),
        ) {
            Some(e) => r == Err::<Vec<PageSurvey>, PlanError>(e),
            None => r matches Ok(found) && surveyed(
                found@,
                *config,
                document_objects(*doc),
                document_pages(*doc),
                text_width as int,
            ),
        },
        r matches Ok(found) ==> forall|i: int|
            0 <= i < found@.len() && (#[trigger] found@[i]).obstacle is None ==> document_holds(
                *doc,
                found@[i].page,
            ) && document_holds(*doc, document_home(*doc, found@[i].page)),
{
    let pages = page_ids(doc);
    let mut found: Vec<PageSurvey> = Vec::new();
    let mut i: usize = 0;
    while i < pages.len()
        invariant
            i <= pages.len(),
            config.wf(),
            pages@ == document_pages(*doc),
            first_plan_error(
                *config,
                document_objects(*doc),
                pages@,
                text_width as int,
                i as nat,
            ) is None,
            surveyed(
                found@,
                *config,
                document_objects(*doc),
                pages@.subrange(0, i as int),
                text_width as int,
            ),
            forall|k: int|
                0 <= k < found@.len() && (#[trigger] found@[k]).obstacle is None ==> document_holds(
                    *doc,
                    found@[k].page,
                ) && document_holds(*doc, document_home(*doc, found@[k].page)),
        decreases pages.len() - i,
    {
        let page: (u32, u16) = pages[i];
        let geometry = page_geometry(doc, page);
        let lattice = match measure_lattice(config, &geometry, text_width) {
            Ok(m) => m,
            Err(e) => {
                proof {
                    lemma_first_error_stays(
                        *config,
                        document_objects(*doc),
                        pages@,
                        text_width as int,
                        (i + 1) as nat,
                        pages@.len(),
                    );
                }
                return Err(e);
            },
        };
        let obstacle = check_page(doc, page);
        found.push(PageSurvey { number: i + 1, page, geometry, lattice, obstacle });
        i += 1;
    }
    proof {
        assert(pages@.subrange(0, pages@.len() as int) =~= pages@);
    }
    Ok(found)
}

/// An error found among the first `n` pages is the error among any more.
proof fn lemma_first_error_stays(
    c: Config,
    objects: Map<(u32, u16), Value>,
    pages: Seq<(u32, u16)>,
    text_width: int,
    n: nat,
    m: nat,
)
    requires
        n <= m,
        first_plan_error(c, objects, pages, text_width, n) is Some,
    ensures
        first_plan_error(c, objects, pages, text_width, m) == first_plan_error(
            c,
            objects,
            pages,
            text_width,
            n,
        ),
    decreases m,
{
    if m > n {
        lemma_first_error_stays(c, objects, pages, text_width, n, (m - 1) as nat);
    }
}

/// Gives every surveyed page its turn, in order: a page with an obstacle is
/// skipped and not touched, a page without is injected with the instances of
/// its lattice, unless the document has no room left. The records and the
/// document afterwards are those of the run on any shelf that the document
/// stood as and that was ready for these turns.
pub fn stamp(doc: &mut lopdf::Document, handle: u32, resource: (u32, u16), found: &Vec<PageSurvey>) -> (records:
    Vec<PageRecord>)
    ensures
        records@.len() == found@.len(),
        forall|s: Shelf| #[trigger]
            reflects(*old(doc), s) && ready(s, found@.map_values(|p: PageSurvey| turn_of(p)))
                ==> reflects(
                *final(doc),
                stamped(
                    s,
                    found@.map_values(|p: PageSurvey| turn_of(p)),
                    handle,
                    resource,
                    found@.len(),
                ),
            ) && records@ == run_records(
                s,
                found@.map_values(|p: PageSurvey| turn_of(p)),
                handle,
                resource,
            ),
{
    let ghost before = *doc;
    let ghost turns = found@.map_values(|p: PageSurvey| turn_of(p));
    let mut records: Vec<PageRecord> = Vec::new();
    let mut i: usize = 0;
    while i < found.len()
        invariant
            i <= found.len(),
            turns == found@.map_values(|p: PageSurvey| turn_of(p)),
            records@.len() == i,
            forall|s: Shelf| #[trigger]
                reflects(before, s) && ready(s, turns) ==> reflects(
                    *doc,
                    stamped(s, turns, handle, resource, i as nat),
                ) && forall|k: int|
                    0 <= k < i ==> #[trigger] records@[k] == record_at(s, turns, handle, resource, k),
        decreases found.len() - i,
    {
        let page = found[i];
        let ghost t = turns[i as int];
        let ghost now = *doc;
        let ghost so_far = records@;
        assert(t == turn_of(page));
        let ops = page.lattice.instances(handle);
        let outcome = match page.obstacle {
            Some(e) => PageOutcome::Skipped(e),
            None => match inject(doc, page.page, handle, resource, &ops) {
                Ok(()) => PageOutcome::Watermarked { instances: ops.len() / 4 },
                Err(e) => PageOutcome::Skipped(e),
            },
        };
        records.push(PageRecord { number: page.number, page: page.page, outcome });
        proof {
            assert forall|s: Shelf| #[trigger] reflects(before, s) && ready(s, turns) implies reflects(
                *doc,
                stamped(s, turns, handle, resource, (i + 1) as nat),
            ) && forall|k: int|
                0 <= k < i + 1 ==> #[trigger] records@[k] == record_at(
                    s,
                    turns,
                    handle,
                    resource,
                    k,
                ) by {
                let at = stamped(s, turns, handle, resource, i as nat);
                lemma_stamped_ready(s, turns, handle, resource, i as nat);
                assert(reflects(now, at));
                assert(has_room(now) == room_on(at));
                if t.obstacle is None {
                    assert(settled(at, t.page) && writable(at.value[t.page]));
                    assert(document_objects(now)[t.page] == at.value[t.page]);
                    assert(writing_obstacle(document_objects(now), t.page) is None);
                }
                assert forall|k: int| 0 <= k < i + 1 implies #[trigger] records@[k] == record_at(
                    s,
                    turns,
                    handle,
                    resource,
                    k,
                ) by {
                    if k < i {
                        assert(records@[k] == so_far[k]);
                    }
                }
            }
        }
        i += 1;
    }
    proof {
        assert forall|s: Shelf| #[trigger] reflects(before, s) && ready(s, turns) implies records@
            == run_records(s, turns, handle, resource) by {
            assert(records@ =~= run_records(s, turns, handle, resource));
        }
    }
    records
}

/// A survey of a document is the turns of that document, and a shelf on
/// which every page of the document stands as it does in the document is
/// ready for them.
proof fn lemma_survey_turns(
    found: Seq<PageSurvey>,
    c: Config,
    objects: Map<(u32, u16), Value>,
    pages: Seq<(u32, u16)>,
    text_width: int,
    s: Shelf,
)
    requires
        surveyed(found, c, objects, pages, text_width),
        0 <= s.max_id <= u32::MAX,
        forall|j: (u32, u16)| #[trigger]
            objects.contains_key(j) ==> s.value.contains_key(j) && s.value[j] == objects[j],
        forall|i: int|
            0 <= i < found.len() && (#[trigger] found[i]).obstacle is None ==> s.holds.contains(
                found[i].page,
            ) && s.holds.contains(s.home[found[i].page]),
    ensures
        found.map_values(|p: PageSurvey| turn_of(p)) == turns_of(c, objects, pages, text_width),
        ready(s, turns_of(c, objects, pages, text_width)),
{
    let turns = turns_of(c, objects, pages, text_width);
    assert(found.map_values(|p: PageSurvey| turn_of(p)) =~= turns);
    assert forall|k: int|
        0 <= k < turns.len() && (#[trigger] turns[k]).obstacle is None implies s.value.contains_key(
        turns[k].page,
    ) && s.holds.contains(turns[k].page) && s.holds.contains(s.home[turns[k].page])
        && writable(s.value[turns[k].page]) by {
        assert(objects.contains_key(pages[k]));
        assert(turn_of(found[k]) == turns[k]);
    }
}

/// Watermarks every page of a document, in reading order, with a resource
/// that stands in the document already. Where a page cannot be planned the
/// run ends with the error of the first such page, and nothing is written.
/// Otherwise the records and the document afterwards are those of the run
/// over the turns of the document as it stood.
pub fn watermark_pages(
    doc: &mut lopdf::Document,
    config: &Config,
    handle: u32,
    resource: (u32, u16),
    text_width: i64,
) -> (r: Result<Vec<PageRecord>, PlanError>)
    requires
        config.wf(),
    ensures
        match first_plan_error(
            *config,
            document_objects(*old(doc)),
            document_pages(*old(doc)),
            text_width as int,
            document_pages(*old(doc)).len(),
        ) {
            Some(e) => r == Err::<Vec<PageRecord>, PlanError>(e) && *final(doc) == *old(doc),
            None => r matches Ok(records) && ready(
                shelf_of(*old(doc)),
                turns_of(
                    *config,
                    document_objects(*old(doc)),
                    document_pages(*old(doc)),
                    text_width as int,
                ),
            ) && records@ == run_records(
                shelf_of(*old(doc)),
                turns_of(
                    *config,
                    document_objects(*old(doc)),
                    document_pages(*old(doc)),
                    text_width as int,
                ),
                handle,
                resource,
            ) && reflects(
                *final(doc),
                stamped(
                    shelf_of(*old(doc)),
                    turns_of(
                        *config,
                        document_objects(*old(doc)),
                        document_pages(*old(doc)),
                        text_width as int,
                    ),
                    handle,
                    resource,
                    document_pages(*old(doc)).len(),
                ),
            ),
        },
{
    let found = match survey(doc, config, text_width) {
        Ok(found) => found,
        Err(e) => {
            return Err(e);
        },
    };
    proof {
        lemma_own_shelf(*doc);
        lemma_survey_turns(
            found@,
            *config,
            document_objects(*doc),
            document_pages(*doc),
            text_width as int,
            shelf_of(*doc),
        );
    }
    Ok(stamp(doc, handle, resource, &found))
}

/// Why a run ends before anything is written, if it does: the font has no
/// usable height, the point size is not positive, a page cannot be planned,
/// or the document has no room for the resource. What stands in the way of
/// writing to single pages is no such reason.
pub open spec fn run_error(height_usable: bool, point_size: i64, plan: Option<PlanError>, room: bool) -> Option<
    RunError,
> {
    if !height_usable {
        Some(RunError::FontUnusable)
    } else if point_size <= 0 {
        Some(RunError::Plan(PlanError::Sizing))
    } else if plan is Some {
        Some(RunError::Plan(plan.unwrap()))
    } else if !room {
        Some(RunError::DocumentFull)
    } else {
        None
    }
}

/// The shelf on which a run starts its turns: the document as it stood, with
/// the reusable resource under the next number, a stream that holds the
/// drawing program of the text.
pub open spec fn with_watermark(
    doc: lopdf::Document,
    form: lopdf::Dictionary,
    glyphs: Seq<Glyph>,
    scale: FontScale,
) -> Shelf {
    put(
        shelf_of(doc),
        new_stream(
            dictionary_entries(form),
            content_text(vectorized(glyphs, 0, 0, scale), vectorized(glyphs, 0, 0, scale).len()),
        ),
    )
}

/// Watermarks a whole document with a line of text, given as its glyphs and
/// the height of their font. The text is set at the point size of the
/// settings. A font height that is not positive or beyond the extent limit, a
/// point size that is not positive, a page that cannot be planned, and a
/// document without room for the resource each end the run before anything is
/// written. Otherwise the run succeeds, whatever stands in the way of writing
/// to single pages: the drawing program of the text is entered once as a
/// reusable resource, a stream with the dictionary handed in, and every page
/// gets its turn. The document as it stood is ready for the turns, and the
/// records and the document afterwards are those of the run over them.
pub fn watermark_document(
    doc: &mut lopdf::Document,
    form: lopdf::Dictionary,
    glyphs: &Vec<Glyph>,
    font_height: i64,
    config: &Config,
) -> (r: Result<Vec<PageRecord>, RunError>)
    requires
        config.wf(),
    ensures
        ({
            let scale = FontScale {
                h_size: config.point_size,
                v_size: config.point_size,
                height: font_height,
            };
            let width = text_width(glyphs@, scale);
            let turns = turns_of(
                *config,
                document_objects(*old(doc)),
                document_pages(*old(doc)),
                width,
            );
            match run_error(
                0 < font_height <= EXTENT_LIMIT,
                config.point_size,
                first_plan_error(
                    *config,
                    document_objects(*old(doc)),
                    document_pages(*old(doc)),
                    width,
                    document_pages(*old(doc)).len(),
                ),
                has_room(*old(doc)),
            ) {
                Some(e) => r == Err::<Vec<PageRecord>, RunError>(e) && *final(doc) == *old(doc),
                None => r matches Ok(records) && ready(shelf_of(*old(doc)), turns) && records@
                    == run_records(
                    with_watermark(*old(doc), form, glyphs@, scale),
                    turns,
                    WATERMARK_RESOURCE,
                    next_id(*old(doc)),
                ) && reflects(
                    *final(doc),
                    stamped(
                        with_watermark(*old(doc), form, glyphs@, scale),
                        turns,
                        WATERMARK_RESOURCE,
                        next_id(*old(doc)),
                        turns.len(),
                    ),
                ),
            }
        }),
{
    if font_height <= 0 || font_height > EXTENT_LIMIT {
        return Err(RunError::FontUnusable);
    }
    let scale = match FontScale::uniform(config.point_size, font_height) {
        Some(scale) => scale,
        None => {
            return Err(RunError::Plan(PlanError::Sizing));
        },
    };
    let width = measure_width(glyphs, scale);
    let found = match survey(doc, config, width) {
        Ok(found) => found,
        Err(e) => {
            return Err(RunError::Plan(e));
        },
    };
    if !room_left(doc) {
        return Err(RunError::DocumentFull);
    }
    let ghost before = *doc;
    let outline = vectorize(glyphs, 0, 0, scale);
    let resource = add_stream(doc, form, render(&outline));
    proof {
        lemma_own_shelf(before);
        lemma_shelved(
            before,
            *doc,
            new_stream(dictionary_entries(form), content_text(outline@, outline@.len())),
            shelf_of(before),
        );
        lemma_survey_turns(
            found@,
            *config,
            document_objects(before),
            document_pages(before),
            width as int,
            shelf_of(before),
        );
        lemma_resource_stands(
            shelf_of(before),
            new_stream(dictionary_entries(form), content_text(outline@, outline@.len())),
            turns_of(*config, document_objects(before), document_pages(before), width as int),
            WATERMARK_RESOURCE,
        );
    }
    Ok(stamp(doc, WATERMARK_RESOURCE, resource, &found))
}

/// Watermarks a whole document with a line of text set in a font. The glyphs
/// of the text are read from the font and the document is watermarked with
/// them. A font without a usable height ends the run before anything is
/// written.
pub fn watermark_text(
    doc: &mut lopdf::Document,
    form: lopdf::Dictionary,
    font: &ab_glyph::FontRef,
    text: &str,
    config: &Config,
) -> (r: Result<Vec<PageRecord>, RunError>)
    requires
        config.wf(),
    ensures
        ({
            let scale = FontScale {
                h_size: config.point_size,
                v_size: config.point_size,
                height: usable_height(*font).unwrap(),
            };
            let width = typeset_width(*font, text@, text@.len(), scale);
            let turns = turns_of(
                *config,
                document_objects(*old(doc)),
                document_pages(*old(doc)),
                width,
            );
            match run_error(
                usable_height(*font) is Some,
                config.point_size,
                first_plan_error(
                    *config,
                    document_objects(*old(doc)),
                    document_pages(*old(doc)),
                    width,
                    document_pages(*old(doc)).len(),
                ),
                has_room(*old(doc)),
            ) {
                Some(e) => r == Err::<Vec<PageRecord>, RunError>(e) && *final(doc) == *old(doc),
                None => r matches Ok(records) && exists|glyphs: Seq<Glyph>|
                    crate::font::glyphs_read(glyphs, *font, text@) && ready(
                        shelf_of(*old(doc)),
                        turns,
                    ) && records@ == run_records(
                        #[trigger] with_watermark(*old(doc), form, glyphs, scale),
                        turns,
                        WATERMARK_RESOURCE,
                        next_id(*old(doc)),
                    ) && reflects(
                        *final(doc),
                        stamped(
                            with_watermark(*old(doc), form, glyphs, scale),
                            turns,
                            WATERMARK_RESOURCE,
                            next_id(*old(doc)),
                            turns.len(),
                        ),
                    ),
            }
        }),
{
    let height = match read_height(font) {
        Some(height) => height,
        None => {
            return Err(RunError::FontUnusable);
        },
    };
    let glyphs = read_glyphs(font, text);
    proof {
        lemma_width_of_read_glyphs(
            glyphs@,
            *font,
            text@,
            text@.len(),
            FontScale { h_size: config.point_size, v_size: config.point_size, height },
        );
    }
    let ghost before = *doc;
    let r = watermark_document(doc, form, &glyphs, height, config);
    proof {
        let scale = FontScale { h_size: config.point_size, v_size: config.point_size, height };
        assert(with_watermark(before, form, glyphs@, scale) == with_watermark(
            before,
            form,
            glyphs@,
            scale,
        ));
    }
    r
}

/// Pages are isolated. Every turn has its record, in order. A page with an
/// obstacle is skipped for that obstacle and its turn touches nothing; a page
/// without is watermarked with the instances of its lattice as long as the
/// document has room, and is skipped without a touch where it has none.
pub proof fn lemma_pages_are_isolated(s: Shelf, turns: Seq<Turn>, handle: u32, resource: (u32, u16), i: int)
    requires
        0 <= i < turns.len(),
    ensures
        run_records(s, turns, handle, resource).len() == turns.len(),
        run_records(s, turns, handle, resource)[i].number == turns[i].number as usize,
        run_records(s, turns, handle, resource)[i].page == turns[i].page,
        turns[i].obstacle matches Some(e) ==> run_records(s, turns, handle, resource)[i].outcome
            == PageOutcome::Skipped(e),
        turns[i].obstacle is None ==> run_records(s, turns, handle, resource)[i].outcome == (
        if room_on(stamped(s, turns, handle, resource, i as nat)) {
            PageOutcome::Watermarked {
                instances: draws(lattice_ops(turns[i].lattice, handle)) as usize,
            }
        } else {
            PageOutcome::Skipped(PageError::DocumentFull)
        }),
        run_records(s, turns, handle, resource)[i].outcome is Skipped ==> stamped(
            s,
            turns,
            handle,
            resource,
            (i + 1) as nat,
        ) == stamped(s, turns, handle, resource, i as nat),
{
}

/// No page ends a run: with a usable font, a positive point size, pages that
/// can all be planned and room for the resource, the run succeeds whatever
/// stands in the way of writing to single pages.
pub proof fn lemma_no_page_ends_a_run(point_size: i64)
    requires
        point_size > 0,
    ensures
        run_error(true, point_size, None, true) is None,
{
}

/// How many objects a run has entered after `k` turns and which numbers are
/// taken depends on the turns, on the number given out last and on the
/// numbers taken at the start, and on nothing else.
proof fn lemma_room_agrees(a: Shelf, b: Shelf, turns: Seq<Turn>, handle: u32, resource: (u32, u16), k: nat)
    requires
        a.max_id == b.max_id,
        a.holds == b.holds,
        k <= turns.len(),
    ensures
        stamped(a, turns, handle, resource, k).max_id == stamped(b, turns, handle, resource, k).max_id,
        stamped(a, turns, handle, resource, k).holds == stamped(b, turns, handle, resource, k).holds,
    decreases k,
{
    if k > 0 {
        lemma_room_agrees(a, b, turns, handle, resource, (k - 1) as nat);
    }
}

/// Tiling is deterministic. Two runs over the same turns, on documents that
/// have given out the same number last and hold objects under the same
/// numbers, make the same records: the same pages are watermarked, with the
/// same number of instances, and the same pages are skipped for the same
/// reasons.
pub proof fn lemma_runs_agree(a: Shelf, b: Shelf, turns: Seq<Turn>, handle: u32, resource: (u32, u16))
    requires
        a.max_id == b.max_id,
        a.holds == b.holds,
    ensures
        run_records(a, turns, handle, resource) == run_records(b, turns, handle, resource),
{
    assert forall|i: int| 0 <= i < turns.len() implies record_at(a, turns, handle, resource, i)
        == record_at(b, turns, handle, resource, i) by {
        lemma_room_agrees(a, b, turns, handle, resource, i as nat);
    }
    assert(run_records(a, turns, handle, resource) =~= run_records(b, turns, handle, resource));
}

/// Two documents that hold the same objects under the same numbers, have the
/// same pages and have given out the same number last get the same records
/// from a run with the same settings and the same width of the text,
/// whatever the resource holds that is entered.
pub proof fn lemma_copies_agree(
    a: lopdf::Document,
    b: lopdf::Document,
    form_a: lopdf::Dictionary,
    form_b: lopdf::Dictionary,
    glyphs_a: Seq<Glyph>,
    glyphs_b: Seq<Glyph>,
    scale_a: FontScale,
    scale_b: FontScale,
    c: Config,
    width: int,
)
    requires
        document_objects(a) == document_objects(b),
        document_pages(a) == document_pages(b),
        document_max_id(a) == document_max_id(b),
        forall|j: (u32, u16)| document_holds(a, j) == document_holds(b, j),
    ensures
        run_records(
            with_watermark(a, form_a, glyphs_a, scale_a),
            turns_of(c, document_objects(a), document_pages(a), width),
            WATERMARK_RESOURCE,
            next_id(a),
        ) == run_records(
            with_watermark(b, form_b, glyphs_b, scale_b),
            turns_of(c, document_objects(b), document_pages(b), width),
            WATERMARK_RESOURCE,
            next_id(b),
        ),
{
    assert(shelf_of(a).holds =~= shelf_of(b).holds);
    lemma_runs_agree(
        with_watermark(a, form_a, glyphs_a, scale_a),
        with_watermark(b, form_b, glyphs_b, scale_b),
        turns_of(c, document_objects(a), document_pages(a), width),
        WATERMARK_RESOURCE,
        next_id(a),
    );
}

/// A turn leaves every settled number settled and leading where it led, and
/// takes no number back. A number that does not lead to the page of the turn
/// finds afterwards what it found before.
proof fn lemma_turn_elsewhere(s: Shelf, t: Turn, handle: u32, resource: (u32, u16), j: (u32, u16))
    requires
        settled(s, j),
        t.obstacle is None ==> settled(s, t.page),
    ensures
        settled(after_turn(s, t, handle, resource), j),
        after_turn(s, t, handle, resource).home[j] == s.home[j],
        s.holds.subset_of(after_turn(s, t, handle, resource).holds),
        !(t.obstacle is None && s.home[t.page] == s.home[j]) ==> after_turn(
            s,
            t,
            handle,
            resource,
        ).value[j] == s.value[j],
{
    if turn_error(s, t) is None {
        assert(j != next_on(s));
        assert(t.page != next_on(s));
        assert(s.home[j] != next_on(s));
    }
}

/// Between two points of a run every settled number stays settled and leads
/// where it led, and no number is taken back.
proof fn lemma_home_stays(
    s: Shelf,
    turns: Seq<Turn>,
    handle: u32,
    resource: (u32, u16),
    a: nat,
    k: nat,
    j: (u32, u16),
)
    requires
        ready(s, turns),
        a <= k <= turns.len(),
        settled(stamped(s, turns, handle, resource, a), j),
    ensures
        settled(stamped(s, turns, handle, resource, k), j),
        stamped(s, turns, handle, resource, k).home[j] == stamped(s, turns, handle, resource, a).home[j],
        stamped(s, turns, handle, resource, a).holds.subset_of(
            stamped(s, turns, handle, resource, k).holds,
        ),
    decreases k,
{
    if k > a {
        let before = stamped(s, turns, handle, resource, (k - 1) as nat);
        lemma_home_stays(s, turns, handle, resource, a, (k - 1) as nat, j);
        lemma_stamped_ready(s, turns, handle, resource, (k - 1) as nat);
        lemma_turn_elsewhere(before, turns[k - 1], handle, resource, j);
    }
}

/// Between two points of a run a settled number finds the same, as long as
/// no page that is written to in between is the object that it leads to.
proof fn lemma_untouched(
    s: Shelf,
    turns: Seq<Turn>,
    handle: u32,
    resource: (u32, u16),
    a: nat,
    k: nat,
    j: (u32, u16),
)
    requires
        ready(s, turns),
        a <= k <= turns.len(),
        settled(stamped(s, turns, handle, resource, a), j),
        forall|i: int|
            a <= i < k && (#[trigger] turns[i]).obstacle is None ==> stamped(
                s,
                turns,
                handle,
                resource,
                a,
            ).home[turns[i].page] != stamped(s, turns, handle, resource, a).home[j],
    ensures
        stamped(s, turns, handle, resource, k).value[j] == stamped(
            s,
            turns,
            handle,
            resource,
            a,
        ).value[j],
    decreases k,
{
    if k > a {
        let start = stamped(s, turns, handle, resource, a);
        let before = stamped(s, turns, handle, resource, (k - 1) as nat);
        let t = turns[k - 1];
        lemma_untouched(s, turns, handle, resource, a, (k - 1) as nat, j);
        lemma_home_stays(s, turns, handle, resource, a, (k - 1) as nat, j);
        lemma_stamped_ready(s, turns, handle, resource, (k - 1) as nat);
        lemma_stamped_ready(s, turns, handle, resource, a);
        if t.obstacle is None {
            assert(settled(start, t.page));
            lemma_home_stays(s, turns, handle, resource, a, (k - 1) as nat, t.page);
        }
        lemma_turn_elsewhere(before, t, handle, resource, j);
    }
}

/// What a run leaves alone. An object that no page without an obstacle leads
/// to is after the run as it was before: a skipped page holds no watermark,
/// and nothing but pages is written to.
pub proof fn lemma_left_alone(s: Shelf, turns: Seq<Turn>, handle: u32, resource: (u32, u16), j: (u32, u16))
    requires
        ready(s, turns),
        settled(s, j),
        forall|i: int|
            0 <= i < turns.len() && (#[trigger] turns[i]).obstacle is None ==> s.home[turns[i].page]
                != s.home[j],
    ensures
        stamped(s, turns, handle, resource, turns.len()).value.contains_key(j),
        stamped(s, turns, handle, resource, turns.len()).value[j] == s.value[j],
{
    lemma_home_stays(s, turns, handle, resource, 0, turns.len(), j);
    lemma_untouched(s, turns, handle, resource, 0, turns.len(), j);
}

/// The resource is entered once and stands. A shelf that is ready for the
/// turns of a run and has room is ready for them with the resource on it, and
/// after the run the resource is found under its number as it was entered.
pub proof fn lemma_resource_stands(s: Shelf, v: Value, turns: Seq<Turn>, handle: u32)
    requires
        ready(s, turns),
        room_on(s),
    ensures
        ready(put(s, v), turns),
        stamped(put(s, v), turns, handle, next_on(s), turns.len()).value.contains_key(next_on(s)),
        stamped(put(s, v), turns, handle, next_on(s), turns.len()).value[next_on(s)] == v,
{
    let start = put(s, v);
    assert forall|k: int|
        0 <= k < turns.len() && (#[trigger] turns[k]).obstacle is None implies settled(
        start,
        turns[k].page,
    ) && writable(start.value[turns[k].page]) && start.home[turns[k].page] != start.home[next_on(
        s,
    )] by {
        assert(settled(s, turns[k].page));
        assert(turns[k].page != next_on(s));
    }
    lemma_left_alone(start, turns, handle, next_on(s), next_on(s));
}

/// What a run leaves of a watermarked page that no other page of the run
/// leads to. After the run the page names the content streams that it had
/// before the run and then one new stream, which holds the instances of its
/// lattice and nothing else, and it knows the resource under its name.
pub proof fn lemma_watermarked_page(s: Shelf, turns: Seq<Turn>, handle: u32, resource: (u32, u16), i: int)
    requires
        ready(s, turns),
        0 <= i < turns.len(),
        run_records(s, turns, handle, resource)[i].outcome is Watermarked,
        forall|k: int|
            0 <= k < turns.len() && k != i && (#[trigger] turns[k]).obstacle is None
                ==> s.home[turns[k].page] != s.home[turns[i].page],
    ensures
        ({
            let at = stamped(s, turns, handle, resource, i as nat);
            let end = stamped(s, turns, handle, resource, turns.len());
            &&& end.value[turns[i].page] == page_after(
                s.value[turns[i].page]->Dictionary_0,
                next_on(at),
                resource_name_text(handle),
                resource,
            )
            &&& end.value[next_on(at)] == content_stream(plan_text(turns[i], handle))
        }),
{
    let page = turns[i].page;
    let at = stamped(s, turns, handle, resource, i as nat);
    let next = stamped(s, turns, handle, resource, (i + 1) as nat);
    let stream = next_on(at);
    assert(turns[i].obstacle is None);
    assert(settled(s, page));
    // up to its turn the page is as it was
    lemma_home_stays(s, turns, handle, resource, 0, i as nat, page);
    lemma_untouched(s, turns, handle, resource, 0, i as nat, page);
    lemma_stamped_ready(s, turns, handle, resource, i as nat);
    lemma_stamped_ready(s, turns, handle, resource, (i + 1) as nat);
    // its turn
    assert(room_on(at));
    assert(page != stream);
    assert(at.home[page] != stream);
    assert(next.value[page] == page_after(
        s.value[page]->Dictionary_0,
        stream,
        resource_name_text(handle),
        resource,
    ));
    assert(next.value[stream] == content_stream(plan_text(turns[i], handle)));
    assert(settled(next, page));
    assert(settled(next, stream));
    // after its turn the page and the stream are left alone
    assert forall|k: int|
        i + 1 <= k < turns.len() && (#[trigger] turns[k]).obstacle is None implies next.home[turns[k].page]
        != next.home[page] && next.home[turns[k].page] != next.home[stream] by {
        assert(settled(s, turns[k].page));
        lemma_home_stays(s, turns, handle, resource, 0, (i + 1) as nat, turns[k].page);
        lemma_home_stays(s, turns, handle, resource, 0, i as nat, turns[k].page);
        lemma_home_stays(s, turns, handle, resource, 0, (i + 1) as nat, page);
        assert(at.holds.contains(at.home[turns[k].page]));
    }
    lemma_untouched(s, turns, handle, resource, (i + 1) as nat, turns.len(), page);
    lemma_untouched(s, turns, handle, resource, (i + 1) as nat, turns.len(), stream);
}

} // verus!
