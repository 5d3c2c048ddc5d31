//! What the injector reads of a page and writes to it: the rotation that a
//! page inherits, the size of its visible area, and the entry that makes the
//! reusable resource known to the page.

use vstd::prelude::*;
use crate::binary32::{micro_from_single, single_micro};
use crate::grid::{PageGeometry, STANDARD_HEIGHT, STANDARD_WIDTH, fits};
use crate::pdf::{
    MEDIA_BOX,
    NewValue,
    PARENT,
    RESOURCES,
    ROTATE,
    Shape,
    Value,
    XOBJECT,
    classify,
    container_mut,
    dictionary_entries,
    dictionary_mut,
    document_objects,
    entry,
    entry_mut,
    find_object,
    find_object_mut,
    has_entry,
    object_value,
    rewritten,
    set_entry,
};
use crate::units::{SCALE, within_limit};

verus! {

/// How many ancestors of a page are asked for a rotation.
pub const MAX_PARENT_DEPTH: usize = 10;

/// Why a page is left as it is.
#[derive(Clone, Copy, Debug, PartialEq, Eq, Structural)]
pub enum PageError {
    /// The document finds no object under the number of the page.
    Missing,
    /// The page is neither a dictionary nor a stream.
    NotAContainer,
    /// The page has resources that are not a dictionary of its own.
    ResourcesUnusable,
    /// The resources have drawable resources that are not a dictionary of
    /// their own.
    DrawablesUnusable,
    /// The document has no object number left for new content.
    DocumentFull,
    /// The document would not take the new content.
    AppendRejected,
}

/// The entries of a dictionary or of a stream; `None` for any other value.
pub open spec fn container(v: Value) -> Option<Map<Seq<u8>, Value>> {
    match v {
        Value::Dictionary(m) => Some(m),
        Value::Stream(m, _) => Some(m),
        _ => None,
    }
}

/// The rotation that a node declares: a whole number under `Rotate`, or a
/// reference there to a whole number.
pub open spec fn declared_rotation(objects: Map<(u32, u16), Value>, node: Map<Seq<u8>, Value>) -> Option<
    i64,
> {
    if !node.contains_key(ROTATE@) {
        None
    } else {
        match node[ROTATE@] {
            Value::Integer(r) => Some(r),
            Value::Reference(target) => if objects.contains_key(target) {
                match objects[target] {
                    Value::Integer(r) => Some(r),
                    _ => None,
                }
            } else {
                None
            },
            _ => None,
        }
    }
}

/// The parent that a node names: a reference under `Parent`.
pub open spec fn parent_of(node: Map<Seq<u8>, Value>) -> Option<(u32, u16)> {
    if !node.contains_key(PARENT@) {
        None
    } else {
        match node[PARENT@] {
            Value::Reference(p) => Some(p),
            _ => None,
        }
    }
}

/// The rotation that holds for a node when at most `reach` nodes are asked,
/// the node itself first and then its ancestors: that of the nearest one that
/// declares a rotation, and zero where none does, the chain breaks off, or the
/// reach is used up.
pub open spec fn inherited_rotation(objects: Map<(u32, u16), Value>, id: (u32, u16), reach: nat) -> i64
    decreases reach,
{
    if reach == 0 || !objects.contains_key(id) {
        0
    } else {
        match container(objects[id]) {
            None => 0,
            Some(node) => match declared_rotation(objects, node) {
                Some(r) => r,
                None => match parent_of(node) {
                    Some(p) => inherited_rotation(objects, p, (reach - 1) as nat),
                    None => 0,
                },
            },
        }
    }
}

/// The effective rotation of a page.
pub open spec fn page_rotation(objects: Map<(u32, u16), Value>, page: (u32, u16)) -> i64 {
    inherited_rotation(objects, page, (MAX_PARENT_DEPTH + 1) as nat)
}

/// A number of a rectangle in millionths: a whole number as it is, a real
/// number rounded towards zero, and `None` for what is no number at all and
/// for a number that a coordinate cannot hold.
pub open spec fn number_of(v: Value) -> Option<int> {
    match v {
        Value::Integer(i) => if i64::MIN <= i * SCALE <= i64::MAX {
            Some(i * SCALE)
        } else {
            None
        },
        Value::Real(bits) => single_micro(bits),
        _ => None,
    }
}

/// The extent of a rectangle along one axis, from its lower and its upper
/// number; `None` where either number cannot be held or the extent is beyond
/// the extent limit.
pub open spec fn extent(lower: Value, upper: Value) -> Option<i64> {
    match (number_of(lower), number_of(upper)) {
        (Some(a), Some(b)) => if within_limit(b - a) {
            Some((b - a) as i64)
        } else {
            None
        },
        _ => None,
    }
}

/// The size of the visible area of a page: the width and the height of the
/// rectangle under `MediaBox`, an array of four numbers or more. `None` where
/// the page has no such rectangle, a corner is no number, or an extent cannot
/// be held.
pub open spec fn media_box_size(objects: Map<(u32, u16), Value>, page: (u32, u16)) -> Option<(i64, i64)> {
    if !objects.contains_key(page) {
        None
    } else {
        match container(objects[page]) {
            None => None,
            Some(node) => if !node.contains_key(MEDIA_BOX@) {
                None
            } else {
                match node[MEDIA_BOX@] {
                    Value::Array(items) => if items.len() >= 4 {
                        match (extent(items[0], items[2]), extent(items[1], items[3])) {
                            (Some(w), Some(h)) => Some((w, h)),
                            _ => None,
                        }
                    } else {
                        None
                    },
                    _ => None,
                }
            },
        }
    }
}

/// The geometry of a page: the size of its visible area, the standard size
/// where it has none, and its effective rotation.
pub open spec fn geometry_of(objects: Map<(u32, u16), Value>, page: (u32, u16)) -> PageGeometry {
    match media_box_size(objects, page) {
        Some((w, h)) => PageGeometry { width: w, height: h, rotation: page_rotation(objects, page) },
        None => PageGeometry {
            width: STANDARD_WIDTH,
            height: STANDARD_HEIGHT,
            rotation: page_rotation(objects, page),
        },
    }
}

/// The dictionary under a key that is to be written into: the one that is
/// there, a new empty one where the key is free, and `None` where the key
/// holds anything else.
pub open spec fn slot(node: Map<Seq<u8>, Value>, key: Seq<u8>) -> Option<Map<Seq<u8>, Value>> {
    if !node.contains_key(key) {
        Some(Map::empty())
    } else {
        match node[key] {
            Value::Dictionary(m) => Some(m),
            _ => None,
        }
    }
}

/// Whether a page can take the entry for a resource, and if not, why.
pub open spec fn registration_error(objects: Map<(u32, u16), Value>, page: (u32, u16)) -> Option<
    PageError,
> {
    if !objects.contains_key(page) {
        Some(PageError::Missing)
    } else {
        match container(objects[page]) {
            None => Some(PageError::NotAContainer),
            Some(node) => match slot(node, RESOURCES@) {
                None => Some(PageError::ResourcesUnusable),
                Some(resources) => match slot(resources, XOBJECT@) {
                    None => Some(PageError::DrawablesUnusable),
                    Some(_) => None,
                },
            },
        }
    }
}

/// The entries of a page after a resource was entered under `name`: the page
/// has resources, the resources have drawable resources, and these hold a
/// reference to the resource under the name. Every other entry is as before.
pub open spec fn with_resource(node: Map<Seq<u8>, Value>, name: Seq<u8>, resource: (u32, u16)) -> Map<
    Seq<u8>,
    Value,
> {
    let resources = slot(node, RESOURCES@).unwrap();
    let drawables = slot(resources, XOBJECT@).unwrap();
    node.insert(
        RESOURCES@,
        Value::Dictionary(
            resources.insert(
                XOBJECT@,
                Value::Dictionary(drawables.insert(name, Value::Reference(resource))),
            ),
        ),
    )
}

/// A page object after a resource was entered: a dictionary stays a
/// dictionary and a stream a stream.
pub open spec fn registered(v: Value, name: Seq<u8>, resource: (u32, u16)) -> Value {
    match v {
        Value::Dictionary(m) => Value::Dictionary(with_resource(m, name, resource)),
        Value::Stream(m, content) => Value::Stream(with_resource(m, name, resource), content),
        _ => v,
    }
}

/// The dictionary of a page object, if it has one.
fn page_entries<'a>(doc: &'a lopdf::Document, id: (u32, u16)) -> (r: Option<&'a lopdf::Dictionary>)
    ensures
        match r {
            Some(d) => document_objects(*doc).contains_key(id) && container(
                document_objects(*doc)[id],
            ) == Some(dictionary_entries(*d)),
            None => !document_objects(*doc).contains_key(id) || container(
                document_objects(*doc)[id],
            ) is None,
        },
{
    match find_object(doc, id) {
        None => None,
        Some(o) => match classify(o) {
            Shape::Dictionary(d) => Some(d),
            Shape::Stream(d, _) => Some(d),
            _ => None,
        },
    }
}

/// The rotation that a node declares.
fn rotation_entry(doc: &lopdf::Document, node: &lopdf::Dictionary) -> (r: Option<i64>)
    ensures
        r == declared_rotation(document_objects(*doc), dictionary_entries(*node)),
{
    match entry(node, ROTATE.as_slice()) {
        None => None,
        Some(o) => match classify(o) {
            Shape::Integer(r) => Some(r),
            Shape::Reference(target) => match find_object(doc, target) {
                None => None,
                Some(t) => match classify(t) {
                    Shape::Integer(r) => Some(r),
                    _ => None,
                },
            },
            _ => None,
        },
    }
}

/// The parent that a node names.
fn parent_entry(node: &lopdf::Dictionary) -> (r: Option<(u32, u16)>)
    ensures
        r == parent_of(dictionary_entries(*node)),
{
    match entry(node, PARENT.as_slice()) {
        None => None,
        Some(o) => match classify(o) {
            Shape::Reference(p) => Some(p),
            _ => None,
        },
    }
}

/// Resolves the effective rotation of a page: its own where it declares one,
/// else that of the nearest ancestor that does, asking the page and at most
/// ten ancestors; zero where none of them declares a rotation.
pub fn get_page_rotation(doc: &lopdf::Document, page_id: (u32, u16)) -> (r: i64)
    ensures
        r == page_rotation(document_objects(*doc), page_id),
{
    let ghost objects = document_objects(*doc);
    let mut current: (u32, u16) = page_id;
    let mut depth: usize = 0;
    while depth <= MAX_PARENT_DEPTH
        invariant
            depth <= MAX_PARENT_DEPTH + 1,
            objects == document_objects(*doc),
            page_rotation(objects, page_id) == inherited_rotation(
                objects,
                current,
                (MAX_PARENT_DEPTH + 1 - depth) as nat,
            ),
        decreases MAX_PARENT_DEPTH + 1 - depth,
    {
        let node = match page_entries(doc, current) {
            Some(d) => d,
            None => {
                return 0;
            },
        };
        if let Some(r) = rotation_entry(doc, node) {
            return r;
        }
        match parent_entry(node) {
            Some(p) => {
                current = p;
            },
            None => {
                return 0;
            },
        }
        depth += 1;
    }
    0
}

/// One number of a rectangle, in millionths.
fn read_number(o: &lopdf::Object) -> (r: Option<i64>)
    ensures
        match r {
            Some(v) => number_of(object_value(*o)) == Some(v as int),
            None => number_of(object_value(*o)) is None,
        },
{
    match classify(o) {
        Shape::Integer(i) => {
            let wide: i128 = (i as i128) * (SCALE as i128);
            if wide < i64::MIN as i128 || wide > i64::MAX as i128 {
                None
            } else {
                Some(wide as i64)
            }
        },
        Shape::Real(bits) => micro_from_single(bits),
        _ => None,
    }
}

/// The extent between two numbers of a rectangle.
fn read_extent(lower: &lopdf::Object, upper: &lopdf::Object) -> (r: Option<i64>)
    ensures
        r == extent(object_value(*lower), object_value(*upper)),
{
    match (read_number(lower), read_number(upper)) {
        (Some(a), Some(b)) => {
            let wide: i128 = b as i128 - a as i128;
            if wide < i64::MIN as i128 || wide > i64::MAX as i128 {
                None
            } else if fits(wide as i64) {
                Some(wide as i64)
            } else {
                None
            }
        },
        _ => None,
    }
}

/// Reads the size of the visible area of a page from its `MediaBox`: the
/// width and the height, in millionths. `None` where the page is missing or no
/// container, has no rectangle of four numbers there, or has one whose extents
/// cannot be held.
pub fn page_size(doc: &lopdf::Document, page_id: (u32, u16)) -> (r: Option<(i64, i64)>)
    ensures
        r == media_box_size(document_objects(*doc), page_id),
{
    let node = match page_entries(doc, page_id) {
        Some(d) => d,
        None => {
            return None;
        },
    };
    let items = match entry(node, MEDIA_BOX.as_slice()) {
        None => {
            return None;
        },
        Some(o) => match classify(o) {
            Shape::Array(items) => items,
            _ => {
                return None;
            },
        },
    };
    if items.len() < 4 {
        return None;
    }
    let width = read_extent(&items[0], &items[2]);
    let height = read_extent(&items[1], &items[3]);
    match (width, height) {
        (Some(w), Some(h)) => Some((w, h)),
        _ => None,
    }
}

/// The geometry of a page: its size, or the standard size where it has none
/// that can be read, and its effective rotation.
pub fn page_geometry(doc: &lopdf::Document, page_id: (u32, u16)) -> (g: PageGeometry)
    ensures
        g == geometry_of(document_objects(*doc), page_id),
        g.wf(),
{
    let rotation = get_page_rotation(doc, page_id);
    match page_size(doc, page_id) {
        Some((w, h)) => PageGeometry { width: w, height: h, rotation },
        None => PageGeometry { width: STANDARD_WIDTH, height: STANDARD_HEIGHT, rotation },
    }
}

/// The dictionary under a key that is to be written into, as far as reading
/// tells: whether it is there, can be made, or is barred.
fn slot_state<'a>(node: &'a lopdf::Dictionary, key: &[u8]) -> (r: Option<Option<&'a lopdf::Dictionary>>)
    ensures
        match r {
            None => slot(dictionary_entries(*node), key@) is None,
            Some(None) => !dictionary_entries(*node).contains_key(key@),
            Some(Some(d)) => dictionary_entries(*node).contains_key(key@) && slot(
                dictionary_entries(*node),
                key@,
            ) == Some(dictionary_entries(*d)),
        },
{
    match entry(node, key) {
        None => Some(None),
        Some(o) => match classify(o) {
            Shape::Dictionary(d) => Some(Some(d)),
            _ => None,
        },
    }
}

/// Tells by reading whether a page can take the entry for a resource, and if
/// not, why.
pub fn check_registration(doc: &lopdf::Document, page_id: (u32, u16)) -> (r: Option<PageError>)
    ensures
        r == registration_error(document_objects(*doc), page_id),
{
    let o = match find_object(doc, page_id) {
        Some(o) => o,
        None => {
            return Some(PageError::Missing);
        },
    };
    let node = match classify(o) {
        Shape::Dictionary(d) => d,
        Shape::Stream(d, _) => d,
        _ => {
            return Some(PageError::NotAContainer);
        },
    };
    match slot_state(node, RESOURCES.as_slice()) {
        None => Some(PageError::ResourcesUnusable),
        Some(None) => None,
        Some(Some(resources)) => match slot_state(resources, XOBJECT.as_slice()) {
            None => Some(PageError::DrawablesUnusable),
            Some(_) => None,
        },
    }
}

/// The dictionary under a key of `node`, made first where the key is free;
/// `None`, and nothing changed, where the key holds anything else.
fn open_slot<'a>(node: &'a mut lopdf::Dictionary, key: &[u8]) -> (r: Option<&'a mut lopdf::Dictionary>)
    ensures
        r is Some <==> slot(dictionary_entries(*old(node)), key@) is Some,
        r matches Some(d) ==> dictionary_entries(*d) == slot(
            dictionary_entries(*old(node)),
            key@,
        ).unwrap() && dictionary_entries(*final(node)) == dictionary_entries(*old(node)).insert(
            key@,
            Value::Dictionary(dictionary_entries(*final(d))),
        ),
        r is None ==> dictionary_entries(*final(node)) == dictionary_entries(*old(node)),
{
    if !has_entry(node, key) {
        set_entry(node, key, NewValue::EmptyDictionary);
    }
    match entry_mut(node, key) {
        None => None,
        Some(o) => dictionary_mut(o),
    }
}

/// Makes a reusable resource known to a page under a name: the page gets
/// resources where it has none, the resources get drawable resources where
/// they have none, and these get a reference to the resource under the name,
/// in place of what the name stood for. Whether the page can take the entry
/// is decided by reading; a page that cannot leaves the whole document as it
/// was. Where it can, the page is the one object that is written to.
pub fn add_xobject_to_page(
    doc: &mut lopdf::Document,
    page_id: (u32, u16),
    name: &[u8],
    resource: (u32, u16),
) -> (r: Result<(), PageError>)
    ensures
        match registration_error(document_objects(*old(doc)), page_id) {
            Some(e) => r == Err::<(), PageError>(e) && *final(doc) == *old(doc),
            None => r is Ok && rewritten(
                *old(doc),
                *final(doc),
                page_id,
                registered(document_objects(*old(doc))[page_id], name@, resource),
            ),
        },
{
    match check_registration(doc, page_id) {
        Some(e) => {
            return Err(e);
        },
        None => {},
    }
    // every step succeeds on a page that can take the entry
    match find_object_mut(doc, page_id) {
        None => {},
        Some(page) => match container_mut(page) {
            None => {},
            Some(node) => match open_slot(node, RESOURCES.as_slice()) {
                None => {},
                Some(resources) => match open_slot(resources, XOBJECT.as_slice()) {
                    None => {},
                    Some(drawables) => {
                        set_entry(drawables, name, NewValue::Reference(resource));
                    },
                },
            },
        },
    }
    Ok(())
}

/// Entering a resource is idempotent: on a page that can take the entry, to
/// enter the same resource under the same name a second time changes
/// nothing.
pub proof fn lemma_entering_twice(node: Map<Seq<u8>, Value>, name: Seq<u8>, resource: (u32, u16))
    requires
        slot(node, RESOURCES@) matches Some(resources) && slot(resources, XOBJECT@) is Some,
    ensures
        with_resource(with_resource(node, name, resource), name, resource) == with_resource(
            node,
            name,
            resource,
        ),
{
    let once = with_resource(node, name, resource);
    let resources = slot(once, RESOURCES@).unwrap();
    let drawables = slot(resources, XOBJECT@).unwrap();
    assert(drawables.insert(name, Value::Reference(resource)) =~= drawables);
    assert(resources.insert(XOBJECT@, Value::Dictionary(drawables)) =~= resources);
    assert(with_resource(once, name, resource) =~= once);
}

/// Whether a node leaves the rotation to the given parent: it is a container
/// that declares no rotation and names that parent.
pub open spec fn defers_to(objects: Map<(u32, u16), Value>, id: (u32, u16), parent: (u32, u16)) -> bool {
    &&& objects.contains_key(id)
    &&& container(objects[id]) matches Some(node)
    &&& declared_rotation(objects, node) is None
    &&& parent_of(node) == Some(parent)
}

/// Whether a node is a container that declares the rotation `r`.
pub open spec fn declares(objects: Map<(u32, u16), Value>, id: (u32, u16), r: i64) -> bool {
    &&& objects.contains_key(id)
    &&& container(objects[id]) matches Some(node)
    &&& declared_rotation(objects, node) == Some(r)
}

/// Whether every node of a chain but the last leaves the rotation to the node
/// after it.
pub open spec fn defers_along(objects: Map<(u32, u16), Value>, chain: Seq<(u32, u16)>) -> bool {
    forall|i: int| 0 <= i < chain.len() - 1 ==> defers_to(objects, #[trigger] chain[i], chain[i + 1])
}

/// A rotation is found at the end of a chain of deferring nodes as long as the
/// chain is no longer than the reach.
pub proof fn lemma_rotation_found(
    objects: Map<(u32, u16), Value>,
    chain: Seq<(u32, u16)>,
    r: i64,
    reach: nat,
)
    requires
        1 <= chain.len() <= reach,
        defers_along(objects, chain),
        declares(objects, chain.last(), r),
    ensures
        inherited_rotation(objects, chain[0], reach) == r,
    decreases chain.len(),
{
    if chain.len() > 1 {
        let rest = chain.subrange(1, chain.len() as int);
        lemma_rotation_found(objects, rest, r, (reach - 1) as nat);
    }
}

/// A chain of deferring nodes that is longer than the reach ends in no
/// rotation, whatever the nodes beyond it declare.
pub proof fn lemma_rotation_out_of_reach(
    objects: Map<(u32, u16), Value>,
    chain: Seq<(u32, u16)>,
    reach: nat,
)
    requires
        chain.len() == reach + 1,
        defers_along(objects, chain),
    ensures
        inherited_rotation(objects, chain[0], reach) == 0,
    decreases reach,
{
    if reach > 0 {
        let rest = chain.subrange(1, chain.len() as int);
        lemma_rotation_out_of_reach(objects, rest, (reach - 1) as nat);
    }
}

/// Rotation is inherited. A page that declares no rotation, below ancestors
/// that declare none either, takes the rotation of the first ancestor that
/// declares one, if that ancestor is no more than ten steps up. Where the page
/// and its first ten ancestors all declare none, the page has rotation zero.
pub proof fn lemma_rotation_inherited(objects: Map<(u32, u16), Value>, chain: Seq<(u32, u16)>, r: i64)
    requires
        chain.len() >= 1,
        defers_along(objects, chain),
    ensures
        chain.len() <= MAX_PARENT_DEPTH + 1 && declares(objects, chain.last(), r) ==> page_rotation(
            objects,
            chain[0],
        ) == r,
        chain.len() == MAX_PARENT_DEPTH + 2 ==> page_rotation(objects, chain[0]) == 0,
{
    if chain.len() <= MAX_PARENT_DEPTH + 1 && declares(objects, chain.last(), r) {
        lemma_rotation_found(objects, chain, r, (MAX_PARENT_DEPTH + 1) as nat);
    }
    if chain.len() == MAX_PARENT_DEPTH + 2 {
        lemma_rotation_out_of_reach(objects, chain, (MAX_PARENT_DEPTH + 1) as nat);
    }
}

} // verus!
