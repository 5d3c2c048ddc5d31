//! The document object model, which is not proved here: its types are
//! declared, what a document holds is given a name, and each call into it is
//! one small function whose contract is taken on trust.

use vstd::prelude::*;

verus! {

/// A whole document.
#[verifier::external_type_specification]
#[verifier::external_body]
pub struct ExDocument(lopdf::Document);

/// One object of a document.
#[verifier::external_type_specification]
#[verifier::external_body]
pub struct ExObject(lopdf::Object);

/// A dictionary object: entries under byte-string keys.
#[verifier::external_type_specification]
#[verifier::external_body]
pub struct ExDictionary(lopdf::Dictionary);

/// What the engine reads of an object.
pub enum Value {
    /// A whole number.
    Integer(i64),
    /// A single-precision number, by its bit pattern.
    Real(u32),
    /// A reference to the object with the given number and generation.
    Reference((u32, u16)),
    /// An array, by its items.
    Array(Seq<Value>),
    /// A dictionary, by its entries.
    Dictionary(Map<Seq<u8>, Value>),
    /// A stream, by the entries of its dictionary and by its content.
    Stream(Map<Seq<u8>, Value>, Seq<u8>),
    /// Anything else: null, a boolean, a name, a string.
    Other,
}

/// An object told apart by its variant, with what the variant holds.
pub enum Shape<'a> {
    Integer(i64),
    Real(u32),
    Reference((u32, u16)),
    Array(&'a Vec<lopdf::Object>),
    Dictionary(&'a lopdf::Dictionary),
    /// The dictionary of a stream and its content.
    Stream(&'a lopdf::Dictionary, &'a Vec<u8>),
    Other,
}

/// A value that is written into a dictionary.
#[derive(Clone, Copy, Debug, PartialEq, Eq)]
pub enum NewValue {
    /// A dictionary without entries.
    EmptyDictionary,
    /// A reference to the object with the given number and generation.
    Reference((u32, u16)),
}

/// The key `Rotate`.
pub const ROTATE: [u8; 6] = [82, 111, 116, 97, 116, 101];

/// The key `Parent`.
pub const PARENT: [u8; 6] = [80, 97, 114, 101, 110, 116];

/// The key `MediaBox`.
pub const MEDIA_BOX: [u8; 8] = [77, 101, 100, 105, 97, 66, 111, 120];

/// The key `Resources`.
pub const RESOURCES: [u8; 9] = [82, 101, 115, 111, 117, 114, 99, 101, 115];

/// The key `XObject`.
pub const XOBJECT: [u8; 7] = [88, 79, 98, 106, 101, 99, 116];

/// The key `Contents`.
pub const CONTENTS: [u8; 8] = [67, 111, 110, 116, 101, 110, 116, 115];

/// The key `Length`.
pub const LENGTH: [u8; 6] = [76, 101, 110, 103, 116, 104];

/// What an object holds.
pub uninterp spec fn object_value(o: lopdf::Object) -> Value;

/// What a dictionary holds under each of its keys.
pub uninterp spec fn dictionary_entries(d: lopdf::Dictionary) -> Map<Seq<u8>, Value>;

/// What a document finds under each object number: the object itself, or the
/// one at the end of the references that start there. A number under which
/// nothing is found is not in the map.
pub uninterp spec fn document_objects(d: lopdf::Document) -> Map<(u32, u16), Value>;

/// The number under which the object itself stands that a document finds
/// under a number: the number itself, or the one at the end of the references
/// that start there.
pub uninterp spec fn document_home(d: lopdf::Document, id: (u32, u16)) -> (u32, u16);

/// Whether an object of any kind stands under a number itself.
pub uninterp spec fn document_holds(d: lopdf::Document, id: (u32, u16)) -> bool;

/// The object numbers of the pages of a document, in reading order.
pub uninterp spec fn document_pages(d: lopdf::Document) -> Seq<(u32, u16)>;

/// The highest object number that a document has given out.
pub uninterp spec fn document_max_id(d: lopdf::Document) -> u32;

/// The object number that a document gives out next.
pub open spec fn next_id(d: lopdf::Document) -> (u32, u16) {
    ((document_max_id(d) + 1) as u32, 0u16)
}

/// Whether a document can take one more object without harm: it has an
/// object number left, and nothing stands under the next one.
pub open spec fn has_room(d: lopdf::Document) -> bool {
    document_max_id(d) < u32::MAX && !document_holds(d, next_id(d))
}

/// How a document stands after the object found under `id` was overwritten
/// with `v`, which is no reference. No number is given out, the same numbers
/// hold objects and lead to the same places, and every number finds what it
/// found before, but for those that lead to the overwritten object: they find
/// `v`.
pub open spec fn rewritten(before: lopdf::Document, after: lopdf::Document, id: (u32, u16), v: Value) -> bool {
    &&& document_max_id(after) == document_max_id(before)
    &&& forall|j: (u32, u16)| #[trigger] document_holds(after, j) == document_holds(before, j)
    &&& forall|j: (u32, u16)| #[trigger]
        document_objects(after).contains_key(j) == document_objects(before).contains_key(j)
    &&& forall|j: (u32, u16)|
        document_objects(before).contains_key(j) ==> #[trigger] document_home(after, j)
            == document_home(before, j)
    &&& forall|j: (u32, u16)|
        document_objects(before).contains_key(j) ==> #[trigger] document_objects(after)[j] == (
        if document_home(before, j) == document_home(before, id) {
            v
        } else {
            document_objects(before)[j]
        })
}

/// How a document stands after the object `v` was entered under the next
/// number, where nothing stood: that number is given out and holds `v`, and
/// every number that found something finds the same.
pub open spec fn shelved(before: lopdf::Document, after: lopdf::Document, v: Value) -> bool {
    &&& document_max_id(after) == document_max_id(before) + 1
    &&& forall|j: (u32, u16)| #[trigger]
        document_holds(after, j) == (document_holds(before, j) || j == next_id(before))
    &&& forall|j: (u32, u16)|
        document_objects(before).contains_key(j) ==> #[trigger] document_objects(
            after,
        ).contains_key(j)
    &&& forall|j: (u32, u16)|
        document_objects(before).contains_key(j) ==> #[trigger] document_home(after, j)
            == document_home(before, j)
    &&& forall|j: (u32, u16)|
        document_objects(before).contains_key(j) ==> #[trigger] document_objects(after)[j]
            == document_objects(before)[j]
    &&& document_objects(after).contains_key(next_id(before))
    &&& document_home(after, next_id(before)) == next_id(before)
    &&& document_objects(after)[next_id(before)] == v
}

/// What a dictionary holds where a new value was written.
pub open spec fn new_value(v: NewValue) -> Value {
    match v {
        NewValue::EmptyDictionary => Value::Dictionary(Map::empty()),
        NewValue::Reference(target) => Value::Reference(target),
    }
}

/// What a told-apart object holds.
pub open spec fn shape_value(s: Shape) -> Value {
    match s {
        Shape::Integer(i) => Value::Integer(i),
        Shape::Real(bits) => Value::Real(bits),
        Shape::Reference(id) => Value::Reference(id),
        Shape::Array(items) => Value::Array(Seq::new(items@.len(), |i: int| object_value(items@[i]))),
        Shape::Dictionary(d) => Value::Dictionary(dictionary_entries(*d)),
        Shape::Stream(d, content) => Value::Stream(dictionary_entries(*d), content@),
        Shape::Other => Value::Other,
    }
}

/// `Document::get_object`: the object found under a number, references
/// followed, or `None` where the lookup fails. What is found is never a
/// reference itself, and it is found under its own number too. Where something
/// is found, an object stands under the number asked for and under the
/// number that it leads to.
#[verifier::external_body]
pub(crate) fn find_object<'a>(doc: &'a lopdf::Document, id: (u32, u16)) -> (r: Option<&'a lopdf::Object>)
    ensures
        r is Some <==> document_objects(*doc).contains_key(id),
        r matches Some(o) ==> object_value(*o) == document_objects(*doc)[id] && !(object_value(
            *o,
        ) is Reference),
        r is Some ==> document_holds(*doc, id) && document_holds(*doc, document_home(*doc, id)),
        r is Some ==> document_objects(*doc).contains_key(document_home(*doc, id))
            && document_objects(*doc)[document_home(*doc, id)] == document_objects(*doc)[id]
            && document_home(*doc, document_home(*doc, id)) == document_home(*doc, id),
{
    doc.get_object(id).ok()
}

/// `Document::has_object`: whether an object stands under a number itself. A
/// number under which nothing stands finds nothing, and no number leads to
/// it.
#[verifier::external_body]
pub(crate) fn holds_object(doc: &lopdf::Document, id: (u32, u16)) -> (b: bool)
    ensures
        b == document_holds(*doc, id),
        !b ==> !document_objects(*doc).contains_key(id),
        !b ==> forall|j: (u32, u16)|
            document_objects(*doc).contains_key(j) ==> #[trigger] document_home(*doc, j) != id,
{
    doc.has_object(id)
}

/// Tells the variants of `Object` apart. A real number is handed out by its
/// bit pattern, a stream by its dictionary and its content.
#[verifier::external_body]
pub(crate) fn classify<'a>(o: &'a lopdf::Object) -> (s: Shape<'a>)
    ensures
        shape_value(s) == object_value(*o),
{
    match o {
        lopdf::Object::Integer(i) => Shape::Integer(*i),
        lopdf::Object::Real(x) => Shape::Real(x.to_bits()),
        lopdf::Object::Reference(id) => Shape::Reference(*id),
        lopdf::Object::Array(items) => Shape::Array(items),
        lopdf::Object::Dictionary(d) => Shape::Dictionary(d),
        lopdf::Object::Stream(s) => Shape::Stream(&s.dict, &s.content),
        _ => Shape::Other,
    }
}

/// `Dictionary::get`: the entry under a key, or `None` where there is none.
#[verifier::external_body]
pub(crate) fn entry<'a>(d: &'a lopdf::Dictionary, key: &[u8]) -> (r: Option<&'a lopdf::Object>)
    ensures
        r is Some <==> dictionary_entries(*d).contains_key(key@),
        r matches Some(o) ==> object_value(*o) == dictionary_entries(*d)[key@],
{
    d.get(key).ok()
}

/// `Dictionary::has`: whether there is an entry under a key.
#[verifier::external_body]
pub(crate) fn has_entry(d: &lopdf::Dictionary, key: &[u8]) -> (b: bool)
    ensures
        b == dictionary_entries(*d).contains_key(key@),
{
    d.has(key)
}

/// `Document::get_object_mut`: the object found under a number, references
/// followed, for writing. It is never a reference itself. It is the one
/// object that can be written to: unless a reference is written into it, the
/// document stands afterwards as `rewritten` says.
#[verifier::external_body]
pub(crate) fn find_object_mut<'a>(doc: &'a mut lopdf::Document, id: (u32, u16)) -> (r: Option<
    &'a mut lopdf::Object,
>)
    ensures
        r is Some <==> document_objects(*old(doc)).contains_key(id),
        r matches Some(o) ==> object_value(*o) == document_objects(*old(doc))[id] && !(
        object_value(*o) is Reference),
        r matches Some(o) ==> (!(object_value(*final(o)) is Reference) ==> rewritten(
            *old(doc),
            *final(doc),
            id,
            object_value(*final(o)),
        )),
        r is None ==> *final(doc) == *old(doc),
{
    doc.get_object_mut(id).ok()
}

/// The dictionary of a dictionary object or of a stream object, for writing;
/// `None` for any other object.
#[verifier::external_body]
pub(crate) fn container_mut<'a>(o: &'a mut lopdf::Object) -> (r: Option<&'a mut lopdf::Dictionary>)
    ensures
        match object_value(*old(o)) {
            Value::Dictionary(m) => r matches Some(d) && dictionary_entries(*d) == m
                && object_value(*final(o)) == Value::Dictionary(dictionary_entries(*final(d))),
            Value::Stream(m, content) => r matches Some(d) && dictionary_entries(*d) == m
                && object_value(*final(o)) == Value::Stream(
                dictionary_entries(*final(d)),
                content,
            ),
            _ => r is None && *final(o) == *old(o),
        },
{
    match o {
        lopdf::Object::Dictionary(d) => Some(d),
        lopdf::Object::Stream(s) => Some(&mut s.dict),
        _ => None,
    }
}

/// `Object::as_dict_mut`: the dictionary of a dictionary object, for writing;
/// `None` for any other object, a stream too.
#[verifier::external_body]
pub(crate) fn dictionary_mut<'a>(o: &'a mut lopdf::Object) -> (r: Option<&'a mut lopdf::Dictionary>)
    ensures
        match object_value(*old(o)) {
            Value::Dictionary(m) => r matches Some(d) && dictionary_entries(*d) == m
                && object_value(*final(o)) == Value::Dictionary(dictionary_entries(*final(d))),
            _ => r is None && *final(o) == *old(o),
        },
{
    o.as_dict_mut().ok()
}

/// `Dictionary::get_mut`: the entry under a key, for writing.
#[verifier::external_body]
pub(crate) fn entry_mut<'a>(d: &'a mut lopdf::Dictionary, key: &[u8]) -> (r: Option<
    &'a mut lopdf::Object,
>)
    ensures
        r is Some <==> dictionary_entries(*old(d)).contains_key(key@),
        r matches Some(o) ==> object_value(*o) == dictionary_entries(*old(d))[key@]
            && dictionary_entries(*final(d)) == dictionary_entries(*old(d)).insert(
            key@,
            object_value(*final(o)),
        ),
        r is None ==> *final(d) == *old(d),
{
    d.get_mut(key).ok()
}

/// `Dictionary::set`: puts a new value under a key, in place of what was
/// there.
#[verifier::external_body]
pub(crate) fn set_entry(d: &mut lopdf::Dictionary, key: &[u8], value: NewValue)
    ensures
        dictionary_entries(*final(d)) == dictionary_entries(*old(d)).insert(
            key@,
            new_value(value),
        ),
{
    match value {
        NewValue::EmptyDictionary => d.set(key, lopdf::Dictionary::new()),
        NewValue::Reference(target) => d.set(key, lopdf::Object::Reference(target)),
    }
}

/// `Document::page_iter`, walked to its end: the pages in reading order.
#[verifier::external_body]
pub(crate) fn page_ids(doc: &lopdf::Document) -> (pages: Vec<(u32, u16)>)
    ensures
        pages@ == document_pages(*doc),
{
    let mut pages = Vec::new();
    for id in doc.page_iter() {
        pages.push(id);
    }
    pages
}

/// The field `max_id` of a document.
#[verifier::external_body]
pub(crate) fn max_object_id(doc: &lopdf::Document) -> (id: u32)
    ensures
        id == document_max_id(*doc),
{
    doc.max_id
}

/// The content streams that a page names under `Contents`: one where it
/// holds a reference, those of the array where it holds an array, none
/// otherwise.
pub open spec fn content_list(page: Map<Seq<u8>, Value>) -> Seq<Value> {
    if !page.contains_key(CONTENTS@) {
        Seq::empty()
    } else {
        match page[CONTENTS@] {
            Value::Reference(id) => seq![Value::Reference(id)],
            Value::Array(items) => items,
            _ => Seq::empty(),
        }
    }
}

/// A page after a content stream was added under the number `stream`: it
/// names the content streams that it named before, and then the new one.
pub open spec fn with_content(page: Map<Seq<u8>, Value>, stream: (u32, u16)) -> Map<Seq<u8>, Value> {
    page.insert(CONTENTS@, Value::Array(content_list(page).push(Value::Reference(stream))))
}

/// A stream that holds nothing but content and its length.
pub open spec fn content_stream(content: Seq<u8>) -> Value {
    Value::Stream(Map::empty().insert(LENGTH@, Value::Integer(content.len() as i64)), content)
}

/// How a document stands after a content stream was added to the page
/// under `page`, a dictionary with the entries `m`: the stream stands under
/// the next number, the page names it last, and every other number finds what
/// it found before.
pub open spec fn appended(
    before: lopdf::Document,
    after: lopdf::Document,
    page: (u32, u16),
    m: Map<Seq<u8>, Value>,
    content: Seq<u8>,
) -> bool {
    &&& document_max_id(after) == document_max_id(before) + 1
    &&& forall|j: (u32, u16)| #[trigger]
        document_holds(after, j) == (document_holds(before, j) || j == next_id(before))
    &&& forall|j: (u32, u16)|
        document_objects(before).contains_key(j) ==> #[trigger] document_objects(
            after,
        ).contains_key(j)
    &&& forall|j: (u32, u16)|
        document_objects(before).contains_key(j) ==> #[trigger] document_home(after, j)
            == document_home(before, j)
    &&& forall|j: (u32, u16)|
        document_objects(before).contains_key(j) ==> #[trigger] document_objects(after)[j] == (
        if document_home(before, j) == document_home(before, page) {
            Value::Dictionary(with_content(m, next_id(before)))
        } else {
            document_objects(before)[j]
        })
    &&& document_objects(after).contains_key(next_id(before))
    &&& document_home(after, next_id(before)) == next_id(before)
    &&& document_objects(after)[next_id(before)] == content_stream(content)
}

/// `Document::add_page_contents`: adds a content stream to a page, after
/// those that it has. It takes the next object number, so the document must
/// have room. It succeeds on a page that is a dictionary object and on no
/// other; where it fails nothing is written, and where it succeeds the
/// document stands as `appended` says.
#[verifier::external_body]
pub(crate) fn append_content(doc: &mut lopdf::Document, page: (u32, u16), content: Vec<u8>) -> (done: bool)
    requires
        has_room(*old(doc)),
    ensures
        done == (document_objects(*old(doc)).contains_key(page) && document_objects(
            *old(doc),
        )[page] is Dictionary),
        !done ==> *final(doc) == *old(doc),
        done ==> (document_objects(*old(doc))[page] matches Value::Dictionary(m) && appended(
            *old(doc),
            *final(doc),
            page,
            m,
            content@,
        )),
{
    doc.add_page_contents(page, content).is_ok()
}

/// What a new stream holds: the entries of the dictionary handed in, the
/// length of the content, and the content.
pub open spec fn new_stream(entries: Map<Seq<u8>, Value>, content: Seq<u8>) -> Value {
    Value::Stream(entries.insert(LENGTH@, Value::Integer(content.len() as i64)), content)
}

/// `Document::add_object` with a new stream made by `Stream::new`: enters a
/// stream with the given dictionary and content under the next object number
/// and hands that number out. The document must have room, and stands
/// afterwards as `shelved` says.
#[verifier::external_body]
pub(crate) fn add_stream(doc: &mut lopdf::Document, dictionary: lopdf::Dictionary, content: Vec<u8>) -> (id: (
    u32,
    u16,
))
    requires
        has_room(*old(doc)),
    ensures
        id == next_id(*old(doc)),
        shelved(*old(doc), *final(doc), new_stream(dictionary_entries(dictionary), content@)),
{
    doc.add_object(lopdf::Stream::new(dictionary, content))
}

} // verus!
